use git_assist::bisect::{
    execute, render_command_line, render_header, run_outcome, skip_command, SkipAction,
    SkipInstruction,
};
use git_assist::errors::BisectError;

fn instruction(identifier: &str, title: Option<&str>, base: &str, merge: &str) -> SkipInstruction {
    SkipInstruction {
        identifier: identifier.to_string(),
        title: title.map(|t| t.to_string()),
        base_sha: base.to_string(),
        merge_sha: merge.to_string(),
    }
}

#[test]
fn dry_run_never_spawns_and_prints_exact_lines() {
    let instructions = vec![
        instruction("1", Some("First"), "a1", "b1"),
        instruction("2", None, "a2", "b2"),
    ];
    let acts = execute(&instructions, true);
    assert_eq!(acts.len(), 4);
    for act in &acts {
        assert!(matches!(act, SkipAction::Print(_)));
    }
    let lines: Vec<&String> = acts
        .iter()
        .map(|a| match a {
            SkipAction::Print(s) => s,
            SkipAction::Run(_) => unreachable!(),
        })
        .collect();
    assert_eq!(lines[0], "# Pull request #1: \"First\"");
    assert_eq!(lines[1], "git bisect skip a1..b1^");
    assert_eq!(lines[2], "# Pull request #2: \"\"");
    assert_eq!(lines[3], "git bisect skip a2..b2^");
}

#[test]
fn live_run_spawns_one_subprocess_per_instruction() {
    let instructions = vec![instruction("5", Some("Five"), "base", "merge")];
    let acts = execute(&instructions, false);
    assert_eq!(acts.len(), 2);
    assert!(matches!(&acts[0], SkipAction::Print(s) if s == "# Pull request #5: \"Five\""));
    match &acts[1] {
        SkipAction::Run(cmd) => {
            assert_eq!(cmd.program, "git");
            assert_eq!(cmd.args, vec!["bisect", "skip", "base..merge^"]);
        },
        SkipAction::Print(_) => panic!("live run must spawn"),
    }
}

#[test]
fn rendering_matches_the_documented_format() {
    let inst = instruction("12", Some("A title"), "0a0b", "1c1d");
    assert_eq!(render_header(&inst), "# Pull request #12: \"A title\"");
    assert_eq!(render_command_line(&inst), "git bisect skip 0a0b..1c1d^");
    let cmd = skip_command(&inst);
    assert_eq!(cmd.program, "git");
    assert_eq!(cmd.args, vec!["bisect", "skip", "0a0b..1c1d^"]);
}

#[test]
fn error_messages_name_the_cause() {
    assert_eq!(
        BisectError::Resolution("nope".to_string()).message(),
        "Unable to resolve revision: nope"
    );
    assert_eq!(BisectError::Fetch("boom".to_string()).message(), "boom");
    assert_eq!(
        BisectError::UnsupportedHost("forge.example.org".to_string()).message(),
        "Unsupported host: forge.example.org"
    );
    assert_eq!(
        BisectError::UnknownHost("local-path".to_string()).message(),
        "Unable to detect host: local-path"
    );
    assert_eq!(
        BisectError::InvalidUrl("::::".to_string()).message(),
        "Unable to parse url: ::::"
    );
    assert_eq!(
        BisectError::Execution(Some(-9)).message(),
        "Skip command failed with exit status -9"
    );
    assert_eq!(
        BisectError::Execution(None).message(),
        "Skip command could not be run"
    );
}

#[test]
fn run_outcome_continues_only_on_clean_exit() {
    assert!(run_outcome(true, Some(0)).is_ok());
    let r = run_outcome(true, Some(2));
    assert!(matches!(r, Err(BisectError::Execution(Some(2)))));
    let r = run_outcome(false, None);
    assert!(matches!(r, Err(BisectError::Execution(None))));
    let r = run_outcome(true, None);
    assert!(matches!(r, Err(BisectError::Execution(None))));
}
