use git_assist::bisect::{filter, plan, skip_pull_requests, SkipAction, SkipPullRequestsConfig};
use git_assist::errors::BisectError;
use git_assist::git::{compute_range, Commit, CommitGraph, CommitRange, RefEntry};
use git_assist::host::{GitPullRequest, GitRepositoryUrl};

fn commit(id: &str, parent: Option<&str>) -> Commit {
    Commit { id: id.to_string(), parent: parent.map(|p| p.to_string()) }
}

fn chain_graph() -> CommitGraph {
    // First-parent chain c1 -> c2 -> c3 -> c4 -> c5, listed newest-first.
    CommitGraph {
        commits: vec![
            commit("c5", Some("c4")),
            commit("c4", Some("c3")),
            commit("c3", Some("c2")),
            commit("c2", Some("c1")),
            commit("c1", None),
        ],
        refs: vec![],
    }
}

fn pull_request(identifier: &str, title: Option<&str>, base: &str, merge: &str) -> GitPullRequest {
    GitPullRequest {
        identifier: identifier.to_string(),
        title: title.map(|t| t.to_string()),
        base_sha: base.to_string(),
        merge_sha: merge.to_string(),
    }
}

fn url_stub() -> GitRepositoryUrl {
    GitRepositoryUrl {
        url_string: "https://github.com/owner/repo.git".to_string(),
        host: Some("github.com".to_string()),
        owner: Some("owner".to_string()),
        repo: Some("repo".to_string()),
    }
}

#[test]
fn range_of_first_parent_chain() {
    let graph = chain_graph();
    assert!(graph.check_wf());
    let range = compute_range(&graph, &"c1".to_string(), &"c5".to_string()).unwrap();
    assert!(range.contains(&"c5".to_string()));
    assert!(range.contains(&"c4".to_string()));
    assert!(range.contains(&"c3".to_string()));
    assert!(range.contains(&"c2".to_string()));
    assert!(!range.contains(&"c1".to_string()));
    assert!(!range.contains(&"c6".to_string()));
}

#[test]
fn range_of_equal_good_and_bad_is_empty() {
    let graph = chain_graph();
    let range = compute_range(&graph, &"c5".to_string(), &"c5".to_string()).unwrap();
    assert!(!range.contains(&"c5".to_string()));
    assert!(!range.contains(&"c4".to_string()));
}

#[test]
fn range_with_unrelated_good_is_not_an_error() {
    // x1 is no first-parent ancestor of c5: the walk just never stops early.
    let mut graph = chain_graph();
    graph.commits.push(commit("x1", None));
    assert!(graph.check_wf());
    let range = compute_range(&graph, &"x1".to_string(), &"c5".to_string()).unwrap();
    assert!(range.contains(&"c5".to_string()));
    assert!(range.contains(&"c1".to_string()));
    assert!(!range.contains(&"x1".to_string()));
}

#[test]
fn unresolvable_good_names_the_spec() {
    let graph = chain_graph();
    let r = compute_range(&graph, &"nope".to_string(), &"c5".to_string());
    assert!(matches!(r, Err(BisectError::Resolution(s)) if s == "nope"));
}

#[test]
fn unresolvable_bad_names_the_spec() {
    let graph = chain_graph();
    let r = compute_range(&graph, &"c1".to_string(), &"zzz".to_string());
    assert!(matches!(r, Err(BisectError::Resolution(s)) if s == "zzz"));
}

#[test]
fn refs_resolve_before_commit_ids() {
    let mut graph = chain_graph();
    graph.refs.push(RefEntry { name: "main".to_string(), target: "c5".to_string() });
    let range = compute_range(&graph, &"c1".to_string(), &"main".to_string()).unwrap();
    assert!(range.contains(&"c5".to_string()));
    assert!(!range.contains(&"c1".to_string()));
}

#[test]
fn check_wf_rejects_duplicate_ids() {
    let graph = CommitGraph {
        commits: vec![commit("a", None), commit("a", None)],
        refs: vec![],
    };
    assert!(!graph.check_wf());
}

#[test]
fn check_wf_rejects_parent_before_child() {
    let graph = CommitGraph {
        commits: vec![commit("a", None), commit("b", Some("a"))],
        refs: vec![],
    };
    assert!(!graph.check_wf());
}

#[test]
fn skip_pull_requests_example() {
    // The worked example: PR with base c2 and merge c4 is inside the range,
    // one with commits outside the chain is not.
    let graph = chain_graph();
    let prs = vec![
        pull_request("17", Some("Inside"), "c2", "c4"),
        pull_request("18", Some("Outside"), "c6", "c7"),
    ];
    let config = SkipPullRequestsConfig {
        repository: url_stub(),
        directory: ".".to_string(),
        good: "c1".to_string(),
        bad: "c5".to_string(),
        dry_run: true,
    };
    let acts = skip_pull_requests(&graph, &prs, &config).unwrap();
    assert_eq!(acts.len(), 2);
    match &acts[0] {
        SkipAction::Print(line) => assert_eq!(line, "# Pull request #17: \"Inside\""),
        SkipAction::Run(_) => panic!("dry run must not spawn"),
    }
    match &acts[1] {
        SkipAction::Print(line) => assert_eq!(line, "git bisect skip c2..c4^"),
        SkipAction::Run(_) => panic!("dry run must not spawn"),
    }
}

#[test]
fn skip_pull_requests_propagates_resolution_errors() {
    let graph = chain_graph();
    let prs: Vec<GitPullRequest> = vec![];
    let config = SkipPullRequestsConfig {
        repository: url_stub(),
        directory: ".".to_string(),
        good: "missing".to_string(),
        bad: "c5".to_string(),
        dry_run: true,
    };
    let r = skip_pull_requests(&graph, &prs, &config);
    assert!(matches!(r, Err(BisectError::Resolution(s)) if s == "missing"));
}

#[test]
fn filter_keeps_exactly_the_in_range_pull_requests() {
    let range = CommitRange::from_ids(vec!["c2".to_string(), "c4".to_string()]);
    let prs = vec![
        pull_request("1", None, "c2", "x9"),
        pull_request("2", None, "x8", "c4"),
        pull_request("3", None, "x8", "x9"),
    ];
    let kept = filter(&prs, &range);
    assert_eq!(kept.len(), 2);
    assert_eq!(kept[0].identifier, "1");
    assert_eq!(kept[1].identifier, "2");
}

#[test]
fn plan_preserves_length_and_order() {
    let prs = vec![
        pull_request("1", Some("one"), "a1", "b1"),
        pull_request("2", None, "a2", "b2"),
        pull_request("3", Some("three"), "a3", "b3"),
    ];
    let instructions = plan(&prs);
    assert_eq!(instructions.len(), 3);
    assert_eq!(instructions[0].identifier, "1");
    assert_eq!(instructions[0].base_sha, "a1");
    assert_eq!(instructions[0].merge_sha, "b1");
    assert_eq!(instructions[1].identifier, "2");
    assert!(instructions[1].title.is_none());
    assert_eq!(instructions[2].identifier, "3");
    assert_eq!(instructions[2].title.as_deref(), Some("three"));
}
