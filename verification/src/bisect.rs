use vstd::prelude::*;

use crate::errors::BisectError;
use crate::git::compute_range;
use crate::git::range_ids;
use crate::git::CommitGraph;
use crate::git::CommitRange;
use crate::host::GitPullRequest;

verus! {

/// The fully resolved input of one bisect-skip run, assembled by the
/// surrounding command-line layer.
pub struct SkipPullRequestsConfig {
    /// The repository the pull requests belong to.
    pub repository: crate::host::GitRepositoryUrl,
    /// The working directory skip subprocesses run in.
    pub directory: String,
    /// A known good revision specifier.
    pub good: String,
    /// A known bad revision specifier.
    pub bad: String,
    /// Whether to only print the plan instead of performing it.
    pub dry_run: bool,
}

/// A pull request lies in the range when its base or its merge commit
/// does.
pub open spec fn pr_in_range(pr: GitPullRequest, range: Set<Seq<char>>) -> bool {
    range.contains(pr.base_sha@) || range.contains(pr.merge_sha@)
}

/// The pull requests of `prs` whose base or merge commit lies in `range`,
/// in input order.
pub open spec fn filtered_prs(prs: Seq<GitPullRequest>, range: Set<Seq<char>>) -> Seq<
    GitPullRequest,
>
    decreases prs.len(),
{
    if prs.len() == 0 {
        seq![]
    } else {
        let rest = filtered_prs(prs.drop_last(), range);
        if pr_in_range(prs.last(), range) {
            rest.push(prs.last())
        } else {
            rest
        }
    }
}

/// Intersects the fetched pull requests with the commit range: a pull
/// request is retained exactly when its base or its merge commit id is a
/// member of the range.
pub fn filter(pull_requests: &Vec<GitPullRequest>, range: &CommitRange) -> (out: Vec<
    GitPullRequest,
>)
    ensures
        out@ == filtered_prs(pull_requests@, range@),
{
    let mut out: Vec<GitPullRequest> = Vec::new();
    let mut i: usize = 0;
    proof {
        assert(pull_requests@.take(0) =~= Seq::<GitPullRequest>::empty());
    }
    while i < pull_requests.len()
        invariant
            i <= pull_requests@.len(),
            out@ == filtered_prs(pull_requests@.take(i as int), range@),
        decreases pull_requests@.len() - i,
    {
        let pr = &pull_requests[i];
        if range.contains(&pr.base_sha) || range.contains(&pr.merge_sha) {
            out.push(pr.clone());
        }
        proof {
            assert(pull_requests@.take(i as int + 1).drop_last() =~= pull_requests@.take(i as int));
            assert(pull_requests@.take(i as int + 1).last() == pull_requests@[i as int]);
        }
        i += 1;
    }
    proof {
        assert(pull_requests@.take(pull_requests@.len() as int) =~= pull_requests@);
    }
    out
}

/// The filtered pull requests are a subset of the input, and a pull
/// request appears in the output exactly when it appears in the input and
/// its base or merge commit id belongs to the range.
pub proof fn lemma_filter_membership(prs: Seq<GitPullRequest>, range: Set<Seq<char>>)
    ensures
        forall|pr: GitPullRequest| #[trigger]
            filtered_prs(prs, range).contains(pr) ==> prs.contains(pr),
        forall|pr: GitPullRequest|
            #![trigger filtered_prs(prs, range).contains(pr)]
            #![trigger prs.contains(pr)]
            filtered_prs(prs, range).contains(pr) <==> (prs.contains(pr) && pr_in_range(
                pr,
                range,
            )),
    decreases prs.len(),
{
    if prs.len() == 0 {
    } else {
        lemma_filter_membership(prs.drop_last(), range);
        let f = filtered_prs(prs, range);
        let fr = filtered_prs(prs.drop_last(), range);
        assert forall|pr: GitPullRequest| #[trigger] f.contains(pr) implies (prs.contains(pr)
            && pr_in_range(pr, range)) by {
            let j = choose|j: int| 0 <= j < f.len() && f[j] == pr;
            if pr_in_range(prs.last(), range) {
                if j < fr.len() {
                    assert(fr[j] == pr);
                    assert(fr.contains(pr));
                    let m = choose|m: int| 0 <= m < prs.drop_last().len() && prs.drop_last()[m]
                        == pr;
                    assert(prs[m] == pr);
                } else {
                    assert(pr == prs.last());
                    assert(prs[prs.len() - 1] == pr);
                }
            } else {
                assert(fr[j] == pr);
                assert(fr.contains(pr));
                let m = choose|m: int| 0 <= m < prs.drop_last().len() && prs.drop_last()[m] == pr;
                assert(prs[m] == pr);
            }
        }
        assert forall|pr: GitPullRequest| prs.contains(pr) && pr_in_range(pr, range) implies
            #[trigger] f.contains(pr) by {
            let j = choose|j: int| 0 <= j < prs.len() && prs[j] == pr;
            if j < prs.len() - 1 {
                assert(prs.drop_last()[j] == pr);
                assert(prs.drop_last().contains(pr));
                assert(fr.contains(pr));
                let m = choose|m: int| 0 <= m < fr.len() && fr[m] == pr;
                if pr_in_range(prs.last(), range) {
                    assert(f[m] == pr);
                } else {
                    assert(f[m] == pr);
                }
            } else {
                assert(pr == prs.last());
                assert(f[f.len() - 1] == pr);
            }
        }
    }
}

/// One skip instruction: the range expression excluding the base commit
/// and including the merge commit's own change but not its deeper
/// ancestry, together with what identifies the pull request to a reader.
pub struct SkipInstruction {
    pub identifier: String,
    pub title: Option<String>,
    pub base_sha: String,
    pub merge_sha: String,
}

/// The instruction a retained pull request turns into.
pub open spec fn instruction_of(pr: GitPullRequest) -> SkipInstruction {
    SkipInstruction {
        identifier: pr.identifier,
        title: pr.title,
        base_sha: pr.base_sha,
        merge_sha: pr.merge_sha,
    }
}

/// Converts the retained pull requests into skip instructions: exactly one
/// instruction per pull request, preserving input order.
pub fn plan(filtered: &Vec<GitPullRequest>) -> (out: Vec<SkipInstruction>)
    ensures
        out@.len() == filtered@.len(),
        forall|i: int| 0 <= i < filtered@.len() ==> out@[i] == instruction_of(#[trigger] filtered@[i]),
{
    let mut out: Vec<SkipInstruction> = Vec::new();
    let mut i: usize = 0;
    while i < filtered.len()
        invariant
            i <= filtered@.len(),
            out@.len() == i,
            forall|k: int| 0 <= k < i ==> out@[k] == instruction_of(#[trigger] filtered@[k]),
        decreases filtered@.len() - i,
    {
        let pr = filtered[i].clone();
        out.push(
            SkipInstruction {
                identifier: pr.identifier,
                title: pr.title,
                base_sha: pr.base_sha,
                merge_sha: pr.merge_sha,
            },
        );
        i += 1;
    }
    out
}

/// The argument handed to the skip operation: `base..merge^`.
pub open spec fn skip_arg_spec(base: Seq<char>, merge: Seq<char>) -> Seq<char> {
    base + ".."@ + merge + "^"@
}

/// The full command line a dry run previews: `git bisect skip base..merge^`.
pub open spec fn command_line_spec(base: Seq<char>, merge: Seq<char>) -> Seq<char> {
    "git bisect skip "@ + skip_arg_spec(base, merge)
}

/// The header text for a title: the title itself, or nothing.
pub open spec fn title_text(title: Option<String>) -> Seq<char> {
    match title {
        Option::Some(t) => t@,
        Option::None => Seq::<char>::empty(),
    }
}

/// The header identifying a pull request to the reader:
/// `# Pull request #identifier: "title"`.
pub open spec fn header_line_spec(identifier: Seq<char>, title: Option<String>) -> Seq<char> {
    "# Pull request #"@ + identifier + ": \""@ + title_text(title) + "\""@
}

/// Renders the skip argument of an instruction.
pub fn skip_argument(inst: &SkipInstruction) -> (s: String)
    ensures
        s@ == skip_arg_spec(inst.base_sha@, inst.merge_sha@),
{
    let mut s = String::new();
    s.append(inst.base_sha.as_str());
    s.append("..");
    s.append(inst.merge_sha.as_str());
    s.append("^");
    proof {
        assert(s@ =~= skip_arg_spec(inst.base_sha@, inst.merge_sha@));
    }
    s
}

/// Renders the command line a dry run prints for an instruction.
pub fn render_command_line(inst: &SkipInstruction) -> (s: String)
    ensures
        s@ == command_line_spec(inst.base_sha@, inst.merge_sha@),
{
    let mut s: String = "git bisect skip ".to_owned();
    let arg = skip_argument(inst);
    s.append(arg.as_str());
    proof {
        assert(s@ =~= command_line_spec(inst.base_sha@, inst.merge_sha@));
    }
    s
}

/// Renders the header line printed above each instruction.
pub fn render_header(inst: &SkipInstruction) -> (s: String)
    ensures
        s@ == header_line_spec(inst.identifier@, inst.title),
{
    let mut s: String = "# Pull request #".to_owned();
    s.append(inst.identifier.as_str());
    s.append(": \"");
    match &inst.title {
        Option::Some(t) => {
            s.append(t.as_str());
        },
        Option::None => {},
    }
    s.append("\"");
    proof {
        assert(s@ =~= header_line_spec(inst.identifier@, inst.title));
    }
    s
}

/// One subprocess invocation: a program and its arguments, to be run in
/// the configured working directory.
pub struct SkipCommand {
    pub program: String,
    pub args: Vec<String>,
}

/// The subprocess an instruction calls for:
/// `git` with arguments `bisect skip base..merge^`.
pub open spec fn command_matches(c: SkipCommand, base: Seq<char>, merge: Seq<char>) -> bool {
    &&& c.program@ == "git"@
    &&& c.args@.len() == 3
    &&& c.args@[0]@ == "bisect"@
    &&& c.args@[1]@ == "skip"@
    &&& c.args@[2]@ == skip_arg_spec(base, merge)
}

/// Builds the subprocess invocation for one instruction.
pub fn skip_command(inst: &SkipInstruction) -> (c: SkipCommand)
    ensures
        command_matches(c, inst.base_sha@, inst.merge_sha@),
{
    let mut args: Vec<String> = Vec::new();
    args.push("bisect".to_owned());
    args.push("skip".to_owned());
    args.push(skip_argument(inst));
    SkipCommand { program: "git".to_owned(), args }
}

/// One step of a run, in order: print a line to standard output, or run a
/// subprocess and wait for it.
pub enum SkipAction {
    Print(String),
    Run(SkipCommand),
}

/// The two actions an instruction contributes: its header, then either the
/// previewed command line (dry run) or the subprocess itself (live run).
pub open spec fn action_pair_matches(
    a1: SkipAction,
    a2: SkipAction,
    inst: SkipInstruction,
    dry_run: bool,
) -> bool {
    &&& (a1 matches SkipAction::Print(h) && h@ == header_line_spec(inst.identifier@, inst.title))
    &&& (dry_run ==> (a2 matches SkipAction::Print(c) && c@ == command_line_spec(
        inst.base_sha@,
        inst.merge_sha@,
    )))
    &&& (!dry_run ==> (a2 matches SkipAction::Run(c) && command_matches(
        c,
        inst.base_sha@,
        inst.merge_sha@,
    )))
}

/// Turns the ordered instructions into the ordered actions of a run. A dry
/// run yields print actions only - it never runs a subprocess - and the
/// printed command line is exactly `git bisect skip base..merge^`.
pub fn execute(instructions: &Vec<SkipInstruction>, dry_run: bool) -> (acts: Vec<SkipAction>)
    ensures
        acts@.len() == 2 * instructions@.len(),
        forall|i: int|
            0 <= i < instructions@.len() ==> action_pair_matches(
                acts@[2 * i],
                acts@[2 * i + 1],
                #[trigger] instructions@[i],
                dry_run,
            ),
        dry_run ==> forall|j: int| 0 <= j < acts@.len() ==> acts@[j] is Print,
{
    let mut acts: Vec<SkipAction> = Vec::new();
    let mut i: usize = 0;
    while i < instructions.len()
        invariant
            i <= instructions@.len(),
            acts@.len() == 2 * i,
            forall|k: int|
                0 <= k < i ==> action_pair_matches(
                    acts@[2 * k],
                    acts@[2 * k + 1],
                    #[trigger] instructions@[k],
                    dry_run,
                ),
            dry_run ==> forall|j: int| 0 <= j < acts@.len() ==> acts@[j] is Print,
        decreases instructions@.len() - i,
    {
        let inst = &instructions[i];
        let header = render_header(inst);
        acts.push(SkipAction::Print(header));
        if dry_run {
            let line = render_command_line(inst);
            acts.push(SkipAction::Print(line));
        } else {
            let command = skip_command(inst);
            acts.push(SkipAction::Run(command));
        }
        i += 1;
    }
    acts
}

/// Decides the outcome of one skip subprocess: the run may continue only
/// when the process was spawned and exited with status zero; the first
/// failure aborts the run with the failing status.
pub fn run_outcome(spawned: bool, exit_code: Option<i32>) -> (r: Result<(), BisectError>)
    ensures
        r is Ok <==> (spawned && (exit_code matches Some(c) && c == 0)),
        (!spawned ==> (r matches Err(BisectError::Execution(c)) && c is None)),
        (spawned && !(exit_code matches Some(c) && c == 0) ==> (r matches Err(
            BisectError::Execution(c),
        ) && c == exit_code)),
{
    if !spawned {
        return Err(BisectError::Execution(None));
    }
    match exit_code {
        Option::Some(code) => {
            if code == 0 {
                Ok(())
            } else {
                Err(BisectError::Execution(Some(code)))
            }
        },
        Option::None => Err(BisectError::Execution(None)),
    }
}

/// The whole core run: resolve the commit range between the configured
/// good and bad revisions, intersect the fetched pull requests with it,
/// convert the retained ones into skip instructions in order, and lay out
/// the actions of the run. The first unresolvable revision specifier
/// aborts the run and is named in the error; a dry run yields print
/// actions only.
pub fn skip_pull_requests(
    graph: &CommitGraph,
    pull_requests: &Vec<GitPullRequest>,
    config: &SkipPullRequestsConfig,
) -> (r: Result<Vec<SkipAction>, BisectError>)
    requires
        graph.wf(),
    ensures
        r is Ok <==> (graph.resolved(config.good@) is Some && graph.resolved(config.bad@) is Some),
        (graph.resolved(config.good@) is None ==> (r matches Err(BisectError::Resolution(s))
            && s@ == config.good@)),
        (graph.resolved(config.good@) is Some && graph.resolved(config.bad@) is None ==> (
        r matches Err(BisectError::Resolution(s)) && s@ == config.bad@)),
        (r matches Ok(acts) ==> {
            let range = range_ids(
                graph.commits@,
                graph.resolved(config.good@).unwrap(),
                graph.resolved(config.bad@).unwrap(),
            );
            let f = filtered_prs(pull_requests@, range);
            acts@.len() == 2 * f.len() && forall|i: int|
                0 <= i < f.len() ==> action_pair_matches(
                    acts@[2 * i],
                    acts@[2 * i + 1],
                    instruction_of(#[trigger] f[i]),
                    config.dry_run,
                )
        }),
        (r matches Ok(acts) ==> (config.dry_run ==> forall|j: int|
            0 <= j < acts@.len() ==> acts@[j] is Print)),
{
    let range = match compute_range(graph, &config.good, &config.bad) {
        Ok(rg) => rg,
        Err(e) => {
            return Err(e);
        },
    };
    let retained = filter(pull_requests, &range);
    let instructions = plan(&retained);
    let acts = execute(&instructions, config.dry_run);
    Ok(acts)
}

} // verus!
