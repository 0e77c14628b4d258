use vstd::prelude::*;

use crate::errors::BisectError;

verus! {

/// One commit of the modeled repository: its identifier together with the
/// identifier of its first parent, if it has one. Only first-parent edges
/// are kept, because that is the only ancestry the bisect walk follows on
/// squash/rebase-merged history.
pub struct Commit {
    pub id: String,
    pub parent: Option<String>,
}

/// A named revision: maps a revision specifier (a branch, tag or other
/// symbolic name) to the identifier of the commit it points at.
pub struct RefEntry {
    pub name: String,
    pub target: String,
}

/// First-parent model of a repository's history. Commits are listed
/// newest-first: a well-formed graph has distinct identifiers, and every
/// recorded parent that occurs in the graph sits at a strictly higher index
/// than its child, which rules out cycles.
pub struct CommitGraph {
    pub commits: Vec<Commit>,
    pub refs: Vec<RefEntry>,
}

/// Whether some commit in `cs` carries the identifier `id`.
pub open spec fn has_commit(cs: Seq<Commit>, id: Seq<char>) -> bool {
    exists|i: int| 0 <= i < cs.len() && cs[i].id@ == id
}

/// The index of the commit carrying `id`; meaningful when `has_commit`
/// holds and identifiers are unique.
pub open spec fn idx_of(cs: Seq<Commit>, id: Seq<char>) -> int {
    choose|i: int| 0 <= i < cs.len() && cs[i].id@ == id
}

/// All commit identifiers in `cs` are distinct.
pub open spec fn ids_unique(cs: Seq<Commit>) -> bool {
    forall|i: int, j: int|
        0 <= i < cs.len() && 0 <= j < cs.len() && cs[i].id@ == cs[j].id@ ==> i == j
}

/// Every recorded parent that occurs in the graph sits at a strictly
/// higher index than its child.
pub open spec fn parents_later(cs: Seq<Commit>) -> bool {
    forall|i: int|
        #![trigger cs[i].parent]
        0 <= i < cs.len() && cs[i].parent is Some && has_commit(cs, cs[i].parent.unwrap()@)
            ==> i < idx_of(cs, cs[i].parent.unwrap()@)
}

/// Well-formedness of the commit list: what a real repository's
/// newest-first first-parent listing always satisfies.
pub open spec fn graph_wf(cs: Seq<Commit>) -> bool {
    ids_unique(cs) && parents_later(cs)
}

/// The identifiers visited by a first-parent walk that starts at index `i`
/// and stops at (and excludes) any identifier in `stop`, at a commit whose
/// parent is unrecorded or absent from the graph, and at the end of history.
pub open spec fn walk_from(cs: Seq<Commit>, i: int, stop: Set<Seq<char>>) -> Seq<Seq<char>>
    decreases cs.len() - i,
{
    if i < 0 || i >= cs.len() || stop.contains(cs[i].id@) {
        seq![]
    } else {
        match cs[i].parent {
            Option::None => seq![cs[i].id@],
            Option::Some(p) => {
                if has_commit(cs, p@) && i < idx_of(cs, p@) < cs.len() {
                    seq![cs[i].id@] + walk_from(cs, idx_of(cs, p@), stop)
                } else {
                    seq![cs[i].id@]
                }
            },
        }
    }
}

/// The full first-parent chain of `id`: `id` itself followed by its
/// first-parent ancestors, as far as the graph records them.
pub open spec fn chain_of(cs: Seq<Commit>, id: Seq<char>) -> Seq<Seq<char>> {
    if has_commit(cs, id) {
        walk_from(cs, idx_of(cs, id), Set::empty())
    } else {
        seq![]
    }
}

/// The identifiers a range walk must stop at and exclude: the good commit
/// itself and every first-parent ancestor of it.
pub open spec fn stop_set(cs: Seq<Commit>, good: Seq<char>) -> Set<Seq<char>> {
    chain_of(cs, good).to_set().insert(good)
}

/// The commit range between `good` and `bad`: the identifiers reached by a
/// first-parent walk from `bad` (inclusive) that stops at and excludes
/// `good` and its ancestors. Empty when `bad` is not in the graph.
pub open spec fn range_ids(cs: Seq<Commit>, good: Seq<char>, bad: Seq<char>) -> Set<Seq<char>> {
    if has_commit(cs, bad) {
        walk_from(cs, idx_of(cs, bad), stop_set(cs, good)).to_set()
    } else {
        Set::empty()
    }
}

/// What the first matching entry of the ref list, if any, maps `name` to.
pub open spec fn lookup_ref(rs: Seq<RefEntry>, name: Seq<char>) -> Option<Seq<char>>
    decreases rs.len(),
{
    if rs.len() == 0 {
        Option::None
    } else if rs[0].name@ == name {
        Option::Some(rs[0].target@)
    } else {
        lookup_ref(rs.drop_first(), name)
    }
}

/// The views of a list of identifier strings.
pub open spec fn views_of(ids: Seq<String>) -> Seq<Seq<char>> {
    ids.map_values(|s: String| s@)
}

/// Looks up `id` in `commits` by linear scan.
fn find_commit_index(commits: &Vec<Commit>, id: &String) -> (r: Option<usize>)
    ensures
        r is Some <==> has_commit(commits@, id@),
        (r matches Some(j) ==> j < commits@.len() && commits@[j as int].id@ == id@),
{
    let mut i: usize = 0;
    while i < commits.len()
        invariant
            i <= commits@.len(),
            forall|k: int| 0 <= k < i ==> commits@[k].id@ != id@,
        decreases commits@.len() - i,
    {
        if commits[i].id == *id {
            return Some(i);
        }
        i += 1;
    }
    None
}

/// The index `idx_of` denotes really carries `id`, once `id` occurs at all.
proof fn lemma_idx_of(cs: Seq<Commit>, id: Seq<char>)
    requires
        has_commit(cs, id),
    ensures
        0 <= idx_of(cs, id) < cs.len(),
        cs[idx_of(cs, id)].id@ == id,
{
    let i = choose|i: int| 0 <= i < cs.len() && cs[i].id@ == id;
    assert(0 <= i < cs.len() && cs[i].id@ == id);
}

/// Under unique identifiers, `idx_of` inverts indexing.
proof fn lemma_idx_of_self(cs: Seq<Commit>, i: int)
    requires
        ids_unique(cs),
        0 <= i < cs.len(),
    ensures
        idx_of(cs, cs[i].id@) == i,
{
    assert(has_commit(cs, cs[i].id@));
    lemma_idx_of(cs, cs[i].id@);
}

/// Whether `x` occurs among the identifier strings `ids`.
fn contains_id(ids: &Vec<String>, x: &String) -> (b: bool)
    ensures
        b == views_of(ids@).contains(x@),
{
    let mut i: usize = 0;
    while i < ids.len()
        invariant
            i <= ids@.len(),
            forall|k: int| 0 <= k < i ==> views_of(ids@)[k] != x@,
        decreases ids@.len() - i,
    {
        if ids[i] == *x {
            assert(views_of(ids@)[i as int] == x@);
            return true;
        }
        i += 1;
    }
    false
}

/// Collects the walk `walk_from` describes, starting at index `i` and
/// stopping at the identifiers listed in `stop`.
fn collect_from(commits: &Vec<Commit>, i: usize, stop: &Vec<String>) -> (out: Vec<String>)
    requires
        graph_wf(commits@),
        i < commits@.len(),
    ensures
        views_of(out@) == walk_from(commits@, i as int, views_of(stop@).to_set()),
    decreases commits@.len() - i,
{
    let ghost stop_ids = views_of(stop@).to_set();
    let stopped = contains_id(stop, &commits[i].id);
    if stopped {
        let out: Vec<String> = Vec::new();
        proof {
            assert(views_of(out@) =~= walk_from(commits@, i as int, stop_ids));
        }
        return out;
    }
    let mut out: Vec<String> = Vec::new();
    out.push(commits[i].id.clone());
    match &commits[i].parent {
        Option::None => {
            proof {
                assert(views_of(out@) =~= walk_from(commits@, i as int, stop_ids));
            }
            out
        },
        Option::Some(p) => {
            match find_commit_index(commits, p) {
                Option::None => {
                    proof {
                        assert(views_of(out@) =~= walk_from(commits@, i as int, stop_ids));
                    }
                    out
                },
                Option::Some(j) => {
                    proof {
                        lemma_idx_of(commits@, p@);
                        assert(j as int == idx_of(commits@, p@));
                        assert(i < j);
                    }
                    let mut rest = collect_from(commits, j, stop);
                    out.append(&mut rest);
                    proof {
                        assert(views_of(out@) =~= walk_from(commits@, i as int, stop_ids));
                    }
                    out
                },
            }
        },
    }
}

impl CommitGraph {
    /// The graph models a real repository: identifiers are unique and every
    /// recorded parent sits deeper in the newest-first listing.
    pub open spec fn wf(&self) -> bool {
        graph_wf(self.commits@)
    }

    /// What a revision specifier resolves to, if anything: the first
    /// matching named ref, or the specifier itself when it is a commit
    /// identifier of the graph.
    pub open spec fn resolved(&self, s: Seq<char>) -> Option<Seq<char>> {
        match lookup_ref(self.refs@, s) {
            Option::Some(t) => Option::Some(t),
            Option::None => if has_commit(self.commits@, s) {
                Option::Some(s)
            } else {
                Option::None
            },
        }
    }

    /// Decides well-formedness, so that callers can establish `wf` before
    /// computing ranges.
    pub fn check_wf(&self) -> (b: bool)
        ensures
            b == self.wf(),
    {
        let n = self.commits.len();
        let mut i: usize = 0;
        while i < n
            invariant
                n == self.commits@.len(),
                i <= n,
                forall|a: int, b: int| 0 <= a < i && a < b < n ==> self.commits@[a].id@ != self.commits@[b].id@,
            decreases n - i,
        {
            let mut j: usize = i + 1;
            while j < n
                invariant
                    n == self.commits@.len(),
                    i < j <= n,
                    i < n,
                    forall|b: int| i < b < j ==> self.commits@[i as int].id@ != self.commits@[b].id@,
                decreases n - j,
            {
                if self.commits[i].id == self.commits[j].id {
                    assert(!ids_unique(self.commits@));
                    return false;
                }
                j += 1;
            }
            i += 1;
        }
        proof {
            assert forall|a: int, b: int|
                0 <= a < self.commits@.len() && 0 <= b < self.commits@.len()
                    && self.commits@[a].id@ == self.commits@[b].id@ implies a == b by {
                if a < b {
                    assert(self.commits@[a].id@ != self.commits@[b].id@);
                } else if b < a {
                    assert(self.commits@[b].id@ != self.commits@[a].id@);
                }
            }
            assert(ids_unique(self.commits@));
        }
        let mut i: usize = 0;
        while i < n
            invariant
                n == self.commits@.len(),
                i <= n,
                ids_unique(self.commits@),
                forall|a: int|
                    #![trigger self.commits@[a].parent]
                    0 <= a < i && self.commits@[a].parent is Some
                        && has_commit(self.commits@, self.commits@[a].parent.unwrap()@)
                        ==> a < idx_of(self.commits@, self.commits@[a].parent.unwrap()@),
            decreases n - i,
        {
            match &self.commits[i].parent {
                Option::None => {},
                Option::Some(p) => {
                    match find_commit_index(&self.commits, p) {
                        Option::None => {},
                        Option::Some(j) => {
                            proof {
                                lemma_idx_of(self.commits@, p@);
                                assert(j as int == idx_of(self.commits@, p@));
                            }
                            if j <= i {
                                return false;
                            }
                        },
                    }
                },
            }
            i += 1;
        }
        true
    }

    /// Resolves a revision specifier against the graph's refs and commit
    /// identifiers, exactly as `resolved` describes.
    pub fn resolve(&self, rev: &String) -> (r: Option<String>)
        ensures
            r is Some <==> self.resolved(rev@) is Some,
            (r matches Some(t) ==> self.resolved(rev@) == Option::Some(t@)),
    {
        proof {
            assert(self.refs@.skip(0) =~= self.refs@);
        }
        let mut i: usize = 0;
        while i < self.refs.len()
            invariant
                i <= self.refs@.len(),
                lookup_ref(self.refs@, rev@) == lookup_ref(self.refs@.skip(i as int), rev@),
            decreases self.refs@.len() - i,
        {
            proof {
                assert(self.refs@.skip(i as int).len() > 0);
                assert(self.refs@.skip(i as int)[0] == self.refs@[i as int]);
            }
            if self.refs[i].name == *rev {
                return Some(self.refs[i].target.clone());
            }
            proof {
                assert(self.refs@.skip(i as int).drop_first() =~= self.refs@.skip(i as int + 1));
            }
            i += 1;
        }
        proof {
            assert(self.refs@.skip(self.refs@.len() as int).len() == 0);
        }
        if find_commit_index(&self.commits, rev).is_some() {
            Some(rev.clone())
        } else {
            None
        }
    }
}

/// An immutable set of commit identifiers, produced once per run from a
/// (good, bad) pair of revision specifiers.
pub struct CommitRange {
    ids: Vec<String>,
}

impl View for CommitRange {
    type V = Set<Seq<char>>;

    closed spec fn view(&self) -> Set<Seq<char>> {
        views_of(self.ids@).to_set()
    }
}

impl CommitRange {
    /// Builds a range holding exactly the given identifiers.
    pub fn from_ids(ids: Vec<String>) -> (r: CommitRange)
        ensures
            r@ == views_of(ids@).to_set(),
    {
        CommitRange { ids }
    }

    /// Membership in the range.
    pub fn contains(&self, id: &String) -> (b: bool)
        ensures
            b == self@.contains(id@),
    {
        contains_id(&self.ids, id)
    }
}

/// Resolves the two revision specifiers and walks the first-parent range
/// between them: every commit reached from `bad` (inclusive) before hitting
/// `good` or one of its ancestors. A `good` that is no first-parent
/// ancestor of `bad` yields an empty or partial range, which is not an
/// error; an unresolvable specifier is, and the error names it.
pub fn compute_range(graph: &CommitGraph, good: &String, bad: &String) -> (r: Result<
    CommitRange,
    BisectError,
>)
    requires
        graph.wf(),
    ensures
        r is Ok <==> (graph.resolved(good@) is Some && graph.resolved(bad@) is Some),
        (graph.resolved(good@) is None ==> (r matches Err(BisectError::Resolution(s))
            && s@ == good@)),
        (graph.resolved(good@) is Some && graph.resolved(bad@) is None ==> (r matches Err(
            BisectError::Resolution(s),
        ) && s@ == bad@)),
        (r matches Ok(range) ==> range@ == range_ids(
            graph.commits@,
            graph.resolved(good@).unwrap(),
            graph.resolved(bad@).unwrap(),
        )),
{
    let ghost cs = graph.commits@;
    let good_id = match graph.resolve(good) {
        Some(g) => g,
        None => {
            return Err(BisectError::Resolution(good.clone()));
        },
    };
    let bad_id = match graph.resolve(bad) {
        Some(b) => b,
        None => {
            return Err(BisectError::Resolution(bad.clone()));
        },
    };
    let ghost g_id = good_id@;
    let ghost b_id = bad_id@;
    let empty: Vec<String> = Vec::new();
    proof {
        assert(views_of(empty@).to_set() =~= Set::<Seq<char>>::empty());
    }
    let mut stop: Vec<String> = match find_commit_index(&graph.commits, &good_id) {
        Some(j) => {
            proof {
                lemma_idx_of(cs, g_id);
                assert(j as int == idx_of(cs, g_id));
            }
            let w = collect_from(&graph.commits, j, &empty);
            proof {
                assert(views_of(w@) == chain_of(cs, g_id));
            }
            w
        },
        None => {
            let w: Vec<String> = Vec::new();
            proof {
                assert(views_of(w@) =~= chain_of(cs, g_id));
            }
            w
        },
    };
    let ghost chain_good = views_of(stop@);
    stop.push(good_id);
    proof {
        assert(views_of(stop@) =~= chain_good.push(g_id));
        assert forall|x: Seq<char>| #[trigger] views_of(stop@).to_set().contains(x) implies
            stop_set(cs, g_id).contains(x) by {
            let k = choose|k: int| 0 <= k < views_of(stop@).len() && views_of(stop@)[k] == x;
            if k < chain_good.len() {
                assert(chain_good.contains(x));
            } else {
                assert(x == g_id);
            }
        }
        assert forall|x: Seq<char>| #[trigger] stop_set(cs, g_id).contains(x) implies
            views_of(stop@).to_set().contains(x) by {
            if chain_good.contains(x) {
                let k = choose|k: int| 0 <= k < chain_good.len() && chain_good[k] == x;
                assert(views_of(stop@)[k] == x);
            } else {
                assert(x == g_id);
                assert(views_of(stop@)[chain_good.len() as int] == x);
            }
            assert(views_of(stop@).contains(x));
        }
        assert(views_of(stop@).to_set() =~= stop_set(cs, g_id));
    }
    let ids = match find_commit_index(&graph.commits, &bad_id) {
        Some(j) => {
            proof {
                lemma_idx_of(cs, b_id);
                assert(j as int == idx_of(cs, b_id));
            }
            let w = collect_from(&graph.commits, j, &stop);
            proof {
                assert(views_of(w@) == walk_from(cs, idx_of(cs, b_id), stop_set(cs, g_id)));
            }
            w
        },
        None => Vec::new(),
    };
    let r = CommitRange { ids };
    proof {
        assert(r@ =~= range_ids(cs, g_id, b_id));
    }
    Ok(r)
}

/// Every identifier a walk visits names a commit of the graph and sits at
/// index `i` or deeper; the head is the starting commit; and commit indices
/// strictly increase along the walk.
proof fn lemma_walk_indices(cs: Seq<Commit>, i: int, stop: Set<Seq<char>>)
    requires
        graph_wf(cs),
        0 <= i < cs.len(),
    ensures
        forall|j: int|
            0 <= j < walk_from(cs, i, stop).len() ==> has_commit(
                cs,
                #[trigger] walk_from(cs, i, stop)[j],
            ) && i <= idx_of(cs, walk_from(cs, i, stop)[j]),
        walk_from(cs, i, stop).len() > 0 ==> walk_from(cs, i, stop)[0] == cs[i].id@,
        forall|j1: int, j2: int|
            0 <= j1 < j2 < walk_from(cs, i, stop).len() ==> idx_of(
                cs,
                #[trigger] walk_from(cs, i, stop)[j1],
            ) < idx_of(cs, #[trigger] walk_from(cs, i, stop)[j2]),
    decreases cs.len() - i,
{
    let w = walk_from(cs, i, stop);
    if stop.contains(cs[i].id@) {
    } else {
        lemma_idx_of_self(cs, i);
        match cs[i].parent {
            Option::None => {},
            Option::Some(p) => {
                if has_commit(cs, p@) && i < idx_of(cs, p@) < cs.len() {
                    let ip = idx_of(cs, p@);
                    lemma_walk_indices(cs, ip, stop);
                    let t = walk_from(cs, ip, stop);
                    assert(w == seq![cs[i].id@] + t);
                    assert forall|j: int| 0 <= j < w.len() implies has_commit(cs, w[j]) && i
                        <= idx_of(cs, w[j]) by {
                        if j == 0 {
                            assert(w[j] == cs[i].id@);
                        } else {
                            assert(w[j] == t[j - 1]);
                        }
                    }
                    assert forall|j1: int, j2: int| 0 <= j1 < j2 < w.len() implies idx_of(
                        cs,
                        w[j1],
                    ) < idx_of(cs, w[j2]) by {
                        assert(w[j2] == t[j2 - 1]);
                        if j1 == 0 {
                            assert(w[j1] == cs[i].id@);
                            assert(ip <= idx_of(cs, t[j2 - 1]));
                        } else {
                            assert(w[j1] == t[j1 - 1]);
                        }
                    }
                }
            },
        }
    }
}

/// The index of the first element of `s` that lies in `stop`, or `s.len()`
/// when none does.
spec fn first_stop(s: Seq<Seq<char>>, stop: Set<Seq<char>>) -> int
    decreases s.len(),
{
    if s.len() == 0 {
        0
    } else if stop.contains(s[0]) {
        0
    } else {
        1 + first_stop(s.drop_first(), stop)
    }
}

proof fn lemma_first_stop_bounds(s: Seq<Seq<char>>, stop: Set<Seq<char>>)
    ensures
        0 <= first_stop(s, stop) <= s.len(),
        forall|j: int| 0 <= j < first_stop(s, stop) ==> !stop.contains(#[trigger] s[j]),
        first_stop(s, stop) < s.len() ==> stop.contains(s[first_stop(s, stop)]),
    decreases s.len(),
{
    if s.len() == 0 {
    } else if stop.contains(s[0]) {
    } else {
        lemma_first_stop_bounds(s.drop_first(), stop);
        assert forall|j: int| 0 <= j < first_stop(s, stop) implies !stop.contains(s[j]) by {
            if j > 0 {
                assert(s[j] == s.drop_first()[j - 1]);
            }
        }
        if first_stop(s, stop) < s.len() {
            assert(s[first_stop(s, stop)] == s.drop_first()[first_stop(s.drop_first(), stop)]);
        }
    }
}

/// A stopped walk is the unstopped walk cut off at its first element that
/// lies in the stop set.
proof fn lemma_walk_stop_take(cs: Seq<Commit>, i: int, stop: Set<Seq<char>>)
    requires
        graph_wf(cs),
        0 <= i < cs.len(),
    ensures
        walk_from(cs, i, stop) == walk_from(cs, i, Set::empty()).take(
            first_stop(walk_from(cs, i, Set::empty()), stop),
        ),
    decreases cs.len() - i,
{
    let full = walk_from(cs, i, Set::empty());
    let fs = first_stop(full, stop);
    lemma_first_stop_bounds(full, stop);
    assert(!Set::<Seq<char>>::empty().contains(cs[i].id@));
    if stop.contains(cs[i].id@) {
        assert(full[0] == cs[i].id@);
        assert(fs == 0);
        assert(walk_from(cs, i, stop) =~= full.take(0));
    } else {
        match cs[i].parent {
            Option::None => {
                assert(full =~= seq![cs[i].id@]);
                assert(full.drop_first() =~= Seq::<Seq<char>>::empty());
                assert(fs == 1);
                assert(walk_from(cs, i, stop) =~= full.take(1));
            },
            Option::Some(p) => {
                if has_commit(cs, p@) && i < idx_of(cs, p@) < cs.len() {
                    let ip = idx_of(cs, p@);
                    lemma_walk_stop_take(cs, ip, stop);
                    let tfull = walk_from(cs, ip, Set::empty());
                    let tstop = walk_from(cs, ip, stop);
                    let tfs = first_stop(tfull, stop);
                    assert(full == seq![cs[i].id@] + tfull);
                    assert(full[0] == cs[i].id@);
                    assert(full.drop_first() =~= tfull);
                    assert(fs == 1 + tfs);
                    lemma_first_stop_bounds(tfull, stop);
                    assert(walk_from(cs, i, stop) == seq![cs[i].id@] + tstop);
                    assert(seq![cs[i].id@] + tfull.take(tfs) =~= full.take(1 + tfs));
                } else {
                    assert(full =~= seq![cs[i].id@]);
                    assert(full.drop_first() =~= Seq::<Seq<char>>::empty());
                    assert(fs == 1);
                    assert(walk_from(cs, i, stop) =~= full.take(1));
                }
            },
        }
    }
}

/// When `good` is a first-parent ancestor of `bad` - it occurs on the
/// first-parent chain of `bad` - the range between them holds exactly the
/// chain's commits strictly after `good` up to and including `bad`, and
/// never holds `good` itself.
pub proof fn lemma_first_parent_range(cs: Seq<Commit>, good: Seq<char>, bad: Seq<char>)
    requires
        graph_wf(cs),
        has_commit(cs, bad),
        chain_of(cs, bad).contains(good),
    ensures
        ({
            let chain = chain_of(cs, bad);
            let k = choose|k: int| 0 <= k < chain.len() && chain[k] == good;
            range_ids(cs, good, bad) == chain.take(k).to_set()
        }),
        !range_ids(cs, good, bad).contains(good),
{
    let chain = chain_of(cs, bad);
    let ib = idx_of(cs, bad);
    lemma_idx_of(cs, bad);
    lemma_walk_indices(cs, ib, Set::empty());
    let k = choose|k: int| 0 <= k < chain.len() && chain[k] == good;
    assert(0 <= k < chain.len() && chain[k] == good);
    assert(has_commit(cs, good));
    let ig = idx_of(cs, good);
    lemma_idx_of(cs, good);
    let stop = stop_set(cs, good);
    let gchain = chain_of(cs, good);
    lemma_walk_indices(cs, ig, Set::empty());
    assert forall|j: int| 0 <= j < k implies idx_of(cs, #[trigger] chain[j]) < ig by {
        assert(idx_of(cs, chain[j]) < idx_of(cs, chain[k]));
    }
    assert forall|j: int| 0 <= j < k implies !stop.contains(#[trigger] chain[j]) by {
        if gchain.to_set().contains(chain[j]) {
            let m = choose|m: int| 0 <= m < gchain.len() && gchain[m] == chain[j];
            assert(ig <= idx_of(cs, gchain[m]));
            assert(false);
        }
        if chain[j] == good {
            assert(false);
        }
    }
    assert(stop.contains(good));
    lemma_first_stop_bounds(chain, stop);
    let fs = first_stop(chain, stop);
    if fs < k {
        assert(stop.contains(chain[fs]));
        assert(false);
    }
    if fs > k {
        assert(!stop.contains(chain[k]));
        assert(false);
    }
    lemma_walk_stop_take(cs, ib, stop);
    assert(range_ids(cs, good, bad) == chain.take(k).to_set());
    if range_ids(cs, good, bad).contains(good) {
        assert(chain.take(k).contains(good));
        let j = choose|j: int| 0 <= j < chain.take(k).len() && chain.take(k)[j] == good;
        assert(chain[j] == good);
        assert(idx_of(cs, chain[j]) < ig);
        assert(false);
    }
}

} // verus!
