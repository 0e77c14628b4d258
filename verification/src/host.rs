use vstd::prelude::*;

use crate::decimal::dec_str;
use crate::decimal::u64_to_string;
use crate::errors::BisectError;

verus! {

/// Whether the URL text is a parseable git URL.
pub uninterp spec fn url_parses(s: Seq<char>) -> bool;

/// The host component the URL text parses to, if any.
pub uninterp spec fn url_host_of(s: Seq<char>) -> Option<Seq<char>>;

/// The (owner, repository name) pair the URL text parses to, if any.
pub uninterp spec fn url_provider_of(s: Seq<char>) -> Option<(Seq<char>, Seq<char>)>;

/// The characters an RFC 3986 scheme may hold: ASCII letters and digits,
/// `+`, `-` and `.`.
pub open spec fn scheme_char(c: char) -> bool {
    ||| 97 <= c as u32 <= 122
    ||| 65 <= c as u32 <= 90
    ||| 48 <= c as u32 <= 57
    ||| c == '+'
    ||| c == '-'
    ||| c == '.'
}

/// The end of the maximal scheme-character run of `s` that starts at `i`.
pub open spec fn scheme_end(s: Seq<char>, i: int) -> int
    decreases s.len() - i,
{
    if i < 0 || i >= s.len() || !scheme_char(s[i]) {
        i
    } else {
        scheme_end(s, i + 1)
    }
}

/// Whether `s` opens with a scheme: a letter-led run of scheme characters
/// followed immediately by `://`.
pub open spec fn has_url_scheme(s: Seq<char>) -> bool {
    let e = scheme_end(s, 0);
    &&& 1 <= e
    &&& (97 <= s[0] as u32 <= 122 || 65 <= s[0] as u32 <= 90)
    &&& e + 3 <= s.len()
    &&& s[e] == ':'
    &&& s[e + 1] == '/'
    &&& s[e + 2] == '/'
}

/// Whether the scheme run of `s` holds the letters `ssh` anywhere.
pub open spec fn scheme_mentions_ssh(s: Seq<char>) -> bool {
    exists|i: int|
        0 <= i && i + 3 <= scheme_end(s, 0) && (#[trigger] s[i]) == 's' && s[i + 1] == 's' && s[i
            + 2] == 'h'
}

/// The first position at or after `i` where `s` holds `c`; `s.len()` when
/// none does.
pub open spec fn first_from(s: Seq<char>, i: int, c: char) -> int
    decreases s.len() - i,
{
    if i < 0 || i >= s.len() {
        s.len() as int
    } else if s[i] == c {
        i
    } else {
        first_from(s, i + 1, c)
    }
}

/// The characters admitted after `scheme://` of an ssh-scheme URL: the
/// ASCII path characters (RFC 3986 pchar, without percent-encoding and
/// without the backslash) and the path separator.
pub open spec fn ssh_rest_char(c: char) -> bool {
    ||| 97 <= c as u32 <= 122
    ||| 65 <= c as u32 <= 90
    ||| 48 <= c as u32 <= 57
    ||| c == '-'
    ||| c == '.'
    ||| c == '_'
    ||| c == '~'
    ||| c == '!'
    ||| c == '$'
    ||| c == '&'
    ||| c == '\''
    ||| c == '('
    ||| c == ')'
    ||| c == '*'
    ||| c == '+'
    ||| c == ','
    ||| c == ';'
    ||| c == '='
    ||| c == ':'
    ||| c == '@'
    ||| c == '/'
}

/// When a user-info part stands before the first slash (`user:token@`),
/// both of its `:`-separated sides must be nonempty; otherwise the parser
/// gives up on the whole remainder instead of returning an error.
pub open spec fn ssh_userinfo_ok(s: Seq<char>) -> bool {
    let b = scheme_end(s, 0) + 3;
    let at = first_from(s, b, '@');
    let slash = first_from(s, b, '/');
    let colon = first_from(s, b, ':');
    at < slash ==> (colon < at ==> (b < colon && colon + 1 < at && s[colon + 1] != ':'))
}

/// The remainder after `scheme://` of an ssh-scheme URL that the outside
/// parser handles: ASCII path characters only, at least one path
/// separator, and a well-formed user-info part if any.
pub open spec fn ssh_rest_ok(s: Seq<char>) -> bool {
    let b = scheme_end(s, 0) + 3;
    &&& forall|i: int| b <= i < s.len() ==> ssh_rest_char(#[trigger] s[i])
    &&& first_from(s, b, '/') < s.len()
    &&& ssh_userinfo_ok(s)
}

/// The URL texts on which the outside parser returns. Behind an
/// ssh-containing scheme, `GitUrl::parse` slices the parsed path from its
/// second byte, so it does not return when that path comes back empty
/// (no separator after the authority, or a remainder its grammar rejects
/// outright) or starts with a multi-byte character; `ssh_rest_ok` keeps
/// all such texts out. Texts without an ssh scheme never reach that slice.
pub open spec fn url_parse_safe(s: Seq<char>) -> bool {
    (has_url_scheme(s) && scheme_mentions_ssh(s)) ==> ssh_rest_ok(s)
}

/// Decides `scheme_char`.
fn is_scheme_char(c: char) -> (b: bool)
    ensures
        b == scheme_char(c),
{
    let v = c as u32;
    (97 <= v && v <= 122) || (65 <= v && v <= 90) || (48 <= v && v <= 57) || c == '+' || c == '-'
        || c == '.'
}

/// Decides `ssh_rest_char`.
fn is_ssh_rest_char(c: char) -> (b: bool)
    ensures
        b == ssh_rest_char(c),
{
    let v = c as u32;
    (97 <= v && v <= 122) || (65 <= v && v <= 90) || (48 <= v && v <= 57) || c == '-' || c == '.'
        || c == '_' || c == '~' || c == '!' || c == '$' || c == '&' || c == '\'' || c == '('
        || c == ')' || c == '*' || c == '+' || c == ',' || c == ';' || c == '=' || c == ':'
        || c == '@' || c == '/'
}

/// Decides `url_parse_safe`, so that URL parsing can reject the texts the
/// outside parser does not handle instead of handing them to it.
fn check_url_parse_safe(s: &str) -> (b: bool)
    ensures
        b == url_parse_safe(s@),
{
    let n = s.unicode_len();
    let mut e: usize = 0;
    loop
        invariant
            n as nat == s@.len(),
            e <= n,
            scheme_end(s@, 0) == scheme_end(s@, e as int),
        ensures
            e <= n,
            e as int == scheme_end(s@, 0),
        decreases n - e,
    {
        if e >= n {
            break;
        }
        let c = s.get_char(e);
        if !is_scheme_char(c) {
            break;
        }
        e += 1;
    }
    if e < 1 || n < 3 || e > n - 3 {
        proof {
            assert(!has_url_scheme(s@));
        }
        return true;
    }
    let c0 = s.get_char(0);
    let v0 = c0 as u32;
    let alpha0 = (97 <= v0 && v0 <= 122) || (65 <= v0 && v0 <= 90);
    let sep_ok = s.get_char(e) == ':' && s.get_char(e + 1) == '/' && s.get_char(e + 2) == '/';
    if !(alpha0 && sep_ok) {
        proof {
            assert(!has_url_scheme(s@));
        }
        return true;
    }
    proof {
        assert(has_url_scheme(s@));
    }
    if e < 3 {
        proof {
            assert(!scheme_mentions_ssh(s@));
        }
        return true;
    }
    let mut mentions = false;
    let mut i: usize = 0;
    loop
        invariant_except_break
            !mentions,
        invariant
            n as nat == s@.len(),
            3 <= e <= n,
            e as int == scheme_end(s@, 0),
            i <= e,
            forall|k: int|
                0 <= k < i ==> !((#[trigger] s@[k]) == 's' && s@[k + 1] == 's' && s@[k + 2] == 'h'),
        ensures
            mentions == scheme_mentions_ssh(s@),
        decreases e - i,
    {
        if i > e - 3 {
            proof {
                assert forall|k: int|
                    0 <= k && k + 3 <= scheme_end(s@, 0) implies !((#[trigger] s@[k]) == 's'
                    && s@[k + 1] == 's' && s@[k + 2] == 'h') by {
                    assert(k < i);
                }
                assert(!scheme_mentions_ssh(s@));
            }
            break;
        }
        if s.get_char(i) == 's' && s.get_char(i + 1) == 's' && s.get_char(i + 2) == 'h' {
            mentions = true;
            proof {
                assert(0 <= i as int && i as int + 3 <= scheme_end(s@, 0) && s@[i as int] == 's'
                    && s@[i as int + 1] == 's' && s@[i as int + 2] == 'h');
                assert(scheme_mentions_ssh(s@));
            }
            break;
        }
        i += 1;
    }
    if !mentions {
        return true;
    }
    let b = e + 3;
    let mut slash: usize = n;
    let mut at_pos: usize = n;
    let mut colon: usize = n;
    let mut j: usize = b;
    while j < n
        invariant
            n as nat == s@.len(),
            e as int == scheme_end(s@, 0),
            has_url_scheme(s@),
            scheme_mentions_ssh(s@),
            b == e + 3,
            b <= j <= n,
            forall|k: int| b <= k < j ==> ssh_rest_char(#[trigger] s@[k]),
            slash <= n && at_pos <= n && colon <= n,
            slash == n ==> first_from(s@, b as int, '/') == first_from(s@, j as int, '/'),
            slash < n ==> slash as int == first_from(s@, b as int, '/'),
            at_pos == n ==> first_from(s@, b as int, '@') == first_from(s@, j as int, '@'),
            at_pos < n ==> at_pos as int == first_from(s@, b as int, '@'),
            colon == n ==> first_from(s@, b as int, ':') == first_from(s@, j as int, ':'),
            colon < n ==> colon as int == first_from(s@, b as int, ':'),
        decreases n - j,
    {
        let c = s.get_char(j);
        if !is_ssh_rest_char(c) {
            proof {
                assert(!ssh_rest_ok(s@));
            }
            return false;
        }
        if slash == n && c == '/' {
            slash = j;
        }
        if at_pos == n && c == '@' {
            at_pos = j;
        }
        if colon == n && c == ':' {
            colon = j;
        }
        j += 1;
    }
    proof {
        assert(first_from(s@, n as int, '/') == s@.len());
        assert(first_from(s@, n as int, '@') == s@.len());
        assert(first_from(s@, n as int, ':') == s@.len());
    }
    if slash >= n {
        proof {
            assert(!ssh_rest_ok(s@));
        }
        return false;
    }
    let userinfo_ok = if at_pos < slash {
        if colon < at_pos {
            e + 3 < colon && colon + 1 < at_pos && s.get_char(colon + 1) != ':'
        } else {
            true
        }
    } else {
        true
    };
    proof {
        assert(userinfo_ok == ssh_userinfo_ok(s@));
    }
    userinfo_ok
}

/// The parsed components of a repository URL, as plain values.
struct UrlParts {
    host: Option<String>,
    owner: Option<String>,
    repo: Option<String>,
}

/// Relies on git_url_parse::GitUrl::parse and on GitUrl::provider_info
/// with git_url_parse::types::provider::GenericProvider: whether a URL
/// parses, its host, and its owner/repository pair are functions of the
/// URL text alone. GitUrl::parse slices the parsed path from its second
/// byte whenever the scheme holds `ssh`, and so does not return on an
/// ssh-scheme text whose path comes back empty or opens with a multi-byte
/// character; the `requires` keeps every such text out (see
/// `url_parse_safe`), and callers must test it first.
#[verifier::external_body]
fn parse_url_parts(s: &str) -> (r: Option<UrlParts>)
    requires
        url_parse_safe(s@),
    ensures
        r is Some <==> url_parses(s@),
        (r matches Some(p) ==> {
            &&& (match p.host {
                Option::Some(h) => url_host_of(s@) == Option::Some(h@),
                Option::None => url_host_of(s@) is None,
            })
            &&& (match (p.owner, p.repo) {
                (Option::Some(o), Option::Some(q)) => url_provider_of(s@) == Option::Some(
                    (o@, q@),
                ),
                (Option::None, Option::None) => url_provider_of(s@) is None,
                _ => false,
            })
        }),
{
    let url = match git_url_parse::GitUrl::parse(s) {
        Ok(u) => u,
        Err(_) => {
            return None;
        },
    };
    let host = url.host().map(|h| h.to_string());
    let provider = url.provider_info::<git_url_parse::types::provider::GenericProvider>();
    let (owner, repo) = match provider {
        Ok(p) => (Some(p.owner().clone()), Some(p.repo().clone())),
        Err(_) => (None, None),
    };
    Some(UrlParts { host, owner, repo })
}

/// A repository URL: the raw text plus the host, owner and repository name
/// it parses to, held as plain values.
pub struct GitRepositoryUrl {
    pub url_string: String,
    pub host: Option<String>,
    pub owner: Option<String>,
    pub repo: Option<String>,
}

impl GitRepositoryUrl {
    /// The parsed fields agree with what parsing the raw text yields.
    pub open spec fn wf(&self) -> bool {
        &&& url_parses(self.url_string@)
        &&& (match self.host {
            Option::Some(h) => url_host_of(self.url_string@) == Option::Some(h@),
            Option::None => url_host_of(self.url_string@) is None,
        })
        &&& (match (self.owner, self.repo) {
            (Option::Some(o), Option::Some(q)) => url_provider_of(self.url_string@)
                == Option::Some((o@, q@)),
            (Option::None, Option::None) => url_provider_of(self.url_string@) is None,
            _ => false,
        })
    }

    /// Parses a repository URL. Fails exactly when the text is an
    /// ssh-scheme form the parser does not handle, or no parseable git
    /// URL at all; the failure carries the text.
    pub fn parse(s: &String) -> (r: Result<GitRepositoryUrl, BisectError>)
        ensures
            r is Ok <==> (url_parse_safe(s@) && url_parses(s@)),
            (r matches Ok(u) ==> u.wf() && u.url_string@ == s@),
            (r matches Err(e) ==> (e matches BisectError::InvalidUrl(t) && t@ == s@)),
    {
        if !check_url_parse_safe(s.as_str()) {
            return Err(BisectError::InvalidUrl(s.clone()));
        }
        match parse_url_parts(s.as_str()) {
            Some(p) => Ok(
                GitRepositoryUrl {
                    url_string: s.clone(),
                    host: p.host,
                    owner: p.owner,
                    repo: p.repo,
                },
            ),
            None => Err(BisectError::InvalidUrl(s.clone())),
        }
    }
}

impl Clone for GitRepositoryUrl {
    /// Clones the URL, preserving every field.
    fn clone(&self) -> (r: Self)
        ensures
            r == *self,
    {
        GitRepositoryUrl {
            url_string: self.url_string.clone(),
            host: clone_opt(&self.host),
            owner: clone_opt(&self.owner),
            repo: clone_opt(&self.repo),
        }
    }
}

/// Clones an optional string, preserving the value.
fn clone_opt(o: &Option<String>) -> (r: Option<String>)
    ensures
        r == *o,
{
    match o {
        Option::Some(s) => Option::Some(s.clone()),
        Option::None => Option::None,
    }
}

/// The hosting providers this build can fetch pull requests from.
pub enum SupportedHost {
    Github,
}

impl SupportedHost {
    /// Selects the provider responsible for the URL's host: `github.com`
    /// is the one supported host; any other host is unsupported, and a URL
    /// without a detectable host cannot select a provider at all.
    pub fn try_from_url(url: &GitRepositoryUrl) -> (r: Result<SupportedHost, BisectError>)
        ensures
            (match url.host {
                Option::Some(h) => {
                    if h@ == "github.com"@ {
                        r matches Ok(v) && v is Github
                    } else {
                        r matches Err(BisectError::UnsupportedHost(x)) && x@ == h@
                    }
                },
                Option::None => r matches Err(BisectError::UnknownHost(u)) && u@
                    == url.url_string@,
            }),
    {
        match &url.host {
            Option::Some(h) => {
                let gh: String = "github.com".to_owned();
                if *h == gh {
                    Ok(SupportedHost::Github)
                } else {
                    Err(BisectError::UnsupportedHost(h.clone()))
                }
            },
            Option::None => Err(BisectError::UnknownHost(url.url_string.clone())),
        }
    }
}

/// A merged pull request: provider-assigned identifier, optional title,
/// and the base and merge commit identifiers. A record becomes one of
/// these only once both commit identifiers are present.
pub struct GitPullRequest {
    pub identifier: String,
    pub title: Option<String>,
    pub base_sha: String,
    pub merge_sha: String,
}

impl Clone for GitPullRequest {
    /// Clones the pull request, preserving every field.
    fn clone(&self) -> (r: Self)
        ensures
            r == *self,
    {
        GitPullRequest {
            identifier: self.identifier.clone(),
            title: clone_opt(&self.title),
            base_sha: self.base_sha.clone(),
            merge_sha: self.merge_sha.clone(),
        }
    }
}

/// A repository URL that has been checked to point at the supported
/// GitHub host.
pub struct GithubRepository(pub GitRepositoryUrl);

impl GithubRepository {
    /// Accepts exactly the URLs whose host is `github.com`; any other
    /// host, or a URL without one, is rejected.
    pub fn new(repository: GitRepositoryUrl) -> (r: Result<GithubRepository, BisectError>)
        ensures
            (match repository.host {
                Option::Some(h) => {
                    if h@ == "github.com"@ {
                        r matches Ok(g) && g.0 == repository
                    } else {
                        r matches Err(BisectError::UnsupportedHost(x)) && x@ == h@
                    }
                },
                Option::None => r matches Err(BisectError::UnknownHost(u)) && u@
                    == repository.url_string@,
            }),
    {
        let host = clone_opt(&repository.host);
        match host {
            Option::Some(h) => {
                let gh: String = "github.com".to_owned();
                if h == gh {
                    Ok(GithubRepository(repository))
                } else {
                    Err(BisectError::UnsupportedHost(h))
                }
            },
            Option::None => Err(BisectError::UnknownHost(repository.url_string.clone())),
        }
    }

    /// The repository owner parsed from the URL, or a failure carrying the
    /// URL text when none could be parsed.
    pub fn owner(&self) -> (r: Result<String, BisectError>)
        ensures
            (match self.0.owner {
                Option::Some(o) => r matches Ok(s) && s == o,
                Option::None => r matches Err(BisectError::InvalidUrl(t)) && t@
                    == self.0.url_string@,
            }),
    {
        match &self.0.owner {
            Option::Some(o) => Ok(o.clone()),
            Option::None => Err(BisectError::InvalidUrl(self.0.url_string.clone())),
        }
    }

    /// The repository name parsed from the URL, or a failure carrying the
    /// URL text when none could be parsed.
    pub fn name(&self) -> (r: Result<String, BisectError>)
        ensures
            (match self.0.repo {
                Option::Some(q) => r matches Ok(s) && s == q,
                Option::None => r matches Err(BisectError::InvalidUrl(t)) && t@
                    == self.0.url_string@,
            }),
    {
        match &self.0.repo {
            Option::Some(q) => Ok(q.clone()),
            Option::None => Err(BisectError::InvalidUrl(self.0.url_string.clone())),
        }
    }
}

/// One raw candidate record, as a provider page reports it: the numeric
/// identifier, the title, whether the record was actually merged (rather
/// than closed without merging), and the commit identifiers the provider
/// retained.
pub struct PullRequestRecord {
    pub number: u64,
    pub title: Option<String>,
    pub merged: bool,
    pub base_sha: String,
    pub merge_sha: Option<String>,
}

impl Clone for PullRequestRecord {
    /// Clones the record, preserving every field.
    fn clone(&self) -> (r: Self)
        ensures
            r == *self,
    {
        PullRequestRecord {
            number: self.number,
            title: clone_opt(&self.title),
            merged: self.merged,
            base_sha: self.base_sha.clone(),
            merge_sha: clone_opt(&self.merge_sha),
        }
    }
}

/// The merged records of `rs`, in input order.
pub open spec fn merged_only(rs: Seq<PullRequestRecord>) -> Seq<PullRequestRecord>
    decreases rs.len(),
{
    if rs.len() == 0 {
        seq![]
    } else {
        let rest = merged_only(rs.drop_last());
        if rs.last().merged {
            rest.push(rs.last())
        } else {
            rest
        }
    }
}

/// Every merged record retains a merge commit identifier.
pub open spec fn all_merged_have_sha(rs: Seq<PullRequestRecord>) -> bool {
    forall|i: int| 0 <= i < rs.len() && (#[trigger] rs[i]).merged ==> rs[i].merge_sha is Some
}

/// The pull request a merged record denotes: the number rendered in
/// decimal, the title and base kept, and the retained merge identifier.
pub open spec fn record_matches_pr(r: PullRequestRecord, pr: GitPullRequest) -> bool {
    &&& pr.identifier@ == dec_str(r.number as nat)
    &&& pr.title == r.title
    &&& pr.base_sha == r.base_sha
    &&& r.merge_sha == Option::Some(pr.merge_sha)
}

/// The views of provider pages.
pub open spec fn page_views(pages: Seq<Vec<PullRequestRecord>>) -> Seq<Seq<PullRequestRecord>> {
    pages.map_values(|p: Vec<PullRequestRecord>| p@)
}

/// All pages concatenated in order.
pub open spec fn flat_pages(pages: Seq<Seq<PullRequestRecord>>) -> Seq<PullRequestRecord>
    decreases pages.len(),
{
    if pages.len() == 0 {
        seq![]
    } else {
        flat_pages(pages.drop_last()) + pages.last()
    }
}

/// Concatenates provider pages in order: following pagination to the last
/// page loses no record and reorders none.
pub fn collect_pages(pages: &Vec<Vec<PullRequestRecord>>) -> (all: Vec<PullRequestRecord>)
    ensures
        all@ == flat_pages(page_views(pages@)),
{
    let mut all: Vec<PullRequestRecord> = Vec::new();
    let mut i: usize = 0;
    proof {
        assert(page_views(pages@).take(0) =~= Seq::<Seq<PullRequestRecord>>::empty());
    }
    while i < pages.len()
        invariant
            i <= pages@.len(),
            all@ == flat_pages(page_views(pages@).take(i as int)),
        decreases pages@.len() - i,
    {
        let ghost prev = all@;
        let page = &pages[i];
        let mut j: usize = 0;
        while j < page.len()
            invariant
                j <= page@.len(),
                page == &pages[i as int],
                i < pages@.len(),
                all@ == prev + page@.take(j as int),
            decreases page@.len() - j,
        {
            all.push(page[j].clone());
            proof {
                assert(page@.take(j as int + 1) =~= page@.take(j as int).push(page@[j as int]));
                assert(all@ =~= prev + page@.take(j as int + 1));
            }
            j += 1;
        }
        proof {
            assert(page@.take(page@.len() as int) =~= page@);
            assert(page_views(pages@).take(i as int + 1).drop_last() =~= page_views(pages@).take(
                i as int,
            ));
            assert(page_views(pages@).take(i as int + 1).last() == pages@[i as int]@);
            assert(all@ =~= flat_pages(page_views(pages@).take(i as int + 1)));
        }
        i += 1;
    }
    proof {
        assert(page_views(pages@).take(pages@.len() as int) =~= page_views(pages@));
    }
    all
}

/// Normalizes raw provider records into merged pull requests: exactly one
/// pull request per merged record, in input order; records closed without
/// merging are excluded. A merged record that lacks a merge commit
/// identifier fails the entire fetch - no partial list is ever returned.
pub fn merged_pull_requests(records: &Vec<PullRequestRecord>) -> (r: Result<
    Vec<GitPullRequest>,
    BisectError,
>)
    ensures
        r is Ok <==> all_merged_have_sha(records@),
        (r matches Ok(prs) ==> {
            let m = merged_only(records@);
            prs@.len() == m.len() && forall|k: int|
                0 <= k < m.len() ==> record_matches_pr(m[k], #[trigger] prs@[k])
        }),
        (r matches Err(e) ==> (e matches BisectError::Fetch(msg) && msg@
            == "Could not find merge commit sha"@)),
{
    let mut out: Vec<GitPullRequest> = Vec::new();
    let mut i: usize = 0;
    proof {
        assert(records@.take(0) =~= Seq::<PullRequestRecord>::empty());
    }
    while i < records.len()
        invariant
            i <= records@.len(),
            all_merged_have_sha(records@.take(i as int)),
            out@.len() == merged_only(records@.take(i as int)).len(),
            forall|k: int|
                0 <= k < out@.len() ==> record_matches_pr(
                    merged_only(records@.take(i as int))[k],
                    #[trigger] out@[k],
                ),
        decreases records@.len() - i,
    {
        let rec = &records[i];
        if rec.merged {
            match &rec.merge_sha {
                Option::Some(sha) => {
                    let pr = GitPullRequest {
                        identifier: u64_to_string(rec.number),
                        title: clone_opt(&rec.title),
                        base_sha: rec.base_sha.clone(),
                        merge_sha: sha.clone(),
                    };
                    out.push(pr);
                },
                Option::None => {
                    proof {
                        assert(records@[i as int].merged && records@[i as int].merge_sha is None);
                        assert(!all_merged_have_sha(records@));
                    }
                    return Err(BisectError::Fetch("Could not find merge commit sha".to_owned()));
                },
            }
        }
        proof {
            let taken = records@.take(i as int + 1);
            assert(taken.drop_last() =~= records@.take(i as int));
            assert(taken.last() == records@[i as int]);
            assert forall|k: int|
                0 <= k < taken.len() && (#[trigger] taken[k]).merged implies taken[k].merge_sha
                is Some by {
                if k < i as int {
                    assert(taken[k] == records@.take(i as int)[k]);
                }
            }
        }
        i += 1;
    }
    proof {
        assert(records@.take(records@.len() as int) =~= records@);
    }
    Ok(out)
}

/// Fetch normalization over pages: concatenation of all pages followed by
/// normalization of the combined list.
pub fn merged_pull_requests_from_pages(pages: &Vec<Vec<PullRequestRecord>>) -> (r: Result<
    Vec<GitPullRequest>,
    BisectError,
>)
    ensures
        r is Ok <==> all_merged_have_sha(flat_pages(page_views(pages@))),
        (r matches Ok(prs) ==> {
            let m = merged_only(flat_pages(page_views(pages@)));
            prs@.len() == m.len() && forall|k: int|
                0 <= k < m.len() ==> record_matches_pr(m[k], #[trigger] prs@[k])
        }),
        (r matches Err(e) ==> (e matches BisectError::Fetch(msg) && msg@
            == "Could not find merge commit sha"@)),
{
    let all = collect_pages(pages);
    merged_pull_requests(&all)
}

} // verus!
