use vstd::prelude::*;

verus! {

/// Collects the command-line values of a bisect-skip run before the
/// surrounding layer resolves the missing ones (by prompting) and builds
/// the final `SkipPullRequestsConfig`.
pub struct SkipPullRequestsConfigBuilder {
    /// Remote url to fetch pull requests from.
    pub remote_url: Option<String>,
    /// Directory of the repository.
    pub directory: Option<String>,
    /// A known good commit.
    pub good: Option<String>,
    /// A known bad commit.
    pub bad: Option<String>,
    /// Whether to perform a dry run.
    pub dry_run: bool,
}

impl SkipPullRequestsConfigBuilder {
    /// An empty builder: nothing chosen yet, dry run off.
    pub fn new() -> (r: SkipPullRequestsConfigBuilder)
        ensures
            r.remote_url is None,
            r.directory is None,
            r.good is None,
            r.bad is None,
            !r.dry_run,
    {
        SkipPullRequestsConfigBuilder {
            remote_url: None,
            directory: None,
            good: None,
            bad: None,
            dry_run: false,
        }
    }

    /// Sets the remote url and keeps every other choice.
    pub fn remote_url(self, remote_url: Option<String>) -> (r: SkipPullRequestsConfigBuilder)
        ensures
            r.remote_url == remote_url,
            r.directory == self.directory,
            r.good == self.good,
            r.bad == self.bad,
            r.dry_run == self.dry_run,
    {
        SkipPullRequestsConfigBuilder { remote_url, ..self }
    }

    /// Sets the repository directory and keeps every other choice.
    pub fn directory(self, directory: Option<String>) -> (r: SkipPullRequestsConfigBuilder)
        ensures
            r.remote_url == self.remote_url,
            r.directory == directory,
            r.good == self.good,
            r.bad == self.bad,
            r.dry_run == self.dry_run,
    {
        SkipPullRequestsConfigBuilder { directory, ..self }
    }

    /// Sets the known good commit and keeps every other choice.
    pub fn good(self, good: Option<String>) -> (r: SkipPullRequestsConfigBuilder)
        ensures
            r.remote_url == self.remote_url,
            r.directory == self.directory,
            r.good == good,
            r.bad == self.bad,
            r.dry_run == self.dry_run,
    {
        SkipPullRequestsConfigBuilder { good, ..self }
    }

    /// Sets the known bad commit and keeps every other choice.
    pub fn bad(self, bad: Option<String>) -> (r: SkipPullRequestsConfigBuilder)
        ensures
            r.remote_url == self.remote_url,
            r.directory == self.directory,
            r.good == self.good,
            r.bad == bad,
            r.dry_run == self.dry_run,
    {
        SkipPullRequestsConfigBuilder { bad, ..self }
    }

    /// Sets the dry-run flag and keeps every other choice.
    pub fn dry_run(self, dry_run: bool) -> (r: SkipPullRequestsConfigBuilder)
        ensures
            r.remote_url == self.remote_url,
            r.directory == self.directory,
            r.good == self.good,
            r.bad == self.bad,
            r.dry_run == dry_run,
    {
        SkipPullRequestsConfigBuilder { dry_run, ..self }
    }
}

impl Default for SkipPullRequestsConfigBuilder {
    /// The default builder is the empty one.
    fn default() -> (r: SkipPullRequestsConfigBuilder)
        ensures
            r.remote_url is None,
            r.directory is None,
            r.good is None,
            r.bad is None,
            !r.dry_run,
    {
        SkipPullRequestsConfigBuilder::new()
    }
}

} // verus!
