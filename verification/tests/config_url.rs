use git_assist::config::SkipPullRequestsConfigBuilder;
use git_assist::errors::BisectError;
use git_assist::host::{GitRepositoryUrl, GithubRepository, SupportedHost};

fn github_url() -> GitRepositoryUrl {
    GitRepositoryUrl::parse(&"https://github.com/tjtelan/git-url-parse-rs.git".to_string())
        .unwrap()
}

#[test]
fn builder_starts_empty() {
    let b = SkipPullRequestsConfigBuilder::new();
    assert!(b.remote_url.is_none());
    assert!(b.directory.is_none());
    assert!(b.good.is_none());
    assert!(b.bad.is_none());
    assert!(!b.dry_run);
    let d = SkipPullRequestsConfigBuilder::default();
    assert!(d.remote_url.is_none());
    assert!(!d.dry_run);
}

#[test]
fn builder_setters_keep_other_fields() {
    let b = SkipPullRequestsConfigBuilder::new()
        .remote_url(Some("https://github.com/o/r.git".to_string()))
        .directory(Some("/tmp/repo".to_string()))
        .good(Some("v1.0".to_string()))
        .bad(Some("HEAD".to_string()))
        .dry_run(true);
    assert_eq!(b.remote_url.as_deref(), Some("https://github.com/o/r.git"));
    assert_eq!(b.directory.as_deref(), Some("/tmp/repo"));
    assert_eq!(b.good.as_deref(), Some("v1.0"));
    assert_eq!(b.bad.as_deref(), Some("HEAD"));
    assert!(b.dry_run);
}

#[test]
fn https_url_parses_into_parts() {
    let url = github_url();
    assert_eq!(url.url_string, "https://github.com/tjtelan/git-url-parse-rs.git");
    assert_eq!(url.host.as_deref(), Some("github.com"));
    assert_eq!(url.owner.as_deref(), Some("tjtelan"));
    assert_eq!(url.repo.as_deref(), Some("git-url-parse-rs"));
}

#[test]
fn ssh_url_parses_into_parts() {
    let url = GitRepositoryUrl::parse(&"git@github.com:owner/repo.git".to_string()).unwrap();
    assert_eq!(url.host.as_deref(), Some("github.com"));
    assert_eq!(url.owner.as_deref(), Some("owner"));
    assert_eq!(url.repo.as_deref(), Some("repo"));
}

#[test]
fn ssh_scheme_without_a_path_is_rejected() {
    for input in ["ssh://", "ssh://github.com", "ssh://github.com:22"] {
        let r = GitRepositoryUrl::parse(&input.to_string());
        assert!(matches!(r, Err(BisectError::InvalidUrl(t)) if t == input));
    }
}

#[test]
fn ssh_scheme_with_a_path_parses() {
    let url = GitRepositoryUrl::parse(&"ssh://github.com/owner/repo.git".to_string()).unwrap();
    assert_eq!(url.host.as_deref(), Some("github.com"));
    assert_eq!(url.owner.as_deref(), Some("owner"));
    assert_eq!(url.repo.as_deref(), Some("repo"));
}

#[test]
fn ssh_scheme_with_user_info_parses() {
    let url =
        GitRepositoryUrl::parse(&"ssh://git@github.com/owner/repo.git".to_string()).unwrap();
    assert_eq!(url.host.as_deref(), Some("github.com"));
    assert_eq!(url.owner.as_deref(), Some("owner"));
    assert_eq!(url.repo.as_deref(), Some("repo"));
}

#[test]
fn ssh_scheme_with_malformed_user_info_is_rejected() {
    let r = GitRepositoryUrl::parse(&"ssh://:token@github.com/owner/repo.git".to_string());
    assert!(matches!(r, Err(BisectError::InvalidUrl(_))));
}

#[test]
fn unparseable_url_is_rejected() {
    let r = GitRepositoryUrl::parse(&"".to_string());
    assert!(matches!(r, Err(BisectError::InvalidUrl(t)) if t.is_empty()));
}

#[test]
fn github_host_selects_the_github_provider() {
    let url = github_url();
    let host = SupportedHost::try_from_url(&url);
    assert!(matches!(host, Ok(SupportedHost::Github)));
}

#[test]
fn foreign_host_is_unsupported() {
    let mut url = github_url();
    url.host = Some("gitlab.example.com".to_string());
    let r = SupportedHost::try_from_url(&url);
    assert!(matches!(r, Err(BisectError::UnsupportedHost(h)) if h == "gitlab.example.com"));
}

#[test]
fn missing_host_cannot_select_a_provider() {
    let url = GitRepositoryUrl {
        url_string: "some-local-path".to_string(),
        host: None,
        owner: None,
        repo: None,
    };
    let r = SupportedHost::try_from_url(&url);
    assert!(matches!(r, Err(BisectError::UnknownHost(u)) if u == "some-local-path"));
}

#[test]
fn github_repository_accepts_only_github_urls() {
    let ok = GithubRepository::new(github_url()).unwrap();
    assert_eq!(ok.owner().unwrap(), "tjtelan");
    assert_eq!(ok.name().unwrap(), "git-url-parse-rs");

    let mut other = github_url();
    other.host = Some("example.org".to_string());
    let r = GithubRepository::new(other);
    assert!(matches!(r, Err(BisectError::UnsupportedHost(h)) if h == "example.org"));
}

#[test]
fn github_repository_without_provider_info_reports_the_url() {
    let url = GitRepositoryUrl {
        url_string: "https://github.com/".to_string(),
        host: Some("github.com".to_string()),
        owner: None,
        repo: None,
    };
    let repo = GithubRepository::new(url).unwrap();
    let r = repo.owner();
    assert!(matches!(r, Err(BisectError::InvalidUrl(t)) if t == "https://github.com/"));
    let r = repo.name();
    assert!(matches!(r, Err(BisectError::InvalidUrl(_))));
}
