use git_host::gitlab::cli::GlabCliError;
use git_host::gitlab::GitLabProvider;
use git_host::types::{GitHostError, ProviderKind};

#[test]
fn provider_repo_info() {
    let p = GitLabProvider::new().unwrap();
    let info = p.get_repo_info("git@gitlab.com:g/p.git").unwrap();
    assert_eq!(info.host, "gitlab.com");
    match p.get_repo_info("nope") {
        Err(GitHostError::Repository(m)) => assert_eq!(
            m,
            "Could not parse GitLab host and project path from remote URL: nope"
        ),
        other => panic!("unexpected {other:?}"),
    }
    assert_eq!(p.provider_kind(), ProviderKind::GitLab);
}

#[test]
fn errors_map_to_provider_errors() {
    let e = |x: GlabCliError| GitHostError::from(x);
    assert!(matches!(e(GlabCliError::AuthFailed("a".into())), GitHostError::AuthFailed(m) if m == "a"));
    assert!(matches!(
        e(GlabCliError::NotAvailable),
        GitHostError::CliNotInstalled { provider: ProviderKind::GitLab }
    ));
    assert!(matches!(
        e(GlabCliError::CommandFailed("HTTP 403 FORBIDDEN".into())),
        GitHostError::InsufficientPermissions(_)
    ));
    assert!(matches!(
        e(GlabCliError::CommandFailed("Project Not Found".into())),
        GitHostError::RepoNotFoundOrNoAccess(_)
    ));
    assert!(matches!(
        e(GlabCliError::CommandFailed("fatal: not a git repository".into())),
        GitHostError::NotAGitRepository(_)
    ));
    assert!(matches!(
        e(GlabCliError::CommandFailed("boom".into())),
        GitHostError::PullRequest(m) if m == "boom"
    ));
    assert!(matches!(
        e(GlabCliError::UnexpectedOutput("x".into())),
        GitHostError::UnexpectedOutput(m) if m == "x"
    ));
}

#[test]
fn only_passing_failures_are_retried() {
    assert!(GitHostError::PullRequest("x".into()).should_retry());
    assert!(GitHostError::UnexpectedOutput("x".into()).should_retry());
    assert!(!GitHostError::AuthFailed("x".into()).should_retry());
    assert!(!GitHostError::Repository("x".into()).should_retry());
    assert!(!GitHostError::CliNotInstalled { provider: ProviderKind::GitLab }.should_retry());
    assert_ne!(GitLabProvider::new().unwrap().provider_kind(), ProviderKind::GitHub);
}
