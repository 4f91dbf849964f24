//! GitLab hosting service: merge requests through `glab`.

pub mod cli;
pub mod laws;
pub mod output;
pub mod url_laws;

use vstd::prelude::*;

use crate::gitlab::cli::{GitLabRepoInfo, GlabCli, GlabCliError, spec_from_remote_url};
use crate::text::{ascii_lowercase, ascii_lowercase_chars, chars_of, concat_chars, contains_seq,
    contains_seq_chars, string_of};
use crate::types::{GitHostError, ProviderKind};

verus! {

/// The GitLab provider.
#[derive(Debug, Clone, Copy)]
pub struct GitLabProvider {
    glab_cli: GlabCli,
}

/// The provider error that a failed `glab` command with message `msg` stands
/// for, by what the lowercased message mentions: `403`/`forbidden`, then
/// `404`/`not found`, then `not a git repository`; otherwise a merge-request
/// failure.
pub open spec fn command_failure_error(msg: String) -> GitHostError {
    let lower = ascii_lowercase(msg@);
    if contains_seq(lower, "403"@) || contains_seq(lower, "forbidden"@) {
        GitHostError::InsufficientPermissions(msg)
    } else if contains_seq(lower, "404"@) || contains_seq(lower, "not found"@) {
        GitHostError::RepoNotFoundOrNoAccess(msg)
    } else if contains_seq(lower, "not a git repository"@) {
        GitHostError::NotAGitRepository(msg)
    } else {
        GitHostError::PullRequest(msg)
    }
}

impl vstd::std_specs::convert::FromSpecImpl<GlabCliError> for GitHostError {
    open spec fn obeys_from_spec() -> bool {
        true
    }

    open spec fn from_spec(error: GlabCliError) -> GitHostError {
        match error {
            GlabCliError::AuthFailed(msg) => GitHostError::AuthFailed(msg),
            GlabCliError::NotAvailable => GitHostError::CliNotInstalled {
                provider: ProviderKind::GitLab,
            },
            GlabCliError::CommandFailed(msg) => command_failure_error(msg),
            GlabCliError::UnexpectedOutput(msg) => GitHostError::UnexpectedOutput(msg),
        }
    }
}

impl From<GlabCliError> for GitHostError {
    fn from(error: GlabCliError) -> (r: Self) {
        match error {
            GlabCliError::AuthFailed(msg) => GitHostError::AuthFailed(msg),
            GlabCliError::NotAvailable => GitHostError::CliNotInstalled {
                provider: ProviderKind::GitLab,
            },
            GlabCliError::CommandFailed(msg) => {
                let lower = ascii_lowercase_chars(&chars_of(msg.as_str()));
                if contains_seq_chars(&lower, &chars_of("403")) || contains_seq_chars(
                    &lower,
                    &chars_of("forbidden"),
                ) {
                    GitHostError::InsufficientPermissions(msg)
                } else if contains_seq_chars(&lower, &chars_of("404")) || contains_seq_chars(
                    &lower,
                    &chars_of("not found"),
                ) {
                    GitHostError::RepoNotFoundOrNoAccess(msg)
                } else if contains_seq_chars(&lower, &chars_of("not a git repository")) {
                    GitHostError::NotAGitRepository(msg)
                } else {
                    GitHostError::PullRequest(msg)
                }
            },
            GlabCliError::UnexpectedOutput(msg) => GitHostError::UnexpectedOutput(msg),
        }
    }
}

impl GitLabProvider {
    pub fn new() -> (r: Result<Self, GitHostError>)
        ensures
            r is Ok,
    {
        Ok(GitLabProvider { glab_cli: GlabCli::new() })
    }

    /// The repository that a remote URL names, or the error that says the URL
    /// could not be read.
    pub fn get_repo_info(&self, remote_url: &str) -> (r: Result<GitLabRepoInfo, GitHostError>)
        ensures
            match spec_from_remote_url(remote_url@) {
                Some(info) => r matches Ok(i) && i@ == info,
                None => r matches Err(GitHostError::Repository(m)) && m@
                    == "Could not parse GitLab host and project path from remote URL: "@
                    + remote_url@,
            },
    {
        match GitLabRepoInfo::from_remote_url(remote_url) {
            Some(info) => Ok(info),
            None => {
                let msg = concat_chars(
                    &chars_of("Could not parse GitLab host and project path from remote URL: "),
                    &chars_of(remote_url),
                );
                Err(GitHostError::Repository(string_of(&msg)))
            },
        }
    }

    /// The `glab` runner of this provider.
    pub fn glab_cli(&self) -> (cli: GlabCli) {
        self.glab_cli
    }

    pub fn provider_kind(&self) -> (k: ProviderKind)
        ensures
            k == ProviderKind::GitLab,
    {
        ProviderKind::GitLab
    }
}

} // verus!
