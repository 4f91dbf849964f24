//! The plain data that merge requests, comments and provider errors are
//! described with.

use vstd::prelude::*;

use crate::order::SortOrder;
use crate::trusted::{duration_secs, duration_since_epoch, duration_subsec_nanos, system_now};

verus! {

/// An instant: seconds since the Unix epoch and nanoseconds within that second
/// (above 999 999 999 only during a leap second).
#[derive(Clone, Copy, Debug, PartialEq, Eq, Structural)]
pub struct Timestamp {
    pub secs: i64,
    pub nanos: u32,
}

/// An instant that the clock can give: at or after the Unix epoch, with the
/// nanoseconds below one second.
pub open spec fn is_clock_reading(t: Timestamp) -> bool {
    t.secs >= 0 && t.nanos < 1_000_000_000
}

/// The instant that a clock reading of whole seconds and nanoseconds after
/// the Unix epoch stands for, where the seconds fit; none otherwise.
pub open spec fn instant_of_reading(reading: Option<(u64, u32)>) -> Option<Timestamp> {
    match reading {
        Some((secs, nanos)) => if secs <= i64::MAX {
            Some(Timestamp { secs: secs as i64, nanos })
        } else {
            None
        },
        None => None,
    }
}

/// The system clock, read as whole seconds and nanoseconds after the Unix
/// epoch; none where it reads a time before the epoch.
pub fn clock_reading() -> (r: Option<(u64, u32)>)
    ensures
        r matches Some((_, n)) ==> n < 1_000_000_000,
{
    let now = system_now();
    match duration_since_epoch(&now) {
        Some(d) => Some((duration_secs(&d), duration_subsec_nanos(&d))),
        None => None,
    }
}

/// The instant that a clock reading of whole seconds and nanoseconds after
/// the Unix epoch stands for: none where there is no reading or where the
/// seconds do not fit.
pub fn timestamp_of_clock(reading: Option<(u64, u32)>) -> (t: Option<Timestamp>)
    ensures
        t == instant_of_reading(reading),
{
    match reading {
        Some((secs, nanos)) => if secs <= i64::MAX as u64 {
            Some(Timestamp { secs: secs as i64, nanos })
        } else {
            None
        },
        None => None,
    }
}

impl Timestamp {
    /// The current time, where the clock reads an instant at or after the
    /// Unix epoch that fits the seconds; none otherwise. What the clock reads
    /// is handed to `timestamp_of_clock`, whose contract fixes the result for
    /// each reading.
    pub fn now() -> (t: Option<Timestamp>)
        ensures
            exists|r: Option<(u64, u32)>|
                (r matches Some((_, n)) ==> n < 1_000_000_000) && t == instant_of_reading(r),
            t matches Some(ts) ==> is_clock_reading(ts),
    {
        let reading = clock_reading();
        timestamp_of_clock(reading)
    }
}

/// Instants in time order.
pub open spec fn timestamp_le(a: Timestamp, b: Timestamp) -> bool {
    a.secs < b.secs || (a.secs == b.secs && a.nanos <= b.nanos)
}

/// The state of a merge request.
#[derive(Clone, Copy, Debug, PartialEq, Eq, Structural)]
pub enum MergeStatus {
    Open,
    Merged,
    Closed,
    Unknown,
}

/// The hosting services that a provider can stand for.
#[derive(Clone, Copy, Debug, PartialEq, Eq, Structural)]
pub enum ProviderKind {
    /// GitHub, through the `gh` CLI.
    GitHub,
    /// GitLab, through the `glab` CLI.
    GitLab,
}

/// What a caller asks for when it opens a merge request.
#[derive(Clone, Debug)]
pub struct CreatePrRequest {
    pub title: String,
    pub body: Option<String>,
    pub head_branch: String,
    pub base_branch: String,
    pub draft: Option<bool>,
    pub head_repo_url: Option<String>,
}

/// A merge request as the rest of the system sees it.
#[derive(Clone, Debug)]
pub struct PullRequestDetail {
    pub number: i64,
    pub url: String,
    pub status: MergeStatus,
    pub merged_at: Option<Timestamp>,
    pub merge_commit_sha: Option<String>,
    pub title: String,
    pub base_branch: String,
    pub head_branch: String,
}

/// A comment on a merge request: a general one, or one on a line of a file.
#[derive(Clone, Debug)]
pub enum UnifiedPrComment {
    General {
        id: String,
        author: String,
        author_association: Option<String>,
        body: String,
        created_at: Timestamp,
        url: Option<String>,
    },
    Review {
        id: i64,
        author: String,
        author_association: Option<String>,
        body: String,
        created_at: Timestamp,
        url: Option<String>,
        path: String,
        line: Option<i64>,
        side: Option<String>,
        diff_hunk: Option<String>,
    },
}

impl UnifiedPrComment {
    pub open spec fn spec_created_at(&self) -> Timestamp {
        match self {
            UnifiedPrComment::General { created_at, .. } => *created_at,
            UnifiedPrComment::Review { created_at, .. } => *created_at,
        }
    }

    /// When the comment was written.
    pub fn created_at(&self) -> (t: Timestamp)
        ensures
            t == self.spec_created_at(),
    {
        match self {
            UnifiedPrComment::General { created_at, .. } => *created_at,
            UnifiedPrComment::Review { created_at, .. } => *created_at,
        }
    }
}

/// Comments sort by the time they were written.
impl SortOrder for UnifiedPrComment {
    open spec fn ordered(a: Self, b: Self) -> bool {
        timestamp_le(a.spec_created_at(), b.spec_created_at())
    }

    proof fn lemma_ordered_reflexive(a: Self) {
    }

    proof fn lemma_ordered_transitive(a: Self, b: Self, c: Self) {
    }

    proof fn lemma_ordered_total(a: Self, b: Self) {
    }

    fn is_ordered_before(&self, other: &Self) -> (r: bool) {
        let a = self.created_at();
        let b = other.created_at();
        a.secs < b.secs || (a.secs == b.secs && a.nanos <= b.nanos)
    }
}

/// Errors of a git hosting provider.
#[derive(Clone, Debug)]
pub enum GitHostError {
    Repository(String),
    PullRequest(String),
    AuthFailed(String),
    InsufficientPermissions(String),
    RepoNotFoundOrNoAccess(String),
    NotAGitRepository(String),
    CliNotInstalled { provider: ProviderKind },
    UnexpectedOutput(String),
}

impl GitHostError {
    /// Whether another attempt could succeed: an unclassified command failure
    /// or unexpected output may be passing; authentication, permission,
    /// missing-repository, not-a-repository, missing-CLI and remote-URL
    /// failures would fail again.
    pub fn should_retry(&self) -> (r: bool)
        ensures
            r == (self is PullRequest || self is UnexpectedOutput),
    {
        match self {
            GitHostError::PullRequest(_) | GitHostError::UnexpectedOutput(_) => true,
            _ => false,
        }
    }
}

} // verus!
