//! The GitLab CLI (`glab`): repository identification from remote URLs,
//! command lines for merge-request operations, and the reading of what
//! `glab mr create` prints back.

use vstd::prelude::*;

use crate::text::{
    after_last_at, after_last_at_chars, ascii_lowercase, ascii_lowercase_chars, chars_of,
    concat_chars, contains_char, contains_seq, contains_seq_chars, decimal, decimal_chars,
    is_whitespace, is_whitespace_char, leading_digits, leading_digits_chars, lemma_trim_start_at,
    one_of, parse_digits, parse_digits_i64, skip_whitespace, split_once, split_once_chars,
    split_once_seq, split_once_seq_chars, starts_with, string_of, strip_prefix, strip_prefix_chars,
    subvec, trim, trim_chars, trim_end_by, trim_end_chars, trim_end_suffix, trim_end_suffix_chars,
    trim_start_by, whitespace_pred,
};
use crate::trusted::{from_utf8_lossy, utf8_lossy};
use crate::types::{CreatePrRequest, MergeStatus, PullRequestDetail};

verus! {

// ---------------------------------------------------------------------------
// Repository information
// ---------------------------------------------------------------------------

/// Host and project path of a GitLab repository.
#[derive(Clone, Debug)]
pub struct GitLabRepoInfo {
    /// Hostname of the GitLab instance (e.g. `gitlab.com` or a self-managed host).
    pub host: String,
    /// Full project path including groups/subgroups (e.g. `group/subgroup/project`).
    pub full_path: String,
}

/// A remote URL without surrounding whitespace, trailing slashes, and then
/// trailing `.git`.
pub open spec fn normalize_remote(s: Seq<char>) -> Seq<char> {
    trim_end_suffix(trim_end_by(trim(s), one_of(seq!['/'])), ".git"@)
}

/// The host and path parts of a normalized remote URL, before validation:
/// `http(s)://[user@]host/path`, `ssh://[user@]host[:port]/path`, or scp-style
/// `[user@]host:path`.
pub open spec fn remote_host_and_path(url: Seq<char>) -> Option<(Seq<char>, Seq<char>)> {
    let web = match strip_prefix(url, "https://"@) {
        Some(rest) => Some(rest),
        None => strip_prefix(url, "http://"@),
    };
    if web is Some {
        split_once(after_last_at(web->0), '/')
    } else if strip_prefix(url, "ssh://"@) is Some {
        match split_once(after_last_at(strip_prefix(url, "ssh://"@)->0), '/') {
            Some((host_port, path)) => Some(
                (
                    match split_once(host_port, ':') {
                        Some((host, _)) => host,
                        None => host_port,
                    },
                    path,
                ),
            ),
            None => None,
        }
    } else {
        match split_once(url, ':') {
            Some((user_host, path)) => Some((after_last_at(user_host), path)),
            None => None,
        }
    }
}

/// The repository that a remote URL names: its host and full project path,
/// where both are non-empty and the path has a `/` in it.
pub open spec fn spec_from_remote_url(s: Seq<char>) -> Option<(Seq<char>, Seq<char>)> {
    match remote_host_and_path(normalize_remote(s)) {
        Some((host, path)) => if host.len() > 0 && path.len() > 0 && path.contains('/') {
            Some((host, path))
        } else {
            None
        },
        None => None,
    }
}

/// `https://{host}/{path}`.
pub open spec fn spec_repo_spec(host: Seq<char>, path: Seq<char>) -> Seq<char> {
    "https://"@ + host + seq!['/'] + path
}

/// `path` with every `/` written as `%2F`.
pub open spec fn encode_slashes(path: Seq<char>) -> Seq<char>
    decreases path.len(),
{
    if path.len() == 0 {
        seq![]
    } else {
        encode_slashes(path.drop_last()) + if path.last() == '/' {
            seq!['%', '2', 'F']
        } else {
            seq![path.last()]
        }
    }
}

impl View for GitLabRepoInfo {
    type V = (Seq<char>, Seq<char>);

    open spec fn view(&self) -> (Seq<char>, Seq<char>) {
        (self.host@, self.full_path@)
    }
}

/// The `(host, path)` split of a normalized remote URL, on characters.
fn host_and_path(url: &Vec<char>) -> (r: Option<(Vec<char>, Vec<char>)>)
    ensures
        match r {
            Some((h, p)) => remote_host_and_path(url@) == Some((h@, p@)),
            None => remote_host_and_path(url@).is_none(),
        },
{
    let https = chars_of("https://");
    let http = chars_of("http://");
    let ssh = chars_of("ssh://");
    let web = match strip_prefix_chars(url, &https) {
        Some(rest) => Some(rest),
        None => strip_prefix_chars(url, &http),
    };
    if let Some(rest) = web {
        let rest = after_last_at_chars(&rest);
        split_once_chars(&rest, '/')
    } else if let Some(rest) = strip_prefix_chars(url, &ssh) {
        let rest = after_last_at_chars(&rest);
        match split_once_chars(&rest, '/') {
            Some((host_port, path)) => {
                let host = match split_once_chars(&host_port, ':') {
                    Some((h, _)) => h,
                    None => host_port,
                };
                Some((host, path))
            },
            None => None,
        }
    } else {
        match split_once_chars(url, ':') {
            Some((user_host, path)) => Some((after_last_at_chars(&user_host), path)),
            None => None,
        }
    }
}

impl GitLabRepoInfo {
    /// Parse host and full project path from an HTTPS, SSH, or scp-style remote URL.
    pub fn from_remote_url(remote_url: &str) -> (r: Option<Self>)
        ensures
            match r {
                Some(info) => spec_from_remote_url(remote_url@) == Some(info@),
                None => spec_from_remote_url(remote_url@).is_none(),
            },
    {
        let raw = chars_of(remote_url);
        let trimmed = trim_chars(&raw);
        let mut slash: Vec<char> = Vec::new();
        slash.push('/');
        assert(slash@ =~= seq!['/']);
        let no_slash = trim_end_chars(&trimmed, &slash);
        let git = chars_of(".git");
        let url = trim_end_suffix_chars(&no_slash, &git);
        assert(url@ == normalize_remote(remote_url@));
        let (host, path) = match host_and_path(&url) {
            Some(hp) => hp,
            None => {
                return None;
            },
        };
        if host.len() == 0 || path.len() == 0 || !contains_char(&path, '/') {
            return None;
        }
        Some(GitLabRepoInfo { host: string_of(&host), full_path: string_of(&path) })
    }

    /// Repository spec accepted by `glab --repo` (full URL form).
    pub fn repo_spec(&self) -> (s: String)
        ensures
            s@ == spec_repo_spec(self.host@, self.full_path@),
    {
        let mut v = chars_of("https://");
        let host = chars_of(self.host.as_str());
        v = concat_chars(&v, &host);
        v.push('/');
        let path = chars_of(self.full_path.as_str());
        v = concat_chars(&v, &path);
        string_of(&v)
    }

    /// URL-encoded project path for REST API endpoints.
    pub fn encoded_path(&self) -> (s: String)
        ensures
            s@ == encode_slashes(self.full_path@),
    {
        let path = chars_of(self.full_path.as_str());
        let mut out: Vec<char> = Vec::new();
        let mut i: usize = 0;
        while i < path.len()
            invariant
                i <= path.len(),
                out@ == encode_slashes(path@.take(i as int)),
            decreases path.len() - i,
        {
            let c = path[i];
            if c == '/' {
                out.push('%');
                out.push('2');
                out.push('F');
            } else {
                out.push(c);
            }
            i = i + 1;
            assert(path@.take(i as int).drop_last() =~= path@.take(i - 1));
            assert(out@ =~= encode_slashes(path@.take(i as int)));
        }
        assert(path@.take(path.len() as int) =~= path@);
        string_of(&out)
    }
}

// ---------------------------------------------------------------------------
// The CLI
// ---------------------------------------------------------------------------

/// Failures of a `glab` invocation.
#[derive(Debug)]
pub enum GlabCliError {
    /// GitLab CLI (`glab`) executable not found or not runnable.
    NotAvailable,
    /// GitLab CLI command failed.
    CommandFailed(String),
    /// GitLab CLI authentication failed.
    AuthFailed(String),
    /// GitLab CLI returned unexpected output.
    UnexpectedOutput(String),
}

/// Runs GitLab merge-request operations through `glab`.
#[derive(Debug, Clone, Copy)]
pub struct GlabCli;

/// The text that separates the project URL from the merge-request number in
/// a merge-request URL.
pub open spec fn mr_marker() -> Seq<char> {
    "/-/merge_requests/"@
}

/// The repository spec and merge-request number that a merge-request URL
/// `https://{host}/{group...}/{project}/-/merge_requests/{iid}[...]` names.
pub open spec fn spec_parse_mr_url(url: Seq<char>) -> Option<(Seq<char>, i64)> {
    match split_once_seq(url, mr_marker()) {
        Some((repo_part, iid_part)) => match (
            parse_digits_i64(leading_digits(iid_part)),
            spec_from_remote_url(repo_part),
        ) {
            (Some(iid), Some((host, path))) => Some((spec_repo_spec(host, path), iid)),
            _ => None,
        },
        None => None,
    }
}

impl Default for GlabCli {
    fn default() -> (cli: Self) {
        GlabCli
    }
}

impl GlabCli {
    pub fn new() -> (cli: Self) {
        GlabCli
    }

    /// Parse MR URL to extract the repo spec and MR iid.
    ///
    /// Format: `https://{host}/{group...}/{project}/-/merge_requests/{iid}`
    pub fn parse_mr_url(url: &str) -> (r: Option<(String, i64)>)
        ensures
            match r {
                Some((spec, iid)) => spec_parse_mr_url(url@) == Some((spec@, iid)),
                None => spec_parse_mr_url(url@).is_none(),
            },
    {
        let v = chars_of(url);
        let marker = chars_of("/-/merge_requests/");
        let (repo_part, iid_part) = match split_once_seq_chars(&v, &marker) {
            Some(parts) => parts,
            None => {
                return None;
            },
        };
        let digits = leading_digits_chars(&iid_part);
        let iid = match parse_digits(&digits) {
            Some(iid) => iid,
            None => {
                return None;
            },
        };
        let repo = string_of(&repo_part);
        let info = match GitLabRepoInfo::from_remote_url(repo.as_str()) {
            Some(info) => info,
            None => {
                return None;
            },
        };
        Some((info.repo_spec(), iid))
    }
}

// ---------------------------------------------------------------------------
// Running `glab`: what its exit tells
// ---------------------------------------------------------------------------

/// `glab`'s error output, lowercased, says that authentication is missing or
/// was refused.
pub open spec fn mentions_auth_failure(lower: Seq<char>) -> bool {
    ||| contains_seq(lower, "glab auth login"@)
    ||| contains_seq(lower, "not authenticated"@)
    ||| contains_seq(lower, "authentication"@)
    ||| contains_seq(lower, "unauthorized"@)
    ||| contains_seq(lower, "401"@)
    ||| contains_seq(lower, "token is invalid"@)
}

/// The error that a failed `glab` run with error output `stderr` stands for:
/// `AuthFailed` where the trimmed output mentions authentication, otherwise
/// `CommandFailed`; either carries the trimmed output.
pub open spec fn failure_of(stderr: Seq<char>, e: GlabCliError) -> bool {
    let msg = trim(stderr);
    if mentions_auth_failure(ascii_lowercase(msg)) {
        e matches GlabCliError::AuthFailed(m) && m@ == msg
    } else {
        e matches GlabCliError::CommandFailed(m) && m@ == msg
    }
}

impl GlabCli {
    /// The error for a `glab` run that failed with error output `stderr`.
    pub fn failure_from_stderr(stderr: &str) -> (e: GlabCliError)
        ensures
            failure_of(stderr@, e),
    {
        let raw = chars_of(stderr);
        let msg = trim_chars(&raw);
        let lower = ascii_lowercase_chars(&msg);
        let auth = contains_seq_chars(&lower, &chars_of("glab auth login"))
            || contains_seq_chars(&lower, &chars_of("not authenticated"))
            || contains_seq_chars(&lower, &chars_of("authentication"))
            || contains_seq_chars(&lower, &chars_of("unauthorized"))
            || contains_seq_chars(&lower, &chars_of("401"))
            || contains_seq_chars(&lower, &chars_of("token is invalid"));
        if auth {
            GlabCliError::AuthFailed(string_of(&msg))
        } else {
            GlabCliError::CommandFailed(string_of(&msg))
        }
    }

    /// What a finished `glab` run gives: its standard output (decoded lossily)
    /// where it succeeded, otherwise the error that its error output stands for.
    pub fn command_outcome(success: bool, stdout: &[u8], stderr: &[u8]) -> (r: Result<
        String,
        GlabCliError,
    >)
        ensures
            success ==> (r matches Ok(out) && out@ == utf8_lossy(stdout@)),
            !success ==> (r matches Err(e) && failure_of(utf8_lossy(stderr@), e)),
    {
        if success {
            return Ok(from_utf8_lossy(stdout));
        }
        let text = from_utf8_lossy(stderr);
        Err(Self::failure_from_stderr(text.as_str()))
    }
}

// ---------------------------------------------------------------------------
// Command lines
// ---------------------------------------------------------------------------

/// The texts of a list of command-line arguments.
pub open spec fn arg_views(args: Seq<String>) -> Seq<Seq<char>> {
    args.map_values(|a: String| a@)
}

fn push_arg(args: &mut Vec<String>, a: &str)
    ensures
        arg_views(final(args)@) == arg_views(old(args)@).push(a@),
{
    args.push(a.to_owned());
    assert(arg_views(args@) =~= arg_views(old(args)@).push(a@));
}

fn push_string_arg(args: &mut Vec<String>, a: String)
    ensures
        arg_views(final(args)@) == arg_views(old(args)@).push(a@),
{
    args.push(a);
    assert(arg_views(args@) =~= arg_views(old(args)@).push(a@));
}

/// The arguments of `glab mr create` for a request, against the repository
/// `repo` (host, path). A draft request adds `--draft`; a head repository that
/// differs from the target and names a repository adds `--head` and its path.
pub open spec fn spec_create_mr_args(request: CreatePrRequest, repo: (Seq<char>, Seq<char>)) -> Seq<
    Seq<char>,
> {
    let spec = spec_repo_spec(repo.0, repo.1);
    let body = match request.body {
        Some(b) => b@,
        None => Seq::empty(),
    };
    let base = seq![
        "mr"@,
        "create"@,
        "--repo"@,
        spec,
        "--source-branch"@,
        request.head_branch@,
        "--target-branch"@,
        request.base_branch@,
        "--title"@,
        request.title@,
        "--description"@,
        body,
        "--yes"@,
    ];
    let draft = if request.draft == Some(true) {
        seq!["--draft"@]
    } else {
        Seq::empty()
    };
    let head = match request.head_repo_url {
        Some(url) => if url@ != spec {
            match spec_from_remote_url(url@) {
                Some((_, path)) => seq!["--head"@, path],
                None => Seq::empty(),
            }
        } else {
            Seq::empty()
        },
        None => Seq::empty(),
    };
    base + draft + head
}

/// The endpoint of the REST API that lists a merge request's discussions.
pub open spec fn spec_discussions_endpoint(path: Seq<char>, mr_iid: i64) -> Seq<char> {
    "projects/"@ + encode_slashes(path) + "/merge_requests/"@ + decimal(mr_iid as int)
        + "/discussions?per_page=100"@
}

impl GlabCli {
    /// Arguments of `glab mr create` (run in the repository's directory).
    pub fn create_mr_args(request: &CreatePrRequest, repo_info: &GitLabRepoInfo) -> (args: Vec<
        String,
    >)
        ensures
            arg_views(args@) == spec_create_mr_args(*request, repo_info@),
    {
        let spec = repo_info.repo_spec();
        let mut args: Vec<String> = Vec::new();
        push_arg(&mut args, "mr");
        push_arg(&mut args, "create");
        push_arg(&mut args, "--repo");
        push_string_arg(&mut args, spec.clone());
        push_arg(&mut args, "--source-branch");
        push_arg(&mut args, request.head_branch.as_str());
        push_arg(&mut args, "--target-branch");
        push_arg(&mut args, request.base_branch.as_str());
        push_arg(&mut args, "--title");
        push_arg(&mut args, request.title.as_str());
        push_arg(&mut args, "--description");
        match &request.body {
            Some(b) => push_arg(&mut args, b.as_str()),
            None => push_arg(&mut args, ""),
        }
        push_arg(&mut args, "--yes");
        let ghost base = arg_views(args@);
        let ghost spec_view = spec_repo_spec(repo_info.host@, repo_info.full_path@);
        proof {
            reveal_strlit("");
            let body = match &request.body {
                Some(b) => b@,
                None => Seq::empty(),
            };
            assert(base.len() == 13);
            assert(base[3] == spec_view);
            assert(base[11] == body);
            assert(base[5] == request.head_branch@);
            assert(base =~= seq![
                "mr"@,
                "create"@,
                "--repo"@,
                spec_view,
                "--source-branch"@,
                request.head_branch@,
                "--target-branch"@,
                request.base_branch@,
                "--title"@,
                request.title@,
                "--description"@,
                body,
                "--yes"@,
            ]);
        }
        let draft = match request.draft {
            Some(d) => d,
            None => false,
        };
        if draft {
            push_arg(&mut args, "--draft");
        }
        let ghost with_draft = arg_views(args@);
        proof {
            if request.draft == Some(true) {
                assert(with_draft =~= base + seq!["--draft"@]);
            } else {
                assert(with_draft =~= base + Seq::<Seq<char>>::empty());
            }
        }
        let mut added_head = false;
        if let Some(head_url) = &request.head_repo_url {
            if !(*head_url == spec) {
                if let Some(head_info) = GitLabRepoInfo::from_remote_url(head_url.as_str()) {
                    push_arg(&mut args, "--head");
                    push_string_arg(&mut args, head_info.full_path);
                    added_head = true;
                }
            }
        }
        proof {
            if !added_head {
                assert(arg_views(args@) =~= with_draft + Seq::<Seq<char>>::empty());
            }
        }
        args
    }

    /// Arguments of `glab mr view` for a merge-request URL; the URL must name
    /// a merge request.
    pub fn view_mr_args(mr_url: &str) -> (r: Result<Vec<String>, GlabCliError>)
        ensures
            match spec_parse_mr_url(mr_url@) {
                Some((spec, iid)) => r matches Ok(args) && arg_views(args@) == seq![
                    "mr"@,
                    "view"@,
                    decimal(iid as int),
                    "--repo"@,
                    spec,
                    "--output"@,
                    "json"@,
                ],
                None => r matches Err(GlabCliError::UnexpectedOutput(m)) && m@
                    == "Could not parse GitLab MR URL: "@ + mr_url@,
            },
    {
        match Self::parse_mr_url(mr_url) {
            Some((spec, iid)) => {
                let mut args: Vec<String> = Vec::new();
                push_arg(&mut args, "mr");
                push_arg(&mut args, "view");
                push_string_arg(&mut args, string_of(&decimal_chars(iid)));
                push_arg(&mut args, "--repo");
                push_string_arg(&mut args, spec);
                push_arg(&mut args, "--output");
                push_arg(&mut args, "json");
                Ok(args)
            },
            None => {
                let msg = concat_chars(
                    &chars_of("Could not parse GitLab MR URL: "),
                    &chars_of(mr_url),
                );
                Err(GlabCliError::UnexpectedOutput(string_of(&msg)))
            },
        }
    }

    /// Arguments of `glab mr list` for the merge requests of a source branch,
    /// in every state.
    pub fn list_mrs_for_branch_args(repo_info: &GitLabRepoInfo, branch: &str) -> (args: Vec<String>)
        ensures
            arg_views(args@) == seq![
                "mr"@,
                "list"@,
                "--repo"@,
                spec_repo_spec(repo_info.host@, repo_info.full_path@),
                "--source-branch"@,
                branch@,
                "--all"@,
                "--output"@,
                "json"@,
            ],
    {
        let mut args: Vec<String> = Vec::new();
        push_arg(&mut args, "mr");
        push_arg(&mut args, "list");
        push_arg(&mut args, "--repo");
        push_string_arg(&mut args, repo_info.repo_spec());
        push_arg(&mut args, "--source-branch");
        push_arg(&mut args, branch);
        push_arg(&mut args, "--all");
        push_arg(&mut args, "--output");
        push_arg(&mut args, "json");
        args
    }

    /// Arguments of `glab mr list` for the open merge requests of a repository.
    pub fn list_open_mrs_args(repo_info: &GitLabRepoInfo) -> (args: Vec<String>)
        ensures
            arg_views(args@) == seq![
                "mr"@,
                "list"@,
                "--repo"@,
                spec_repo_spec(repo_info.host@, repo_info.full_path@),
                "--output"@,
                "json"@,
            ],
    {
        let mut args: Vec<String> = Vec::new();
        push_arg(&mut args, "mr");
        push_arg(&mut args, "list");
        push_arg(&mut args, "--repo");
        push_string_arg(&mut args, repo_info.repo_spec());
        push_arg(&mut args, "--output");
        push_arg(&mut args, "json");
        args
    }

    /// Arguments of `glab api` that fetch a merge request's discussions.
    pub fn mr_discussions_args(repo_info: &GitLabRepoInfo, mr_iid: i64) -> (args: Vec<String>)
        ensures
            arg_views(args@) == seq![
                "api"@,
                "--hostname"@,
                repo_info.host@,
                spec_discussions_endpoint(repo_info.full_path@, mr_iid),
            ],
    {
        let mut endpoint = chars_of("projects/");
        endpoint = concat_chars(&endpoint, &chars_of(repo_info.encoded_path().as_str()));
        endpoint = concat_chars(&endpoint, &chars_of("/merge_requests/"));
        endpoint = concat_chars(&endpoint, &decimal_chars(mr_iid));
        endpoint = concat_chars(&endpoint, &chars_of("/discussions?per_page=100"));
        let mut args: Vec<String> = Vec::new();
        push_arg(&mut args, "api");
        push_arg(&mut args, "--hostname");
        push_arg(&mut args, repo_info.host.as_str());
        push_string_arg(&mut args, string_of(&endpoint));
        args
    }
}

// ---------------------------------------------------------------------------
// Reading `glab mr create`
// ---------------------------------------------------------------------------

/// How many characters `t` starts with that are not whitespace.
pub open spec fn word_len(t: Seq<char>) -> nat
    decreases t.len(),
{
    if t.len() > 0 && !is_whitespace(t[0]) {
        1 + word_len(t.drop_first())
    } else {
        0
    }
}

pub proof fn lemma_word_len(t: Seq<char>, k: int)
    requires
        0 <= k <= t.len(),
        forall|j: int| 0 <= j < k ==> !is_whitespace(#[trigger] t[j]),
        k == t.len() || is_whitespace(t[k]),
    ensures
        word_len(t) == k,
    decreases k,
{
    if k > 0 {
        lemma_word_len(t.drop_first(), k - 1);
    }
}

pub proof fn lemma_word_len_bound(t: Seq<char>)
    ensures
        word_len(t) <= t.len(),
    decreases t.len(),
{
    if t.len() > 0 && !is_whitespace(t[0]) {
        lemma_word_len_bound(t.drop_first());
    }
}

pub proof fn lemma_trim_start_shorter(s: Seq<char>)
    ensures
        trim_start_by(s, whitespace_pred()).len() <= s.len(),
    decreases s.len(),
{
    if s.len() > 0 && is_whitespace(s[0]) {
        lemma_trim_start_shorter(s.drop_first());
    }
}

/// A whitespace-separated word that looks like a merge-request URL.
pub open spec fn is_mr_url_word(w: Seq<char>) -> bool {
    "http"@.is_prefix_of(w) && contains_seq(w, mr_marker())
}

/// The first whitespace-separated word of `s` (as `str::split_whitespace`
/// gives them) that looks like a merge-request URL.
pub open spec fn first_mr_url_word(s: Seq<char>) -> Option<Seq<char>>
    decreases s.len(),
{
    let t = trim_start_by(s, whitespace_pred());
    if t.len() == 0 {
        None
    } else {
        let k = word_len(t) as int;
        if is_mr_url_word(t.take(k)) {
            Some(t.take(k))
        } else {
            proof {
                lemma_trim_start_shorter(s);
                lemma_word_len_bound(t);
            }
            if k > 0 {
                first_mr_url_word(t.skip(k))
            } else {
                None
            }
        }
    }
}

/// The merge-request URL that `glab mr create` printed: the first word that
/// looks like one, without trailing `.` and `,`.
pub open spec fn created_mr_url(raw: Seq<char>) -> Option<Seq<char>> {
    match first_mr_url_word(raw) {
        Some(w) => Some(trim_end_by(w, one_of(seq!['.', ',']))),
        None => None,
    }
}

/// What `parse_mr_create_text` gives for `raw` and `request`: the detail of an
/// open merge request with the number and URL printed and the request's title
/// and branches, or the error that says what was missing.
pub open spec fn create_text_result(
    raw: Seq<char>,
    request: CreatePrRequest,
    r: Result<PullRequestDetail, GlabCliError>,
) -> bool {
    match created_mr_url(raw) {
        None => r matches Err(GlabCliError::UnexpectedOutput(m)) && m@
            == "glab mr create did not return a merge request URL; raw output: "@ + raw,
        Some(url) => match spec_parse_mr_url(url) {
            None => r matches Err(GlabCliError::UnexpectedOutput(m)) && m@
                == "Failed to parse merge request number from URL '"@ + url + "'"@,
            Some((_, iid)) => r matches Ok(d) && d.number == iid && d.url@ == url && d.status
                == MergeStatus::Open && d.merged_at.is_none() && d.merge_commit_sha.is_none()
                && d.title@ == request.title@ && d.base_branch@ == request.base_branch@
                && d.head_branch@ == request.head_branch@,
        },
    }
}

/// The first word of `v` that looks like a merge-request URL.
fn find_mr_url_word(v: &Vec<char>) -> (r: Option<Vec<char>>)
    ensures
        match r {
            Some(w) => first_mr_url_word(v@) == Some(w@),
            None => first_mr_url_word(v@).is_none(),
        },
{
    let http = chars_of("http");
    let marker = chars_of("/-/merge_requests/");
    let mut pos: usize = 0;
    assert(v@.skip(0) =~= v@);
    while pos < v.len()
        invariant
            pos <= v.len(),
            first_mr_url_word(v@.skip(pos as int)) == first_mr_url_word(v@),
            http@ == "http"@,
            marker@ == mr_marker(),
        decreases v.len() - pos,
    {
        let start = skip_whitespace(v, pos);
        let mut end = start;
        while end < v.len() && !is_whitespace_char(v[end])
            invariant
                start <= end <= v.len(),
                forall|j: int| start <= j < end ==> !is_whitespace(#[trigger] v@[j]),
            decreases v.len() - end,
        {
            end = end + 1;
        }
        let ghost s = v@.skip(pos as int);
        let ghost t = v@.skip(start as int);
        proof {
            lemma_trim_start_at(s, whitespace_pred(), start - pos);
            assert(s.skip(start - pos) =~= t);
            lemma_word_len(t, end - start);
            assert(t.take(end - start) =~= v@.subrange(start as int, end as int));
            assert(t.skip(end - start) =~= v@.skip(end as int));
        }
        if start == v.len() {
            assert(t.len() == 0);
            return None;
        }
        let word = subvec(v, start, end);
        if starts_with(&word, &http) && contains_seq_chars(&word, &marker) {
            return Some(word);
        }
        pos = end;
    }
    proof {
        let s = v@.skip(pos as int);
        assert(s.len() == 0);
        assert(trim_start_by(s, whitespace_pred()) == s);
    }
    None
}

impl GlabCli {
    /// Parse the text output of `glab mr create`, which prints the MR URL.
    pub fn parse_mr_create_text(raw: &str, request: &CreatePrRequest) -> (r: Result<
        PullRequestDetail,
        GlabCliError,
    >)
        ensures
            create_text_result(raw@, *request, r),
    {
        let v = chars_of(raw);
        let word = match find_mr_url_word(&v) {
            Some(w) => w,
            None => {
                let msg = concat_chars(
                    &chars_of("glab mr create did not return a merge request URL; raw output: "),
                    &v,
                );
                return Err(GlabCliError::UnexpectedOutput(string_of(&msg)));
            },
        };
        let mut stops: Vec<char> = Vec::new();
        stops.push('.');
        stops.push(',');
        assert(stops@ =~= seq!['.', ',']);
        let url_chars = trim_end_chars(&word, &stops);
        let url = string_of(&url_chars);
        let iid = match Self::parse_mr_url(url.as_str()) {
            Some((_, iid)) => iid,
            None => {
                let msg = concat_chars(
                    &concat_chars(
                        &chars_of("Failed to parse merge request number from URL '"),
                        &url_chars,
                    ),
                    &chars_of("'"),
                );
                return Err(GlabCliError::UnexpectedOutput(string_of(&msg)));
            },
        };
        Ok(PullRequestDetail {
            number: iid,
            url,
            status: MergeStatus::Open,
            merged_at: None,
            merge_commit_sha: None,
            title: request.title.clone(),
            base_branch: request.base_branch.clone(),
            head_branch: request.head_branch.clone(),
        })
    }
}

} // verus!
