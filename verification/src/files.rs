//! Browse and edit files inside a workspace's worktree: the decisions that
//! the file routes make, apart from the file system itself.

use vstd::prelude::*;

use crate::order::{SortOrder, stable_sort, stably_sorted};
use crate::text::{
    chars_eq, chars_le, chars_le_exec, chars_of, concat_chars, lemma_chars_le_reflexive,
    lemma_chars_le_total, lemma_chars_le_transitive, one_of, string_of, subvec, trim_end_by,
    trim_end_chars,
};
use crate::trusted::{from_utf8, lowercase, to_lowercase};

verus! {

/// Files larger than this are not editable in the browser.
pub const MAX_EDITABLE_FILE_SIZE: u64 = 2 * 1024 * 1024;

/// The `path` query of the file routes (empty when absent).
#[derive(Debug, Clone)]
pub struct FilePathQuery {
    pub path: String,
}

/// One entry of a directory listing.
#[derive(Debug, Clone)]
pub struct WorkspaceFileEntry {
    pub name: String,
    /// Path relative to the workspace root.
    pub path: String,
    pub is_dir: bool,
}

/// A file's path and text.
#[derive(Debug, Clone)]
pub struct WorkspaceFileContent {
    pub path: String,
    pub content: String,
}

/// A request to write a file.
#[derive(Debug, Clone)]
pub struct WriteWorkspaceFile {
    pub path: String,
    pub content: String,
}

/// Errors that the file routes answer with.
#[derive(Debug, Clone)]
pub enum ApiError {
    BadRequest(String),
}

/// The error `BadRequest(msg)`.
pub open spec fn bad_request(e: ApiError, msg: Seq<char>) -> bool {
    e matches ApiError::BadRequest(m) && m@ == msg
}

// ---------------------------------------------------------------------------
// The workspace root
// ---------------------------------------------------------------------------

/// The directory of a workspace, which it must have been given.
pub fn workspace_root(container_ref: &Option<String>) -> (r: Result<String, ApiError>)
    ensures
        match container_ref {
            Some(dir) => r matches Ok(root) && root@ == dir@,
            None => r matches Err(e) && bad_request(e, "Workspace has no directory yet"@),
        },
{
    match container_ref {
        Some(dir) => Ok(dir.clone()),
        None => Err(ApiError::BadRequest("Workspace has no directory yet".to_owned())),
    }
}

/// The workspace root, provided it is a directory that exists.
pub fn existing_workspace_root(root: String, is_dir: bool) -> (r: Result<String, ApiError>)
    ensures
        is_dir ==> (r matches Ok(p) && p@ == root@),
        !is_dir ==> (r matches Err(e) && bad_request(e, "Workspace directory does not exist"@)),
{
    if !is_dir {
        return Err(ApiError::BadRequest("Workspace directory does not exist".to_owned()));
    }
    Ok(root)
}

// ---------------------------------------------------------------------------
// Resolving client paths
// ---------------------------------------------------------------------------

/// The path syntax of the platform that the file routes run on.
#[derive(Debug, Clone, Copy, PartialEq, Eq, Structural)]
pub enum PathSyntax {
    /// `/` separates names.
    Unix,
    /// `/` and `\` separate names, and a path can start with a drive (`C:`).
    Windows,
}

/// `c` separates names in paths of this syntax.
pub open spec fn is_separator(syntax: PathSyntax, c: char) -> bool {
    c == '/' || (syntax == PathSyntax::Windows && c == '\\')
}

/// The separator that `PathBuf::push` puts between names.
pub open spec fn main_separator(syntax: PathSyntax) -> char {
    match syntax {
        PathSyntax::Unix => '/',
        PathSyntax::Windows => '\\',
    }
}

pub open spec fn is_ascii_letter(c: char) -> bool {
    (65 <= (c as u32) <= 90) || (97 <= (c as u32) <= 122)
}

/// `s` starts with a drive (`C:`), which Windows reads as a path prefix.
pub open spec fn has_drive_prefix(syntax: PathSyntax, s: Seq<char>) -> bool {
    syntax == PathSyntax::Windows && s.len() >= 2 && s[1] == ':' && is_ascii_letter(s[0])
}

/// `s` is a bare drive (`C:`).
pub open spec fn is_bare_drive(syntax: PathSyntax, s: Seq<char>) -> bool {
    has_drive_prefix(syntax, s) && s.len() == 2
}

/// `PathBuf::push` of a relative name: a separator is put in between unless
/// the path is empty, already ends with one, or is a bare drive.
pub open spec fn push_component(syntax: PathSyntax, path: Seq<char>, name: Seq<char>) -> Seq<char> {
    if path.len() > 0 && !is_separator(syntax, path.last()) && !is_bare_drive(syntax, path) {
        path + seq![main_separator(syntax)] + name
    } else {
        path + name
    }
}

/// A segment that the routes refuse: `..`, which goes up a directory, and, on
/// Windows, a name that starts with a drive, which `PathBuf::push` would take
/// as a path of its own.
pub open spec fn refused_segment(syntax: PathSyntax, seg: Seq<char>) -> bool {
    seg == seq!['.', '.'] || has_drive_prefix(syntax, seg)
}

/// A segment that names nothing: empty (doubled separators) or `.`.
pub open spec fn empty_segment(seg: Seq<char>) -> bool {
    seg.len() == 0 || seg == seq!['.']
}

/// `i` is the first separator in `s`.
pub open spec fn is_first_separator(syntax: PathSyntax, s: Seq<char>, i: int) -> bool {
    0 <= i < s.len() && is_separator(syntax, s[i]) && forall|j: int|
        0 <= j < i ==> !is_separator(syntax, #[trigger] s[j])
}

/// The part of `s` before its first separator and the part after it.
pub open spec fn split_at_separator(syntax: PathSyntax, s: Seq<char>) -> Option<
    (Seq<char>, Seq<char>),
> {
    if exists|i: int| is_first_separator(syntax, s, i) {
        let i = choose|i: int| is_first_separator(syntax, s, i);
        Some((s.take(i), s.skip(i + 1)))
    } else {
        None
    }
}

pub proof fn lemma_split_at_separator(syntax: PathSyntax, s: Seq<char>, i: int)
    requires
        is_first_separator(syntax, s, i),
    ensures
        split_at_separator(syntax, s) == Some((s.take(i), s.skip(i + 1))),
{
    let k = choose|k: int| is_first_separator(syntax, s, k);
    if k < i {
        assert(is_separator(syntax, s[k]));
    } else if i < k {
        assert(is_separator(syntax, s[i]));
    }
}

pub proof fn lemma_split_at_separator_shorter(syntax: PathSyntax, s: Seq<char>)
    ensures
        split_at_separator(syntax, s) matches Some((a, b)) ==> a.len() < s.len() && b.len()
            < s.len(),
{
    if split_at_separator(syntax, s) is Some {
        let i = choose|i: int| is_first_separator(syntax, s, i);
        assert(is_first_separator(syntax, s, i));
    }
}

/// The segments of `s` pushed onto `acc` in turn (empty ones and `.` skipped),
/// or nothing where one of them is refused.
pub open spec fn resolve_segments(syntax: PathSyntax, acc: Seq<char>, s: Seq<char>) -> Option<
    Seq<char>,
>
    decreases s.len(),
{
    match split_at_separator(syntax, s) {
        Some((seg, rest)) => if refused_segment(syntax, seg) {
            None
        } else {
            proof {
                lemma_split_at_separator_shorter(syntax, s);
            }
            resolve_segments(
                syntax,
                if empty_segment(seg) {
                    acc
                } else {
                    push_component(syntax, acc, seg)
                },
                rest,
            )
        },
        None => if refused_segment(syntax, s) {
            None
        } else if empty_segment(s) {
            Some(acc)
        } else {
            Some(push_component(syntax, acc, s))
        },
    }
}

/// A client-supplied relative path joined onto `root`: nothing for a path
/// that starts with a separator (absolute, or on Windows rooted or UNC), or
/// that has a refused segment (`..`, or on Windows a drive).
pub open spec fn spec_resolve_path(syntax: PathSyntax, root: Seq<char>, relative: Seq<char>) -> Option<
    Seq<char>,
> {
    if relative.len() > 0 && is_separator(syntax, relative[0]) {
        None
    } else {
        resolve_segments(syntax, root, relative)
    }
}

fn is_separator_exec(syntax: PathSyntax, c: char) -> (r: bool)
    ensures
        r == is_separator(syntax, c),
{
    c == '/' || (syntax == PathSyntax::Windows && c == '\\')
}

fn has_drive_prefix_exec(syntax: PathSyntax, s: &Vec<char>) -> (r: bool)
    ensures
        r == has_drive_prefix(syntax, s@),
{
    if syntax != PathSyntax::Windows || s.len() < 2 || s[1] != ':' {
        return false;
    }
    let u = s[0] as u32;
    (65 <= u && u <= 90) || (97 <= u && u <= 122)
}

fn is_refused_segment(syntax: PathSyntax, seg: &Vec<char>) -> (r: bool)
    ensures
        r == refused_segment(syntax, seg@),
{
    let mut parent: Vec<char> = Vec::new();
    parent.push('.');
    parent.push('.');
    assert(parent@ =~= seq!['.', '.']);
    chars_eq(seg, &parent) || has_drive_prefix_exec(syntax, seg)
}

fn split_at_separator_chars(syntax: PathSyntax, v: &Vec<char>) -> (r: Option<(Vec<char>, Vec<char>)>)
    ensures
        match r {
            Some((a, b)) => split_at_separator(syntax, v@) == Some((a@, b@)),
            None => split_at_separator(syntax, v@).is_none(),
        },
{
    let mut i: usize = 0;
    while i < v.len()
        invariant
            i <= v.len(),
            forall|j: int| 0 <= j < i ==> !is_separator(syntax, #[trigger] v@[j]),
        decreases v.len() - i,
    {
        if is_separator_exec(syntax, v[i]) {
            proof {
                lemma_split_at_separator(syntax, v@, i as int);
            }
            return Some((subvec(v, 0, i), subvec(v, i + 1, v.len())));
        }
        i = i + 1;
    }
    assert(!exists|k: int| is_first_separator(syntax, v@, k));
    None
}

fn add_segment_chars(syntax: PathSyntax, acc: Vec<char>, seg: &Vec<char>) -> (r: Vec<char>)
    ensures
        r@ == if empty_segment(seg@) {
            acc@
        } else {
            push_component(syntax, acc@, seg@)
        },
{
    let mut dot: Vec<char> = Vec::new();
    dot.push('.');
    assert(dot@ =~= seq!['.']);
    if seg.len() == 0 || chars_eq(seg, &dot) {
        return acc;
    }
    let bare_drive = acc.len() == 2 && has_drive_prefix_exec(syntax, &acc);
    if acc.len() > 0 && !is_separator_exec(syntax, acc[acc.len() - 1]) && !bare_drive {
        let mut a = acc;
        match syntax {
            PathSyntax::Unix => a.push('/'),
            PathSyntax::Windows => a.push('\\'),
        }
        concat_chars(&a, seg)
    } else {
        concat_chars(&acc, seg)
    }
}

/// Join a client-supplied relative path onto the workspace root, rejecting
/// absolute paths, drive prefixes and parent-directory traversal.
pub fn resolve_path(root: &str, relative: &str, syntax: PathSyntax) -> (r: Result<String, ApiError>)
    ensures
        match spec_resolve_path(syntax, root@, relative@) {
            Some(p) => r matches Ok(s) && s@ == p,
            None => r matches Err(e) && bad_request(e, "Invalid path: "@ + relative@),
        },
{
    let rel = chars_of(relative);
    let invalid = concat_chars(&chars_of("Invalid path: "), &rel);
    if rel.len() > 0 && is_separator_exec(syntax, rel[0]) {
        return Err(ApiError::BadRequest(string_of(&invalid)));
    }
    let mut acc = chars_of(root);
    let mut rest = rel;
    loop
        invariant
            resolve_segments(syntax, acc@, rest@) == spec_resolve_path(syntax, root@, relative@),
            invalid@ == "Invalid path: "@ + relative@,
        decreases rest.len(),
    {
        match split_at_separator_chars(syntax, &rest) {
            Some((seg, tail)) => {
                if is_refused_segment(syntax, &seg) {
                    return Err(ApiError::BadRequest(string_of(&invalid)));
                }
                proof {
                    lemma_split_at_separator_shorter(syntax, rest@);
                }
                acc = add_segment_chars(syntax, acc, &seg);
                rest = tail;
            },
            None => {
                if is_refused_segment(syntax, &rest) {
                    return Err(ApiError::BadRequest(string_of(&invalid)));
                }
                acc = add_segment_chars(syntax, acc, &rest);
                return Ok(string_of(&acc));
            },
        }
    }
}

// ---------------------------------------------------------------------------
// What resolving promises
// ---------------------------------------------------------------------------

/// `s[i..j]` is a segment of `s`: it holds no separator and is bounded by
/// separators or by the ends of `s`.
pub open spec fn segment_at(syntax: PathSyntax, s: Seq<char>, i: int, j: int) -> bool {
    &&& 0 <= i <= j <= s.len()
    &&& (i == 0 || is_separator(syntax, s[i - 1]))
    &&& (j == s.len() || is_separator(syntax, s[j]))
    &&& forall|k: int| i <= k < j ==> !is_separator(syntax, #[trigger] s[k])
}

/// `s` has a refused segment: `..`, or on Windows one that starts with a drive.
pub open spec fn has_refused_segment(syntax: PathSyntax, s: Seq<char>) -> bool {
    exists|i: int, j: int| segment_at(syntax, s, i, j) && refused_segment(syntax, s.subrange(i, j))
}

/// A name that resolving pushes: not empty, not `.`, not refused, and free of
/// separators, so that it names one entry inside the directory it is pushed
/// onto.
pub open spec fn plain_name(syntax: PathSyntax, n: Seq<char>) -> bool {
    &&& !empty_segment(n)
    &&& !refused_segment(syntax, n)
    &&& forall|k: int| 0 <= k < n.len() ==> !is_separator(syntax, #[trigger] n[k])
}

/// The segments of `s` that name something (neither empty nor `.`), in order.
pub open spec fn named_segments(syntax: PathSyntax, s: Seq<char>) -> Seq<Seq<char>>
    decreases s.len(),
{
    match split_at_separator(syntax, s) {
        Some((seg, rest)) => {
            proof {
                lemma_split_at_separator_shorter(syntax, s);
            }
            (if empty_segment(seg) {
                Seq::empty()
            } else {
                seq![seg]
            }) + named_segments(syntax, rest)
        },
        None => if empty_segment(s) {
            Seq::empty()
        } else {
            seq![s]
        },
    }
}

/// `names` pushed onto `acc` one after the other.
pub open spec fn push_all(syntax: PathSyntax, acc: Seq<char>, names: Seq<Seq<char>>) -> Seq<char>
    decreases names.len(),
{
    if names.len() == 0 {
        acc
    } else {
        push_all(syntax, push_component(syntax, acc, names[0]), names.drop_first())
    }
}

/// Where `s` holds a separator, it has a first one.
proof fn lemma_first_separator_exists(syntax: PathSyntax, s: Seq<char>, j: int) -> (i: int)
    requires
        0 <= j < s.len(),
        is_separator(syntax, s[j]),
    ensures
        is_first_separator(syntax, s, i),
    decreases j,
{
    if exists|k: int| 0 <= k < j && is_separator(syntax, #[trigger] s[k]) {
        let k = choose|k: int| 0 <= k < j && is_separator(syntax, #[trigger] s[k]);
        lemma_first_separator_exists(syntax, s, k)
    } else {
        j
    }
}

/// Without a first separator, `s` holds no separator at all.
proof fn lemma_no_separator(syntax: PathSyntax, s: Seq<char>)
    requires
        split_at_separator(syntax, s).is_none(),
    ensures
        forall|k: int| 0 <= k < s.len() ==> !is_separator(syntax, #[trigger] s[k]),
{
    assert forall|k: int| 0 <= k < s.len() implies !is_separator(syntax, #[trigger] s[k]) by {
        if is_separator(syntax, s[k]) {
            let i = lemma_first_separator_exists(syntax, s, k);
        }
    }
}

#[verifier::spinoff_prover]
#[verifier::rlimit(40)]
proof fn lemma_resolve_segments_refused(syntax: PathSyntax, acc: Seq<char>, s: Seq<char>)
    ensures
        resolve_segments(syntax, acc, s).is_none() <==> has_refused_segment(syntax, s),
    decreases s.len(),
{
    match split_at_separator(syntax, s) {
        Some((seg, rest)) => {
            let k = choose|k: int| is_first_separator(syntax, s, k);
            lemma_split_at_separator(syntax, s, k);
            assert(seg == s.take(k) && rest == s.skip(k + 1));
            lemma_split_at_separator_shorter(syntax, s);
            let next = if empty_segment(seg) {
                acc
            } else {
                push_component(syntax, acc, seg)
            };
            lemma_resolve_segments_refused(syntax, next, rest);
            if refused_segment(syntax, seg) {
                assert(segment_at(syntax, s, 0, k));
                assert(s.subrange(0, k) =~= seg);
            }
            if has_refused_segment(syntax, rest) {
                let (i, j) = choose|i: int, j: int|
                    segment_at(syntax, rest, i, j) && refused_segment(
                        syntax,
                        rest.subrange(i, j),
                    );
                assert(segment_at(syntax, s, i + k + 1, j + k + 1)) by {
                    if i > 0 {
                        assert(s[i + k] == rest[i - 1]);
                    }
                    if j < rest.len() {
                        assert(s[j + k + 1] == rest[j]);
                    }
                    assert forall|m: int| i + k + 1 <= m < j + k + 1 implies !is_separator(
                        syntax,
                        #[trigger] s[m],
                    ) by {
                        assert(s[m] == rest[m - k - 1]);
                    }
                }
                assert(s.subrange(i + k + 1, j + k + 1) =~= rest.subrange(i, j));
            }
            if has_refused_segment(syntax, s) {
                let (i, j) = choose|i: int, j: int|
                    segment_at(syntax, s, i, j) && refused_segment(syntax, s.subrange(i, j));
                if i <= k {
                    assert(i == 0) by {
                        if i > 0 {
                            assert(is_separator(syntax, s[i - 1]));
                        }
                    }
                    assert(j == k) by {
                        if j < k {
                            assert(is_separator(syntax, s[j]));
                        } else if j > k {
                            assert(!is_separator(syntax, s[k]));
                        }
                    }
                    assert(s.subrange(i, j) =~= seg);
                } else {
                    assert(segment_at(syntax, rest, i - k - 1, j - k - 1)) by {
                        if i - k - 1 > 0 {
                            assert(rest[i - k - 2] == s[i - 1]);
                        }
                        if j - k - 1 < rest.len() {
                            assert(rest[j - k - 1] == s[j]);
                        }
                        assert forall|m: int| i - k - 1 <= m < j - k - 1 implies !is_separator(
                            syntax,
                            #[trigger] rest[m],
                        ) by {
                            assert(rest[m] == s[m + k + 1]);
                        }
                    }
                    assert(rest.subrange(i - k - 1, j - k - 1) =~= s.subrange(i, j));
                }
            }
        },
        None => {
            lemma_no_separator(syntax, s);
            if refused_segment(syntax, s) {
                assert(segment_at(syntax, s, 0, s.len() as int));
                assert(s.subrange(0, s.len() as int) =~= s);
            }
            if has_refused_segment(syntax, s) {
                let (i, j) = choose|i: int, j: int|
                    segment_at(syntax, s, i, j) && refused_segment(syntax, s.subrange(i, j));
                assert(i == 0) by {
                    if i > 0 {
                        assert(is_separator(syntax, s[i - 1]));
                    }
                }
                assert(j == s.len()) by {
                    if j < s.len() {
                        assert(is_separator(syntax, s[j]));
                    }
                }
                assert(s.subrange(i, j) =~= s);
            }
        },
    }
}

/// A path is refused exactly when it starts with a separator (absolute, or on
/// Windows rooted or UNC) or has a refused segment: `..`, which goes up a
/// directory, or on Windows a drive.
pub proof fn lemma_resolve_path_refused(syntax: PathSyntax, root: Seq<char>, relative: Seq<char>)
    ensures
        spec_resolve_path(syntax, root, relative).is_none() <==> ((relative.len() > 0
            && is_separator(syntax, relative[0])) || has_refused_segment(syntax, relative)),
{
    lemma_resolve_segments_refused(syntax, root, relative);
}

proof fn lemma_resolve_segments_names(syntax: PathSyntax, acc: Seq<char>, s: Seq<char>)
    ensures
        resolve_segments(syntax, acc, s) matches Some(p) ==> {
            &&& p == push_all(syntax, acc, named_segments(syntax, s))
            &&& forall|i: int|
                0 <= i < named_segments(syntax, s).len() ==> plain_name(
                    syntax,
                    #[trigger] named_segments(syntax, s)[i],
                )
        },
    decreases s.len(),
{
    if resolve_segments(syntax, acc, s) is None {
        return;
    }
    let names = named_segments(syntax, s);
    match split_at_separator(syntax, s) {
        Some((seg, rest)) => {
            let k = choose|k: int| is_first_separator(syntax, s, k);
            lemma_split_at_separator(syntax, s, k);
            lemma_split_at_separator_shorter(syntax, s);
            let next = if empty_segment(seg) {
                acc
            } else {
                push_component(syntax, acc, seg)
            };
            lemma_resolve_segments_names(syntax, next, rest);
            assert(resolve_segments(syntax, acc, s) == resolve_segments(syntax, next, rest));
            let tail = named_segments(syntax, rest);
            if empty_segment(seg) {
                assert(names =~= tail);
            } else {
                assert(names =~= seq![seg] + tail);
                assert(names[0] == seg);
                assert(names.drop_first() =~= tail);
                assert(plain_name(syntax, seg)) by {
                    assert forall|m: int| 0 <= m < seg.len() implies !is_separator(
                        syntax,
                        #[trigger] seg[m],
                    ) by {
                        assert(seg[m] == s[m]);
                    }
                }
                assert forall|i: int| 0 <= i < names.len() implies plain_name(
                    syntax,
                    #[trigger] names[i],
                ) by {
                    if i > 0 {
                        assert(names[i] == tail[i - 1]);
                    }
                }
            }
        },
        None => {
            lemma_no_separator(syntax, s);
            if empty_segment(s) {
                assert(names =~= Seq::<Seq<char>>::empty());
            } else {
                assert(names =~= seq![s]);
                assert(names.drop_first() =~= Seq::<Seq<char>>::empty());
                assert(push_all(syntax, acc, names) == push_all(
                    syntax,
                    push_component(syntax, acc, s),
                    Seq::<Seq<char>>::empty(),
                ));
                assert(plain_name(syntax, names[0]));
            }
        },
    }
}

/// What a path resolves to is the root with the path's named segments pushed
/// onto it in order, and each of them is a plain name: not empty, not `.` or
/// `..`, not a drive, without separators. So the result never leaves the root.
pub proof fn lemma_resolve_path_names(syntax: PathSyntax, root: Seq<char>, relative: Seq<char>)
    ensures
        spec_resolve_path(syntax, root, relative) matches Some(p) ==> {
            &&& p == push_all(syntax, root, named_segments(syntax, relative))
            &&& forall|i: int|
                0 <= i < named_segments(syntax, relative).len() ==> plain_name(
                    syntax,
                    #[trigger] named_segments(syntax, relative)[i],
                )
        },
{
    lemma_resolve_segments_names(syntax, root, relative);
}

proof fn lemma_push_all_extends(syntax: PathSyntax, acc: Seq<char>, names: Seq<Seq<char>>)
    ensures
        acc.is_prefix_of(push_all(syntax, acc, names)),
    decreases names.len(),
{
    if names.len() > 0 {
        let next = push_component(syntax, acc, names[0]);
        lemma_push_all_extends(syntax, next, names.drop_first());
        let p = push_all(syntax, acc, names);
        assert forall|i: int| 0 <= i < acc.len() implies acc[i] == p[i] by {
            assert(next[i] == acc[i]);
        }
    }
}

/// What a path resolves to starts with the root.
pub proof fn lemma_resolve_path_under_root(syntax: PathSyntax, root: Seq<char>, relative: Seq<char>)
    ensures
        spec_resolve_path(syntax, root, relative) matches Some(p) ==> root.is_prefix_of(p),
{
    lemma_resolve_path_names(syntax, root, relative);
    lemma_push_all_extends(syntax, root, named_segments(syntax, relative));
}

// ---------------------------------------------------------------------------
// Directory listings
// ---------------------------------------------------------------------------

/// Entries sort directories first, then by lowercased name.
impl SortOrder for WorkspaceFileEntry {
    open spec fn ordered(a: Self, b: Self) -> bool {
        (a.is_dir && !b.is_dir) || (a.is_dir == b.is_dir && chars_le(
            lowercase(a.name@),
            lowercase(b.name@),
        ))
    }

    proof fn lemma_ordered_reflexive(a: Self) {
        lemma_chars_le_reflexive(lowercase(a.name@));
    }

    proof fn lemma_ordered_transitive(a: Self, b: Self, c: Self) {
        if a.is_dir == b.is_dir && b.is_dir == c.is_dir {
            lemma_chars_le_transitive(lowercase(a.name@), lowercase(b.name@), lowercase(c.name@));
        }
    }

    proof fn lemma_ordered_total(a: Self, b: Self) {
        lemma_chars_le_total(lowercase(a.name@), lowercase(b.name@));
    }

    fn is_ordered_before(&self, other: &Self) -> (r: bool) {
        if self.is_dir != other.is_dir {
            return self.is_dir;
        }
        let a = chars_of(to_lowercase(self.name.as_str()).as_str());
        let b = chars_of(to_lowercase(other.name.as_str()).as_str());
        chars_le_exec(&a, &b)
    }
}

/// A directory query that names the workspace root itself: every segment of
/// it is empty or `.` (the empty query, `.`, `./`, ...).
pub open spec fn resolves_to_root(syntax: PathSyntax, query: Seq<char>) -> bool {
    named_segments(syntax, query).len() == 0
}

/// The entry that a listing of the root leaves out: the git object store.
pub open spec fn is_hidden_entry(syntax: PathSyntax, query: Seq<char>, name: Seq<char>) -> bool {
    resolves_to_root(syntax, query) && name == ".git"@
}

fn is_empty_segment(seg: &Vec<char>) -> (r: bool)
    ensures
        r == empty_segment(seg@),
{
    let mut dot: Vec<char> = Vec::new();
    dot.push('.');
    assert(dot@ =~= seq!['.']);
    seg.len() == 0 || chars_eq(seg, &dot)
}

/// Whether a directory query names the workspace root itself.
pub fn query_names_root(query: &Vec<char>, syntax: PathSyntax) -> (r: bool)
    ensures
        r == resolves_to_root(syntax, query@),
{
    let mut rest = subvec(query, 0, query.len());
    assert(rest@ =~= query@);
    loop
        invariant
            resolves_to_root(syntax, rest@) == resolves_to_root(syntax, query@),
        decreases rest.len(),
    {
        match split_at_separator_chars(syntax, &rest) {
            Some((seg, tail)) => {
                proof {
                    lemma_split_at_separator_shorter(syntax, rest@);
                }
                if !is_empty_segment(&seg) {
                    return false;
                }
                rest = tail;
            },
            None => {
                return is_empty_segment(&rest);
            },
        }
    }
}

/// The path of entry `name` in the directory `query` (relative to the root).
pub open spec fn entry_path(query: Seq<char>, name: Seq<char>) -> Seq<char> {
    if query.len() == 0 {
        name
    } else {
        trim_end_by(query, one_of(seq!['/'])) + seq!['/'] + name
    }
}

/// The `(name, is_dir)` pairs of a directory that a listing shows, in order.
pub open spec fn shown_items(syntax: PathSyntax, query: Seq<char>, items: Seq<(String, bool)>) -> Seq<
    (String, bool),
>
    decreases items.len(),
{
    if items.len() == 0 {
        Seq::empty()
    } else if is_hidden_entry(syntax, query, items.last().0@) {
        shown_items(syntax, query, items.drop_last())
    } else {
        shown_items(syntax, query, items.drop_last()).push(items.last())
    }
}

/// `e` is the listing entry of `item` in the directory `query`.
pub open spec fn entry_of(query: Seq<char>, item: (String, bool), e: WorkspaceFileEntry) -> bool {
    &&& e.name@ == item.0@
    &&& e.path@ == entry_path(query, item.0@)
    &&& e.is_dir == item.1
}

/// `es` are the entries of `items`, one for one.
pub open spec fn entries_for(
    query: Seq<char>,
    items: Seq<(String, bool)>,
    es: Seq<WorkspaceFileEntry>,
) -> bool {
    &&& es.len() == items.len()
    &&& forall|i: int| 0 <= i < items.len() ==> entry_of(query, #[trigger] items[i], es[i])
}

/// The listing entry for `name` in the directory `query`, unless it is the
/// git object store at the root.
pub fn listing_entry(query_path: &str, name: String, is_dir: bool, syntax: PathSyntax) -> (r: Option<
    WorkspaceFileEntry,
>)
    ensures
        is_hidden_entry(syntax, query_path@, name@) ==> r is None,
        !is_hidden_entry(syntax, query_path@, name@) ==> (r matches Some(e) && entry_of(
            query_path@,
            (name, is_dir),
            e,
        )),
{
    let query = chars_of(query_path);
    let n = chars_of(name.as_str());
    if query_names_root(&query, syntax) && chars_eq(&n, &chars_of(".git")) {
        return None;
    }
    let path = if query.len() == 0 {
        name.clone()
    } else {
        let mut slash: Vec<char> = Vec::new();
        slash.push('/');
        assert(slash@ =~= seq!['/']);
        let mut p = trim_end_chars(&query, &slash);
        p.push('/');
        let full = concat_chars(&p, &n);
        assert(full@ =~= trim_end_by(query@, one_of(seq!['/'])) + seq!['/'] + n@);
        string_of(&full)
    };
    Some(WorkspaceFileEntry { name, path, is_dir })
}

/// The listing of a directory `query` from its `(name, is_dir)` pairs: the
/// git object store left out at the root, directories first, then by
/// lowercased name, otherwise in the order given.
pub fn list_entries(query_path: &str, items: Vec<(String, bool)>, syntax: PathSyntax) -> (r: Vec<
    WorkspaceFileEntry,
>)
    ensures
        exists|pre: Seq<WorkspaceFileEntry>|
            entries_for(query_path@, shown_items(syntax, query_path@, items@), pre) && stably_sorted(
                pre,
                r@,
            ),
{
    let ghost input = items@;
    let mut rest = items;
    let mut es: Vec<WorkspaceFileEntry> = Vec::new();
    let ghost mut done: int = 0;
    assert(input.skip(0) =~= input);
    assert(input.take(0) =~= Seq::<(String, bool)>::empty());
    while rest.len() > 0
        invariant
            0 <= done <= input.len(),
            rest@ == input.skip(done),
            entries_for(query_path@, shown_items(syntax, query_path@, input.take(done)), es@),
        decreases rest.len(),
    {
        let (name, is_dir) = rest.remove(0);
        let ghost item = (name, is_dir);
        let ghost before = shown_items(syntax, query_path@, input.take(done));
        proof {
            assert(input.skip(done + 1) =~= input.skip(done).remove(0));
            assert(input.take(done + 1).drop_last() =~= input.take(done));
            assert(input.take(done + 1).last() == item);
        }
        match listing_entry(query_path, name, is_dir, syntax) {
            Some(e) => {
                let ghost old_es = es@;
                es.push(e);
                proof {
                    let now = shown_items(syntax, query_path@, input.take(done + 1));
                    assert(now =~= before.push(item));
                    assert forall|i: int| 0 <= i < now.len() implies entry_of(
                        query_path@,
                        #[trigger] now[i],
                        es@[i],
                    ) by {
                        if i < now.len() - 1 {
                            assert(now[i] == before[i]);
                            assert(es@[i] == old_es[i]);
                        }
                    }
                }
            },
            None => {
                proof {
                    assert(shown_items(syntax, query_path@, input.take(done + 1)) =~= before);
                }
            },
        }
        proof {
            done = done + 1;
        }
    }
    proof {
        assert(input.take(done) =~= input);
    }
    let ghost pre = es@;
    let r = stable_sort(es);
    assert(entries_for(query_path@, shown_items(syntax, query_path@, input), pre) && stably_sorted(pre, r@));
    r
}

// ---------------------------------------------------------------------------
// Reading and writing files
// ---------------------------------------------------------------------------

/// Whether a path with the given kind and size may be opened in the editor:
/// not a directory, and no larger than `MAX_EDITABLE_FILE_SIZE`.
pub fn check_readable(is_dir: bool, len: u64) -> (r: Result<(), ApiError>)
    ensures
        is_dir ==> (r matches Err(e) && bad_request(e, "Path is a directory"@)),
        !is_dir && len > MAX_EDITABLE_FILE_SIZE ==> (r matches Err(e) && bad_request(
            e,
            "File is too large to edit in the browser"@,
        )),
        !is_dir && len <= MAX_EDITABLE_FILE_SIZE ==> r is Ok,
{
    if is_dir {
        return Err(ApiError::BadRequest("Path is a directory".to_owned()));
    }
    if len > MAX_EDITABLE_FILE_SIZE {
        return Err(ApiError::BadRequest("File is too large to edit in the browser".to_owned()));
    }
    Ok(())
}

/// The text of a file that was read: its bytes decoded as UTF-8, which they
/// must be.
pub fn file_content(path: String, bytes: Vec<u8>) -> (r: Result<WorkspaceFileContent, ApiError>)
    ensures
        vstd::utf8::valid_utf8(bytes@) ==> (r matches Ok(c) && c.path@ == path@ && c.content@
            == vstd::utf8::decode_utf8(bytes@)),
        !vstd::utf8::valid_utf8(bytes@) ==> (r matches Err(e) && bad_request(
            e,
            "File is not valid UTF-8 text"@,
        )),
{
    match from_utf8(bytes) {
        Some(content) => Ok(WorkspaceFileContent { path, content }),
        None => Err(ApiError::BadRequest("File is not valid UTF-8 text".to_owned())),
    }
}

/// Whether a path may be written: not a directory.
pub fn check_writable(is_dir: bool) -> (r: Result<(), ApiError>)
    ensures
        is_dir ==> (r matches Err(e) && bad_request(e, "Path is a directory"@)),
        !is_dir ==> r is Ok,
{
    if is_dir {
        return Err(ApiError::BadRequest("Path is a directory".to_owned()));
    }
    Ok(())
}

// ---------------------------------------------------------------------------
// What a listing leaves out
// ---------------------------------------------------------------------------

/// A listing leaves an entry out only where it is the git object store of the
/// root: `listing_entry` gives no entry exactly when the query names the root
/// and the name is `.git` itself. Every other name, such as `.gitignore` or
/// `.gitlab-ci.yml`, gets its entry, under its own name.
pub proof fn lemma_listing_hides_only_git(
    syntax: PathSyntax,
    query: Seq<char>,
    name: String,
    is_dir: bool,
    r: Option<WorkspaceFileEntry>,
)
    requires
        is_hidden_entry(syntax, query, name@) ==> r is None,
        !is_hidden_entry(syntax, query, name@) ==> (r matches Some(e) && entry_of(
            query,
            (name, is_dir),
            e,
        )),
    ensures
        r is None <==> (resolves_to_root(syntax, query) && name@ == ".git"@),
        name@ != ".git"@ ==> (r matches Some(e) && e.name@ == name@ && e.is_dir == is_dir),
        !resolves_to_root(syntax, query) ==> r is Some,
{
}

/// Of a directory's items, a listing shows every one but the git object
/// store of the root: each item not named `.git`, and at a query that is not
/// the root each item at all, is shown; at the root no shown item is named
/// `.git`.
pub proof fn lemma_shown_items_keep_all_but_git(
    syntax: PathSyntax,
    query: Seq<char>,
    items: Seq<(String, bool)>,
)
    ensures
        forall|i: int|
            0 <= i < items.len() && (items[i].0@ != ".git"@ || !resolves_to_root(syntax, query))
                ==> shown_items(syntax, query, items).contains(#[trigger] items[i]),
        resolves_to_root(syntax, query) ==> forall|j: int|
            0 <= j < shown_items(syntax, query, items).len() ==> (#[trigger] shown_items(
                syntax,
                query,
                items,
            )[j]).0@ != ".git"@,
    decreases items.len(),
{
    if items.len() > 0 {
        let init = items.drop_last();
        lemma_shown_items_keep_all_but_git(syntax, query, init);
        let prev = shown_items(syntax, query, init);
        let cur = shown_items(syntax, query, items);
        assert forall|i: int|
            0 <= i < items.len() && (items[i].0@ != ".git"@ || !resolves_to_root(syntax, query))
                implies cur.contains(#[trigger] items[i]) by {
            if i < items.len() - 1 {
                assert(items[i] == init[i]);
                assert(prev.contains(init[i]));
                let k = choose|k: int| 0 <= k < prev.len() && prev[k] == init[i];
                if !is_hidden_entry(syntax, query, items.last().0@) {
                    assert(cur[k] == prev[k]);
                }
            } else {
                assert(cur[prev.len() as int] == items.last());
            }
        }
        if resolves_to_root(syntax, query) {
            assert forall|j: int| 0 <= j < cur.len() implies (#[trigger] cur[j]).0@ != ".git"@ by {
                if j < prev.len() {
                    if !is_hidden_entry(syntax, query, items.last().0@) {
                        assert(cur[j] == prev[j]);
                    }
                }
            }
        }
    }
}

} // verus!
