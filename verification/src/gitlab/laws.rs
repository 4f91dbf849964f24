//! What reading `glab`'s output promises over all inputs: which commit a
//! merge request reports, that comments keep their text, and that telling an
//! authentication failure apart does not depend on letter case.

use vstd::prelude::*;

use crate::gitlab::cli::{GlabCliError, failure_of};
use crate::gitlab::output::{GlabMrResponse, GlabNote, comment_of, comments_for_times, detail_of};
use crate::text::{ascii_lower, ascii_lowercase, is_whitespace, trim, trim_end_by, trim_start_by,
    whitespace_pred};
use crate::types::{PullRequestDetail, Timestamp, UnifiedPrComment};

verus! {

// ---------------------------------------------------------------------------
// The commit a merge request reports
// ---------------------------------------------------------------------------

/// The commit that a merge request's detail reports is its merge commit
/// wherever it has one, and its squash commit only where it has none.
pub proof fn lemma_detail_prefers_merge_commit(mr: GlabMrResponse, d: PullRequestDetail)
    requires
        detail_of(mr, d),
    ensures
        mr.merge_commit_sha matches Some(s) ==> d.merge_commit_sha == Some(s),
        mr.merge_commit_sha is None ==> d.merge_commit_sha == mr.squash_commit_sha,
        d.merge_commit_sha is None <==> (mr.merge_commit_sha is None
            && mr.squash_commit_sha is None),
{
}

// ---------------------------------------------------------------------------
// Comments keep their text
// ---------------------------------------------------------------------------

/// The text of a comment, general or on a line.
pub open spec fn comment_text(c: UnifiedPrComment) -> Seq<char> {
    match c {
        UnifiedPrComment::General { body, .. } => body@,
        UnifiedPrComment::Review { body, .. } => body@,
    }
}

/// Every comment, general or on a line, carries its note's text unchanged;
/// it is empty only where the note has no text.
pub proof fn lemma_comment_keeps_text(n: GlabNote, now: Timestamp, c: UnifiedPrComment)
    requires
        comment_of(n, now, c),
    ensures
        n.body matches Some(b) ==> comment_text(c) == b@,
        n.body is None ==> comment_text(c).len() == 0,
{
}

/// In a run of comments made one for one from notes, each comment carries
/// the text of its own note.
pub proof fn lemma_comments_keep_text(
    notes: Seq<GlabNote>,
    times: Seq<Timestamp>,
    cs: Seq<UnifiedPrComment>,
)
    requires
        comments_for_times(notes, times, cs),
    ensures
        forall|i: int|
            0 <= i < notes.len() ==> ((#[trigger] notes[i]).body matches Some(b) ==> comment_text(
                cs[i],
            ) == b@),
        forall|i: int|
            0 <= i < notes.len() ==> (#[trigger] notes[i]).body is None ==> comment_text(
                cs[i],
            ).len() == 0,
{
    assert forall|i: int| 0 <= i < notes.len() implies ((#[trigger] notes[i]).body matches Some(b)
        ==> comment_text(cs[i]) == b@) by {
        lemma_comment_keeps_text(notes[i], times[i], cs[i]);
    }
    assert forall|i: int| 0 <= i < notes.len() implies (#[trigger] notes[i]).body is None
        ==> comment_text(cs[i]).len() == 0 by {
        lemma_comment_keeps_text(notes[i], times[i], cs[i]);
    }
}

// ---------------------------------------------------------------------------
// Authentication failures, in any letter case
// ---------------------------------------------------------------------------

proof fn lemma_lower_keeps_whitespace(c: char)
    ensures
        is_whitespace(ascii_lower(c)) == is_whitespace(c),
{
    if 65 <= (c as u32) <= 90 {
        assert(97 <= (c as u32) + 32 <= 122);
        assert((((c as u32) + 32) as char) as u32 == (c as u32) + 32);
    }
}

proof fn lemma_trim_start_lower(s: Seq<char>)
    ensures
        trim_start_by(ascii_lowercase(s), whitespace_pred()) == ascii_lowercase(
            trim_start_by(s, whitespace_pred()),
        ),
    decreases s.len(),
{
    if s.len() > 0 {
        lemma_lower_keeps_whitespace(s[0]);
        assert(ascii_lowercase(s).drop_first() =~= ascii_lowercase(s.drop_first()));
        lemma_trim_start_lower(s.drop_first());
    }
}

proof fn lemma_trim_end_lower(s: Seq<char>)
    ensures
        trim_end_by(ascii_lowercase(s), whitespace_pred()) == ascii_lowercase(
            trim_end_by(s, whitespace_pred()),
        ),
    decreases s.len(),
{
    if s.len() > 0 {
        lemma_lower_keeps_whitespace(s.last());
        assert(ascii_lowercase(s).drop_last() =~= ascii_lowercase(s.drop_last()));
        lemma_trim_end_lower(s.drop_last());
    }
}

/// Lowercasing and trimming can be done in either order.
proof fn lemma_trim_lower(s: Seq<char>)
    ensures
        trim(ascii_lowercase(s)) == ascii_lowercase(trim(s)),
{
    lemma_trim_start_lower(s);
    lemma_trim_end_lower(trim_start_by(s, whitespace_pred()));
}

/// Whether a failed `glab` run counts as an authentication failure does not
/// depend on the letter case of its error output: two outputs that are equal
/// once ASCII-lowercased (such as `Error: Unauthorized` and
/// `error: unauthorized`) are both authentication failures or neither is.
pub proof fn lemma_auth_failure_ignores_case(
    s1: Seq<char>,
    s2: Seq<char>,
    e1: GlabCliError,
    e2: GlabCliError,
)
    requires
        ascii_lowercase(s1) == ascii_lowercase(s2),
        failure_of(s1, e1),
        failure_of(s2, e2),
    ensures
        (e1 is AuthFailed) <==> (e2 is AuthFailed),
        (e1 is CommandFailed) <==> (e2 is CommandFailed),
{
    lemma_trim_lower(s1);
    lemma_trim_lower(s2);
}

/// An error output and its ASCII-lowercased form are classified alike.
pub proof fn lemma_auth_failure_lowercased(s: Seq<char>, e1: GlabCliError, e2: GlabCliError)
    requires
        failure_of(s, e1),
        failure_of(ascii_lowercase(s), e2),
    ensures
        (e1 is AuthFailed) <==> (e2 is AuthFailed),
{
    assert(ascii_lowercase(ascii_lowercase(s)) =~= ascii_lowercase(s)) by {
        assert forall|i: int| 0 <= i < s.len() implies ascii_lower(ascii_lower(s[i])) == ascii_lower(
            s[i],
        ) by {
            let c = s[i];
            if 65 <= (c as u32) <= 90 {
                assert((((c as u32) + 32) as char) as u32 == (c as u32) + 32);
            }
        }
    }
    lemma_auth_failure_ignores_case(s, ascii_lowercase(s), e1, e2);
}

/// Trimming whitespace keeps every character from the first one that is not
/// whitespace on: the trimmed start is at or before it.
proof fn lemma_trim_start_keeps(s: Seq<char>, m: int) -> (k: int)
    requires
        0 <= m < s.len(),
        !is_whitespace(s[m]),
    ensures
        0 <= k <= m,
        trim_start_by(s, whitespace_pred()) == s.skip(k),
    decreases m,
{
    if is_whitespace(s[0]) {
        let k1 = lemma_trim_start_keeps(s.drop_first(), m - 1);
        assert(s.drop_first().skip(k1) =~= s.skip(k1 + 1));
        k1 + 1
    } else {
        assert(s.skip(0) =~= s);
        0
    }
}

/// Trimming whitespace keeps every character up to the last one that is not
/// whitespace: the trimmed end is after it.
proof fn lemma_trim_end_keeps(s: Seq<char>, m: int) -> (k: int)
    requires
        0 <= m < s.len(),
        !is_whitespace(s[m]),
    ensures
        m < k <= s.len(),
        trim_end_by(s, whitespace_pred()) == s.take(k),
    decreases s.len(),
{
    if is_whitespace(s.last()) {
        let k1 = lemma_trim_end_keeps(s.drop_last(), m);
        assert(s.drop_last().take(k1) =~= s.take(k1));
        k1
    } else {
        assert(s.take(s.len() as int) =~= s);
        s.len() as int
    }
}

/// The phrases by which `glab` says that authentication is missing or was
/// refused, in lower case.
pub open spec fn is_auth_phrase(q: Seq<char>) -> bool {
    ||| q == "glab auth login"@
    ||| q == "not authenticated"@
    ||| q == "authentication"@
    ||| q == "unauthorized"@
    ||| q == "401"@
    ||| q == "token is invalid"@
}

proof fn lemma_auth_phrase_ends(q: Seq<char>)
    requires
        is_auth_phrase(q),
    ensures
        q.len() > 0,
        !is_whitespace(q[0]),
        !is_whitespace(q.last()),
{
    reveal_strlit("glab auth login");
    reveal_strlit("not authenticated");
    reveal_strlit("authentication");
    reveal_strlit("unauthorized");
    reveal_strlit("401");
    reveal_strlit("token is invalid");
}

/// An error output that mentions authentication in any letter case, with
/// anything around it, is an authentication failure: where `p` is one of the
/// phrases `glab` uses (`Unauthorized`, `UNAUTHORIZED`, `401`, `glab auth
/// login`, ...), the output `a + p + b` gives `AuthFailed`.
pub proof fn lemma_auth_phrase_fails_auth(
    a: Seq<char>,
    p: Seq<char>,
    b: Seq<char>,
    e: GlabCliError,
)
    requires
        is_auth_phrase(ascii_lowercase(p)),
        failure_of(a + p + b, e),
    ensures
        e is AuthFailed,
{
    let q = ascii_lowercase(p);
    lemma_auth_phrase_ends(q);
    let s = a + p + b;
    let first = a.len() as int;
    let last = a.len() + p.len() - 1;
    lemma_lower_keeps_whitespace(p[0]);
    lemma_lower_keeps_whitespace(p[p.len() - 1]);
    assert(s[first] == p[0]);
    assert(s[last] == p[p.len() - 1]);
    let k1 = lemma_trim_start_keeps(s, first);
    let t = s.skip(k1);
    assert(t[last - k1] == s[last]);
    let k2 = lemma_trim_end_keeps(t, last - k1);
    let msg = trim(s);
    assert(msg == t.take(k2));
    let at = first - k1;
    assert(msg.subrange(at, at + p.len()) =~= p);
    let lower = ascii_lowercase(msg);
    assert(lower.subrange(at, at + q.len()) =~= q);
    assert(crate::text::occurs_at(lower, q, at));
    assert(crate::gitlab::cli::mentions_auth_failure(lower));
}

} // verus!
