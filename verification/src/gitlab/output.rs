//! Reading what `glab` prints as JSON, once decoded: merge requests and the
//! discussions of a merge request.

use vstd::prelude::*;

use crate::gitlab::cli::GlabCli;
use crate::order::{stable_sort, stably_sorted};
use crate::text::{ascii_lowercase, chars_eq, chars_of, decimal, decimal_chars, string_of};
use crate::trusted::{lowercase, parse_rfc3339, rfc3339_instant, to_lowercase};
use crate::types::{MergeStatus, PullRequestDetail, Timestamp, UnifiedPrComment, is_clock_reading};

verus! {

// ---------------------------------------------------------------------------
// Reading merge requests
// ---------------------------------------------------------------------------

/// A merge request as `glab mr view/list --output json` describes it.
#[derive(Debug)]
pub struct GlabMrResponse {
    pub iid: i64,
    pub web_url: String,
    pub state: Option<String>,
    pub merged_at: Option<String>,
    pub merge_commit_sha: Option<String>,
    pub squash_commit_sha: Option<String>,
    pub title: Option<String>,
    pub source_branch: Option<String>,
    pub target_branch: Option<String>,
}

/// The status that a lowercased GitLab state names.
pub open spec fn status_of_state(lower: Seq<char>) -> MergeStatus {
    if lower == "opened"@ || lower == "locked"@ {
        MergeStatus::Open
    } else if lower == "merged"@ {
        MergeStatus::Merged
    } else if lower == "closed"@ {
        MergeStatus::Closed
    } else {
        MergeStatus::Unknown
    }
}

/// The text of an optional string, empty where there is none.
pub open spec fn text_or_empty(s: Option<String>) -> Seq<char> {
    match s {
        Some(t) => t@,
        None => Seq::empty(),
    }
}

/// The instant that an optional RFC 3339 string names, if any.
pub open spec fn instant_of(s: Option<String>) -> Option<Timestamp> {
    match s {
        Some(t) => match rfc3339_instant(t@) {
            Some((secs, nanos)) => Some(Timestamp { secs, nanos }),
            None => None,
        },
        None => None,
    }
}

/// `d` is the detail of the merge request `mr`: same number and URL, the
/// status its state names (`opened` when it has none), its merge time where
/// that is a valid RFC 3339 time, its merge commit (or else its squash commit),
/// and its title and branches (empty where missing).
pub open spec fn detail_of(mr: GlabMrResponse, d: PullRequestDetail) -> bool {
    &&& d.number == mr.iid
    &&& d.url@ == mr.web_url@
    &&& d.status == status_of_state(
        lowercase(
            match mr.state {
                Some(s) => s@,
                None => "opened"@,
            },
        ),
    )
    &&& d.merged_at == instant_of(mr.merged_at)
    &&& d.merge_commit_sha == if mr.merge_commit_sha is Some {
        mr.merge_commit_sha
    } else {
        mr.squash_commit_sha
    }
    &&& d.title@ == text_or_empty(mr.title)
    &&& d.base_branch@ == text_or_empty(mr.target_branch)
    &&& d.head_branch@ == text_or_empty(mr.source_branch)
}

fn string_or_empty(s: Option<String>) -> (r: String)
    ensures
        r@ == text_or_empty(s),
{
    match s {
        Some(t) => t,
        None => String::new(),
    }
}

/// The instant named by an optional RFC 3339 string.
fn parse_instant(s: &Option<String>) -> (r: Option<Timestamp>)
    ensures
        r == instant_of(*s),
{
    match s {
        Some(t) => parse_rfc3339(t.as_str()),
        None => None,
    }
}

impl GlabCli {
    /// The status that an already lowercased GitLab state names.
    pub fn status_from_lowercase(lower: &str) -> (s: MergeStatus)
        ensures
            s == status_of_state(lower@),
    {
        let v = chars_of(lower);
        if chars_eq(&v, &chars_of("opened")) || chars_eq(&v, &chars_of("locked")) {
            MergeStatus::Open
        } else if chars_eq(&v, &chars_of("merged")) {
            MergeStatus::Merged
        } else if chars_eq(&v, &chars_of("closed")) {
            MergeStatus::Closed
        } else {
            MergeStatus::Unknown
        }
    }

    /// Map GitLab MR state to MergeStatus
    pub fn map_gitlab_state(state: &str) -> (s: MergeStatus)
        ensures
            s == status_of_state(lowercase(state@)),
            (forall|i: int| 0 <= i < state@.len() ==> (state@[i] as u32) < 128) ==> s
                == status_of_state(ascii_lowercase(state@)),
    {
        let lower = to_lowercase(state);
        Self::status_from_lowercase(lower.as_str())
    }

    /// The detail of a merge request as `glab` described it.
    pub fn mr_to_detail(mr: GlabMrResponse) -> (d: PullRequestDetail)
        ensures
            detail_of(mr, d),
    {
        let status = match &mr.state {
            Some(s) => Self::map_gitlab_state(s.as_str()),
            None => Self::map_gitlab_state("opened"),
        };
        let merged_at = parse_instant(&mr.merged_at);
        let merge_commit_sha = match mr.merge_commit_sha {
            Some(sha) => Some(sha),
            None => mr.squash_commit_sha,
        };
        PullRequestDetail {
            number: mr.iid,
            url: mr.web_url,
            status,
            merged_at,
            merge_commit_sha,
            title: string_or_empty(mr.title),
            base_branch: string_or_empty(mr.target_branch),
            head_branch: string_or_empty(mr.source_branch),
        }
    }

    /// The details of a list of merge requests, in order.
    pub fn mrs_to_details(mrs: Vec<GlabMrResponse>) -> (ds: Vec<PullRequestDetail>)
        ensures
            ds.len() == mrs.len(),
            forall|i: int| 0 <= i < mrs.len() ==> detail_of(#[trigger] mrs@[i], ds@[i]),
    {
        let ghost input = mrs@;
        let mut rest = mrs;
        let mut ds: Vec<PullRequestDetail> = Vec::new();
        let ghost mut done: int = 0;
        assert(input.skip(0) =~= input);
        while rest.len() > 0
            invariant
                0 <= done <= input.len(),
                rest@ == input.skip(done),
                ds.len() == done,
                forall|i: int| 0 <= i < done ==> detail_of(#[trigger] input[i], ds@[i]),
            decreases rest.len(),
        {
            let mr = rest.remove(0);
            ds.push(Self::mr_to_detail(mr));
            proof {
                assert(input.skip(done + 1) =~= input.skip(done).remove(0));
                done = done + 1;
            }
        }
        ds
    }
}

// ---------------------------------------------------------------------------
// Reading discussions
// ---------------------------------------------------------------------------

/// A discussion thread as the REST API describes it.
#[derive(Debug)]
pub struct GlabDiscussion {
    pub notes: Option<Vec<GlabNote>>,
}

/// One note of a discussion.
#[derive(Debug)]
pub struct GlabNote {
    pub id: Option<i64>,
    pub author: Option<GlabAuthor>,
    pub body: Option<String>,
    pub created_at: Option<String>,
    pub system: Option<bool>,
    pub position: Option<GlabNotePosition>,
}

#[derive(Debug)]
pub struct GlabAuthor {
    pub username: Option<String>,
}

/// Where in the diff a note was made.
#[derive(Debug)]
pub struct GlabNotePosition {
    pub new_path: Option<String>,
    pub old_path: Option<String>,
    pub new_line: Option<i64>,
    pub old_line: Option<i64>,
}

/// A note that GitLab generated itself (branch pushes, status changes, ...).
pub open spec fn is_system_note(n: GlabNote) -> bool {
    n.system == Some(true)
}

/// The notes of `notes` that people wrote, in order.
pub open spec fn written_notes(notes: Seq<GlabNote>) -> Seq<GlabNote>
    decreases notes.len(),
{
    if notes.len() == 0 {
        Seq::empty()
    } else if is_system_note(notes.last()) {
        written_notes(notes.drop_last())
    } else {
        written_notes(notes.drop_last()).push(notes.last())
    }
}

/// The notes that people wrote in a list of discussions, thread after thread.
pub open spec fn visible_notes(ds: Seq<GlabDiscussion>) -> Seq<GlabNote>
    decreases ds.len(),
{
    if ds.len() == 0 {
        Seq::empty()
    } else {
        visible_notes(ds.drop_last()) + match ds.last().notes {
            Some(ns) => written_notes(ns@),
            None => Seq::empty(),
        }
    }
}

/// A note's author: the username, `unknown` where there is none.
pub open spec fn author_of(n: GlabNote) -> Seq<char> {
    match n.author {
        Some(a) => match a.username {
            Some(u) => u@,
            None => "unknown"@,
        },
        None => "unknown"@,
    }
}

/// A note's file: the new path, or else the old one.
pub open spec fn path_of(n: GlabNote) -> Option<String> {
    match n.position {
        Some(p) => if p.new_path is Some {
            p.new_path
        } else {
            p.old_path
        },
        None => None,
    }
}

/// When a note was written: its time where that is a valid RFC 3339 time,
/// otherwise `now`.
pub open spec fn note_time(n: GlabNote, now: Timestamp) -> Timestamp {
    match instant_of(n.created_at) {
        Some(t) => t,
        None => now,
    }
}

/// `c` is the comment for note `n` (with `now` standing for a missing time):
/// a review comment on the note's file (the new line and side `RIGHT` where
/// there is a new line, else the old line and side `LEFT`) where the note has
/// a file, otherwise a general comment whose id is the note id in decimal.
pub open spec fn comment_of(n: GlabNote, now: Timestamp, c: UnifiedPrComment) -> bool {
    let id = match n.id {
        Some(i) => i,
        None => 0,
    };
    match path_of(n) {
        Some(path) => {
            &&& c matches UnifiedPrComment::Review {
                id: cid,
                author,
                author_association,
                body,
                created_at,
                url,
                path: cpath,
                line,
                side,
                diff_hunk,
            }
            &&& cid == id
            &&& author@ == author_of(n)
            &&& author_association.is_none()
            &&& body@ == text_or_empty(n.body)
            &&& created_at == note_time(n, now)
            &&& url.is_none()
            &&& cpath == path
            &&& diff_hunk.is_none()
            &&& if n.position->0.new_line is Some {
                line == n.position->0.new_line && (side matches Some(s) && s@ == "RIGHT"@)
            } else {
                line == n.position->0.old_line && (side matches Some(s) && s@ == "LEFT"@)
            }
        },
        None => {
            &&& c matches UnifiedPrComment::General {
                id: cid,
                author,
                author_association,
                body,
                created_at,
                url,
            }
            &&& cid@ == decimal(id as int)
            &&& author@ == author_of(n)
            &&& author_association.is_none()
            &&& body@ == text_or_empty(n.body)
            &&& created_at == note_time(n, now)
            &&& url.is_none()
        },
    }
}

/// `cs` are the comments for `notes`, one for one, with `now` standing for
/// missing times.
pub open spec fn comments_for(notes: Seq<GlabNote>, now: Timestamp, cs: Seq<UnifiedPrComment>) -> bool {
    &&& cs.len() == notes.len()
    &&& forall|i: int| 0 <= i < notes.len() ==> comment_of(#[trigger] notes[i], now, cs[i])
}

/// `cs` are the comments for `notes`, one for one, with `times[i]` standing
/// for a missing time of `notes[i]`.
pub open spec fn comments_for_times(
    notes: Seq<GlabNote>,
    times: Seq<Timestamp>,
    cs: Seq<UnifiedPrComment>,
) -> bool {
    &&& cs.len() == notes.len()
    &&& times.len() == notes.len()
    &&& forall|i: int| 0 <= i < notes.len() ==> comment_of(#[trigger] notes[i], times[i], cs[i])
}

/// The comment for a note, with `now` standing for a missing or unreadable time.
pub fn comment_from_note(note: GlabNote, now: Timestamp) -> (c: UnifiedPrComment)
    ensures
        comment_of(note, now, c),
{
    let ghost n = note;
    let id = match note.id {
        Some(i) => i,
        None => 0,
    };
    let author = match note.author {
        Some(a) => match a.username {
            Some(u) => u,
            None => "unknown".to_owned(),
        },
        None => "unknown".to_owned(),
    };
    let body = string_or_empty(note.body);
    let created_at = match parse_instant(&note.created_at) {
        Some(t) => t,
        None => now,
    };
    let path = match &note.position {
        Some(p) => match &p.new_path {
            Some(np) => Some(np.clone()),
            None => match &p.old_path {
                Some(op) => Some(op.clone()),
                None => None,
            },
        },
        None => None,
    };
    match path {
        Some(path) => {
            let (line, side) = match &note.position {
                Some(p) => if p.new_line.is_some() {
                    (p.new_line, Some("RIGHT".to_owned()))
                } else {
                    (p.old_line, Some("LEFT".to_owned()))
                },
                None => (None, None),
            };
            UnifiedPrComment::Review {
                id,
                author,
                author_association: None,
                body,
                created_at,
                url: None,
                path,
                line,
                side,
                diff_hunk: None,
            }
        },
        None => UnifiedPrComment::General {
            id: string_of(&decimal_chars(id)),
            author,
            author_association: None,
            body,
            created_at,
            url: None,
        },
    }
}

/// Whether a note's time has to come from somewhere else than the note.
fn needs_clock(note: &GlabNote) -> (r: bool)
    ensures
        r == instant_of(note.created_at).is_none(),
{
    parse_instant(&note.created_at).is_none()
}

/// The comments for the notes that people wrote, thread after thread, and the
/// instants that stood for missing times. With `fixed_now`, that instant
/// stands for every missing time; without, the clock is read for each note
/// that needs it.
fn collect_comments(discussions: Vec<GlabDiscussion>, fixed_now: Option<Timestamp>) -> (r: (
    Vec<UnifiedPrComment>,
    Ghost<Seq<Timestamp>>,
))
    ensures
        comments_for_times(visible_notes(discussions@), r.1@, r.0@),
        fixed_now matches Some(now) ==> forall|i: int| 0 <= i < r.1@.len() ==> r.1@[i] == now,
        fixed_now is None ==> forall|i: int| 0 <= i < r.1@.len() ==> is_clock_reading(r.1@[i]),
{
    let ghost input = discussions@;
    let mut rest = discussions;
    let mut cs: Vec<UnifiedPrComment> = Vec::new();
    let ghost mut times: Seq<Timestamp> = Seq::empty();
    let ghost mut done: int = 0;
    assert(input.skip(0) =~= input);
    assert(input.take(0) =~= Seq::<GlabDiscussion>::empty());
    while rest.len() > 0
        invariant
            0 <= done <= input.len(),
            rest@ == input.skip(done),
            comments_for_times(visible_notes(input.take(done)), times, cs@),
            fixed_now matches Some(now) ==> forall|i: int| 0 <= i < times.len() ==> times[i] == now,
            fixed_now is None ==> forall|i: int| 0 <= i < times.len() ==> is_clock_reading(times[i]),
        decreases rest.len(),
    {
        let d = rest.remove(0);
        let ghost before = visible_notes(input.take(done));
        proof {
            assert(input.skip(done + 1) =~= input.skip(done).remove(0));
            assert(input.take(done + 1).drop_last() =~= input.take(done));
        }
        match d.notes {
            Some(notes) => {
                let ghost ns = notes@;
                let mut nrest = notes;
                let ghost mut j: int = 0;
                assert(ns.skip(0) =~= ns);
                assert(ns.take(0) =~= Seq::<GlabNote>::empty());
                assert(before + written_notes(ns.take(0)) =~= before);
                while nrest.len() > 0
                    invariant
                        0 <= j <= ns.len(),
                        nrest@ == ns.skip(j),
                        comments_for_times(before + written_notes(ns.take(j)), times, cs@),
                        fixed_now matches Some(now) ==> forall|i: int|
                            0 <= i < times.len() ==> times[i] == now,
                        fixed_now is None ==> forall|i: int|
                            0 <= i < times.len() ==> is_clock_reading(times[i]),
                    decreases nrest.len(),
                {
                    let note = nrest.remove(0);
                    let ghost gn = note;
                    proof {
                        assert(ns.skip(j + 1) =~= ns.skip(j).remove(0));
                        assert(ns.take(j + 1).drop_last() =~= ns.take(j));
                        assert(gn == ns[j]);
                        assert(ns.take(j + 1).last() == gn);
                    }
                    let system = match note.system {
                        Some(b) => b,
                        None => false,
                    };
                    if !system {
                        let now = match fixed_now {
                            Some(t) => t,
                            None => if needs_clock(&note) {
                                match Timestamp::now() {
                                    Some(t) => t,
                                    None => Timestamp { secs: 0, nanos: 0 },
                                }
                            } else {
                                Timestamp { secs: 0, nanos: 0 }
                            },
                        };
                        let c = comment_from_note(note, now);
                        let ghost old_cs = cs@;
                        let ghost old_times = times;
                        cs.push(c);
                        proof {
                            times = times.push(now);
                            let old_notes = before + written_notes(ns.take(j));
                            let notes_now = before + written_notes(ns.take(j + 1));
                            assert(notes_now =~= old_notes.push(gn));
                            assert forall|i: int| 0 <= i < notes_now.len() implies comment_of(
                                #[trigger] notes_now[i],
                                times[i],
                                cs@[i],
                            ) by {
                                if i < notes_now.len() - 1 {
                                    assert(notes_now[i] == old_notes[i]);
                                    assert(cs@[i] == old_cs[i]);
                                    assert(times[i] == old_times[i]);
                                } else {
                                    assert(notes_now[i] == gn);
                                    assert(cs@[i] == c);
                                }
                            }
                        }
                    } else {
                        proof {
                            assert(before + written_notes(ns.take(j + 1)) =~= before
                                + written_notes(ns.take(j)));
                        }
                    }
                    proof {
                        j = j + 1;
                    }
                }
                proof {
                    assert(ns.take(j) =~= ns);
                    assert(visible_notes(input.take(done + 1)) =~= before + written_notes(ns));
                }
            },
            None => {
                proof {
                    assert(visible_notes(input.take(done + 1)) =~= before);
                }
            },
        }
        proof {
            done = done + 1;
        }
    }
    proof {
        assert(input.take(done) =~= input);
    }
    (cs, Ghost(times))
}

impl GlabCli {
    /// The comments of a merge request's discussions: system notes left out,
    /// `now` standing for missing times, sorted stably by time.
    pub fn comments_from_discussions(discussions: Vec<GlabDiscussion>, now: Timestamp) -> (r: Vec<
        UnifiedPrComment,
    >)
        ensures
            exists|pre: Seq<UnifiedPrComment>|
                comments_for(visible_notes(discussions@), now, pre) && stably_sorted(pre, r@),
    {
        let ghost notes = visible_notes(discussions@);
        let (cs, Ghost(times)) = collect_comments(discussions, Some(now));
        let ghost pre = cs@;
        assert forall|i: int| 0 <= i < notes.len() implies comment_of(
            #[trigger] notes[i],
            now,
            pre[i],
        ) by {
            assert(times[i] == now);
        }
        let r = stable_sort(cs);
        assert(comments_for(notes, now, pre) && stably_sorted(pre, r@));
        r
    }

    /// The comments of a merge request's discussions: system notes left out,
    /// the current time (read note by note) standing for a missing time,
    /// sorted stably by time. Where the clock reads a time before the Unix
    /// epoch, the epoch stands in.
    pub fn parse_mr_discussions(discussions: Vec<GlabDiscussion>) -> (r: Vec<UnifiedPrComment>)
        ensures
            exists|pre: Seq<UnifiedPrComment>, times: Seq<Timestamp>|
                comments_for_times(visible_notes(discussions@), times, pre) && (forall|i: int|
                    0 <= i < times.len() ==> is_clock_reading(#[trigger] times[i]))
                    && stably_sorted(pre, r@),
    {
        let ghost notes = visible_notes(discussions@);
        let (cs, Ghost(times)) = collect_comments(discussions, None);
        let ghost pre = cs@;
        let r = stable_sort(cs);
        assert(comments_for_times(notes, times, pre) && (forall|i: int|
            0 <= i < times.len() ==> is_clock_reading(#[trigger] times[i])) && stably_sorted(
            pre,
            r@,
        ));
        r
    }
}

} // verus!
