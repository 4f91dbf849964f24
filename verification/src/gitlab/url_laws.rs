//! What remote-URL parsing promises of the URLs that this crate writes itself.

use vstd::prelude::*;

use crate::gitlab::cli::{
    encode_slashes, lemma_trim_start_shorter, mr_marker, normalize_remote, remote_host_and_path,
    spec_from_remote_url, spec_parse_mr_url, spec_repo_spec,
};
use crate::text::{
    after_last_at, contains_seq, decimal, is_digit, is_first_index, is_first_occurrence,
    is_last_index, is_whitespace, leading_digits, lemma_leading_digit_count, lemma_nat_digits,
    lemma_rsplit_once_at, lemma_split_once_at, lemma_split_once_seq_at, nat_digits, occurs_at,
    one_of, parse_digits_i64, rsplit_once, split_once, strip_prefix, trim, trim_end_by,
    trim_end_suffix, trim_start_by, whitespace_pred,
};

verus! {

/// A host and project path that `repo_spec` writes out in a form that
/// `from_remote_url` reads back unchanged: the host is non-empty and holds no
/// `/` or `@`; the path holds a `/` and no `@`, and does not end in `/`, in
/// whitespace or in `.git`.
pub open spec fn canonical_repo(host: Seq<char>, path: Seq<char>) -> bool {
    &&& host.len() > 0
    &&& !host.contains('/')
    &&& !host.contains('@')
    &&& path.contains('/')
    &&& !path.contains('@')
    &&& path.last() != '/'
    &&& !is_whitespace(path.last())
    &&& !".git"@.is_suffix_of(path)
}

/// Reading back a repository spec gives the repository it was written for:
/// `from_remote_url(repo_spec(host, path))` is `(host, path)` for every
/// canonical host and path.
pub proof fn lemma_repo_spec_roundtrip(host: Seq<char>, path: Seq<char>)
    requires
        canonical_repo(host, path),
    ensures
        spec_from_remote_url(spec_repo_spec(host, path)) == Some((host, path)),
{
    reveal_strlit("https://");
    reveal_strlit("http://");
    reveal_strlit("ssh://");
    reveal_strlit(".git");
    let url = spec_repo_spec(host, path);
    let https = "https://"@;
    assert(https.len() == 8);
    let rest = host + seq!['/'] + path;
    assert(url =~= https + rest);
    assert(path.len() > 0);
    assert(url.last() == path.last());
    assert(url[0] == 'h');

    // Trimming changes nothing.
    assert(trim_start_by(url, whitespace_pred()) == url);
    assert(trim_end_by(url, whitespace_pred()) == url);
    assert(trim(url) == url);
    assert(trim_end_by(url, one_of(seq!['/'])) == url) by {
        assert(!seq!['/'].contains(url.last())) by {
            if seq!['/'].contains(url.last()) {
                assert(seq!['/'][0] == '/');
            }
        }
    }
    assert(!".git"@.is_suffix_of(url)) by {
        let g = ".git"@;
        if g.is_suffix_of(url) {
            if path.len() >= 4 {
                assert(path.subrange(path.len() - 4, path.len() as int) =~= url.subrange(
                    url.len() - 4,
                    url.len() as int,
                ));
            } else {
                let k = 3 - path.len();
                assert(url[url.len() - 1 - path.len()] == '/');
                assert(g[k] == url.subrange(url.len() - 4, url.len() as int)[k]);
            }
        }
    }
    assert(trim_end_suffix(url, ".git"@) == url);
    assert(normalize_remote(url) == url);

    // The `https://` branch.
    assert(https.is_prefix_of(url));
    assert(strip_prefix(url, https) == Some(rest)) by {
        assert(url.skip(8) =~= rest);
    }
    assert(!rest.contains('@')) by {
        if rest.contains('@') {
            let i = choose|i: int| 0 <= i < rest.len() && rest[i] == '@';
            if i < host.len() {
                assert(host[i] == '@');
            } else if i > host.len() {
                assert(path[i - host.len() - 1] == '@');
            }
        }
    }
    assert(rsplit_once(rest, '@').is_none()) by {
        if exists|i: int| is_last_index(rest, '@', i) {
            let i = choose|i: int| is_last_index(rest, '@', i);
            assert(rest[i] == '@');
        }
    }
    assert(after_last_at(rest) == rest);
    assert(is_first_index(rest, '/', host.len() as int)) by {
        assert forall|j: int| 0 <= j < host.len() implies rest[j] != '/' by {
            assert(rest[j] == host[j]);
        }
    }
    lemma_split_once_at(rest, '/', host.len() as int);
    assert(rest.take(host.len() as int) =~= host);
    assert(rest.skip(host.len() as int + 1) =~= path);
    assert(remote_host_and_path(url) == Some((host, path)));
}

/// A merge-request URL written in the documented form
/// `https://{host}/{path}/-/merge_requests/{iid}`, possibly followed by more
/// that does not start with a digit (such as `/diffs`), is read back as the
/// repository spec and the number: for every canonical repository in whose
/// spec no copy of the marker starts, and every non-negative number.
pub proof fn lemma_mr_url_roundtrip(host: Seq<char>, path: Seq<char>, iid: i64, tail: Seq<char>)
    requires
        canonical_repo(host, path),
        iid >= 0,
        tail.len() == 0 || !is_digit(tail[0]),
        forall|j: int|
            0 <= j < spec_repo_spec(host, path).len() ==> !occurs_at(
                spec_repo_spec(host, path) + mr_marker(),
                mr_marker(),
                j,
            ),
    ensures
        spec_parse_mr_url(spec_repo_spec(host, path) + mr_marker() + decimal(iid as int) + tail)
            == Some((spec_repo_spec(host, path), iid)),
{
    let spec = spec_repo_spec(host, path);
    let marker = mr_marker();
    let digits = decimal(iid as int);
    let url = spec + marker + digits + tail;
    let l = spec.len() as int;
    // The marker first occurs right after the repository spec.
    assert(occurs_at(url, marker, l)) by {
        assert(url.subrange(l, l + marker.len()) =~= marker);
    }
    assert forall|j: int| 0 <= j < l implies !occurs_at(url, marker, j) by {
        assert(!occurs_at(spec + marker, marker, j));
        if occurs_at(url, marker, j) {
            assert(url.subrange(j, j + marker.len()) =~= (spec + marker).subrange(
                j,
                j + marker.len(),
            ));
            assert(occurs_at(spec + marker, marker, j));
        }
    }
    assert(is_first_occurrence(url, marker, l));
    lemma_split_once_seq_at(url, marker, l);
    assert(url.take(l) =~= spec);
    let after = digits + tail;
    assert(url.skip(l + marker.len()) =~= after);
    // The number is read back.
    lemma_nat_digits(iid as nat);
    assert(digits == nat_digits(iid as nat));
    assert forall|j: int| 0 <= j < digits.len() implies is_digit(#[trigger] after[j]) by {
        assert(after[j] == digits[j]);
    }
    lemma_leading_digit_count(after, digits.len() as int);
    assert(leading_digits(after) =~= digits);
    assert(parse_digits_i64(digits) == Some(iid));
    // The repository is read back.
    lemma_repo_spec_roundtrip(host, path);
}


/// The encoded project path has no `/` left, so it is one segment of an API
/// endpoint.
pub proof fn lemma_encoded_path_has_no_slash(path: Seq<char>)
    ensures
        !encode_slashes(path).contains('/'),
    decreases path.len(),
{
    if path.len() > 0 {
        lemma_encoded_path_has_no_slash(path.drop_last());
        let prev = encode_slashes(path.drop_last());
        let tail = if path.last() == '/' {
            seq!['%', '2', 'F']
        } else {
            seq![path.last()]
        };
        assert(encode_slashes(path) == prev + tail);
        if encode_slashes(path).contains('/') {
            let i = choose|i: int| 0 <= i < encode_slashes(path).len() && encode_slashes(path)[i] == '/';
            if i < prev.len() {
                assert(prev[i] == '/');
            } else {
                assert(tail[i - prev.len()] == '/');
            }
        }
    }
}


// ---------------------------------------------------------------------------
// The shape of what `from_remote_url` gives
// ---------------------------------------------------------------------------

proof fn lemma_suffix_of_skip(s: Seq<char>, m: int, g: Seq<char>)
    requires
        0 <= m <= s.len(),
        g.is_suffix_of(s.skip(m)),
    ensures
        g.is_suffix_of(s),
{
    let t = s.skip(m);
    assert forall|k: int| 0 <= k < g.len() implies g[k] == s[s.len() - g.len() + k] by {
        assert(g[k] == t.subrange(t.len() - g.len(), t.len() as int)[k]);
    }
    assert(g =~= s.subrange(s.len() - g.len(), s.len() as int));
}

/// Where `s` holds `c`, it has a last index of `c`.
proof fn lemma_last_index_exists(s: Seq<char>, c: char, j: int) -> (i: int)
    requires
        0 <= j < s.len(),
        s[j] == c,
    ensures
        is_last_index(s, c, i),
    decreases s.len() - j,
{
    if exists|k: int| j < k < s.len() && s[k] == c {
        let k = choose|k: int| j < k < s.len() && s[k] == c;
        lemma_last_index_exists(s, c, k)
    } else {
        j
    }
}

/// What follows the last `@` holds no `@`, and its ends are ends of `s`.
proof fn lemma_after_last_at(s: Seq<char>, g: Seq<char>)
    ensures
        !after_last_at(s).contains('@'),
        g.is_suffix_of(after_last_at(s)) ==> g.is_suffix_of(s),
{
    if exists|i: int| is_last_index(s, '@', i) {
        let i = choose|i: int| is_last_index(s, '@', i);
        lemma_rsplit_once_at(s, '@', i);
        let r = s.skip(i + 1);
        assert(after_last_at(s) == r);
        assert forall|k: int| 0 <= k < r.len() implies r[k] != '@' by {
            assert(r[k] == s[k + i + 1]);
        }
        if g.is_suffix_of(r) {
            lemma_suffix_of_skip(s, i + 1, g);
        }
    } else {
        assert(rsplit_once(s, '@').is_none());
        if s.contains('@') {
            let j = choose|j: int| 0 <= j < s.len() && s[j] == '@';
            let i = lemma_last_index_exists(s, '@', j);
        }
    }
}

/// The parts around the first `c`: the first holds only characters of `s`,
/// and the ends of the second are ends of `s`.
proof fn lemma_split_once_parts(s: Seq<char>, c: char, x: char, g: Seq<char>)
    ensures
        split_once(s, c) matches Some((a, b)) ==> (!s.contains(x) ==> !a.contains(x)) && (
        g.is_suffix_of(b) ==> g.is_suffix_of(s)),
{
    if exists|i: int| is_first_index(s, c, i) {
        let i = choose|i: int| is_first_index(s, c, i);
        lemma_split_once_at(s, c, i);
        let a = s.take(i);
        if !s.contains(x) && a.contains(x) {
            let k = choose|k: int| 0 <= k < a.len() && a[k] == x;
            assert(s[k] == x);
        }
        if g.is_suffix_of(s.skip(i + 1)) {
            lemma_suffix_of_skip(s, i + 1, g);
        }
    }
}

proof fn lemma_trim_end_suffix_clean(s: Seq<char>, p: Seq<char>)
    requires
        p.len() > 0,
    ensures
        !p.is_suffix_of(trim_end_suffix(s, p)),
    decreases s.len(),
{
    if p.is_suffix_of(s) {
        lemma_trim_end_suffix_clean(s.take(s.len() - p.len()), p);
    }
}

/// What `from_remote_url` gives has a non-empty host without `@`, and a path
/// with a `/` that does not end in `.git`.
pub proof fn lemma_from_remote_url_shape(s: Seq<char>)
    ensures
        spec_from_remote_url(s) matches Some((host, path)) ==> {
            &&& host.len() > 0
            &&& !host.contains('@')
            &&& path.contains('/')
            &&& !".git"@.is_suffix_of(path)
        },
{
    reveal_strlit(".git");
    let g = ".git"@;
    let url = normalize_remote(s);
    lemma_trim_end_suffix_clean(trim_end_by(trim(s), one_of(seq!['/'])), g);
    assert(!g.is_suffix_of(url));
    if spec_from_remote_url(s) is None {
        return;
    }
    let web = match strip_prefix(url, "https://"@) {
        Some(rest) => Some(rest),
        None => strip_prefix(url, "http://"@),
    };
    if web is Some {
        let rest = web->0;
        let n = url.len() - rest.len();
        assert(rest == url.skip(n));
        let r = after_last_at(rest);
        lemma_after_last_at(rest, g);
        lemma_split_once_parts(r, '/', '@', g);
        if g.is_suffix_of(rest) {
            lemma_suffix_of_skip(url, n, g);
        }
    } else if strip_prefix(url, "ssh://"@) is Some {
        let rest = strip_prefix(url, "ssh://"@)->0;
        let n = url.len() - rest.len();
        assert(rest == url.skip(n));
        let r = after_last_at(rest);
        lemma_after_last_at(rest, g);
        lemma_split_once_parts(r, '/', '@', g);
        let (host_port, _) = split_once(r, '/')->0;
        lemma_split_once_parts(host_port, ':', '@', g);
        if g.is_suffix_of(rest) {
            lemma_suffix_of_skip(url, n, g);
        }
    } else {
        lemma_split_once_parts(url, ':', '@', g);
        let (user_host, _) = split_once(url, ':')->0;
        lemma_after_last_at(user_host, g);
    }
}

// ---------------------------------------------------------------------------
// What `from_remote_url` ignores
// ---------------------------------------------------------------------------

/// A remote URL that is already trimmed and ends in neither `/` nor `.git`
/// is its own normal form.
proof fn lemma_normal_already(s: Seq<char>)
    requires
        trim(s) == s,
        s.len() == 0 || s.last() != '/',
        !".git"@.is_suffix_of(s),
    ensures
        normalize_remote(s) == s,
{
    assert(trim_end_by(s, one_of(seq!['/'])) == s) by {
        if s.len() > 0 {
            assert(!seq!['/'].contains(s.last())) by {
                if seq!['/'].contains(s.last()) {
                    assert(seq!['/'][0] == '/');
                }
            }
        }
    }
}

/// The first character of a trimmed, non-empty string is not whitespace, nor
/// is its last.
proof fn lemma_trimmed_ends(s: Seq<char>)
    requires
        trim(s) == s,
        s.len() > 0,
    ensures
        !is_whitespace(s[0]),
        !is_whitespace(s.last()),
{
    let t = trim_start_by(s, whitespace_pred());
    lemma_trim_start_shorter(s);
    if is_whitespace(s[0]) {
        lemma_trim_start_shorter(s.drop_first());
        lemma_trim_end_shorter(t);
        assert(trim(s).len() < s.len());
    }
    if is_whitespace(s.last()) {
        if !is_whitespace(s[0]) {
            assert(t == s);
            assert(trim(s) == trim_end_by(s.drop_last(), whitespace_pred()));
            lemma_trim_end_shorter(s.drop_last());
            assert(trim(s).len() < s.len());
        }
    }
}

proof fn lemma_trim_end_shorter(s: Seq<char>)
    ensures
        trim_end_by(s, whitespace_pred()).len() <= s.len(),
    decreases s.len(),
{
    if s.len() > 0 && is_whitespace(s.last()) {
        lemma_trim_end_shorter(s.drop_last());
    }
}

/// `from_remote_url` reads a URL the same with `.git` added, with `/` added,
/// and with spaces around and `.git/` added: for a URL that is already
/// trimmed and ends in neither `/` nor `.git`.
pub proof fn lemma_from_remote_url_ignores_decoration(s: Seq<char>)
    requires
        trim(s) == s,
        s.len() == 0 || s.last() != '/',
        !".git"@.is_suffix_of(s),
    ensures
        spec_from_remote_url(s + ".git"@) == spec_from_remote_url(s),
        spec_from_remote_url(s + seq!['/']) == spec_from_remote_url(s),
        spec_from_remote_url(seq![' '] + s + ".git"@ + seq!['/', '\n']) == spec_from_remote_url(s),
{
    reveal_strlit(".git");
    let g = ".git"@;
    let ws = whitespace_pred();
    let slash = one_of(seq!['/']);
    lemma_normal_already(s);
    if s.len() > 0 {
        lemma_trimmed_ends(s);
    }
    assert(!seq!['/'].contains('t')) by {
        if seq!['/'].contains('t') {
            assert(seq!['/'][0] == '/');
        }
    }
    assert(seq!['/'].contains('/')) by {
        assert(seq!['/'][0] == '/');
    }
    // With `.git` added.
    let a = s + g;
    assert(a[0] == if s.len() > 0 { s[0] } else { '.' });
    assert(trim_start_by(a, ws) == a);
    assert(a.last() == 't');
    assert(trim_end_by(a, ws) == a);
    assert(trim(a) == a);
    assert(trim_end_by(a, slash) == a);
    assert(a.take(a.len() - g.len()) =~= s);
    assert(g.is_suffix_of(a)) by {
        assert(a.subrange(a.len() - g.len(), a.len() as int) =~= g);
    }
    assert(trim_end_suffix(a, g) == trim_end_suffix(s, g));
    assert(normalize_remote(a) == s);
    // With `/` added.
    let b = s + seq!['/'];
    assert(b[0] == if s.len() > 0 { s[0] } else { '/' });
    assert(trim_start_by(b, ws) == b);
    assert(b.last() == '/');
    assert(trim_end_by(b, ws) == b);
    assert(b.drop_last() =~= s);
    assert(trim_end_by(b, slash) == trim_end_by(s, slash));
    assert(normalize_remote(b) == s);
    // With spaces around and `.git/` added.
    let c = seq![' '] + s + g + seq!['/', '\n'];
    let inner = s + g + seq!['/'];
    assert(c.drop_first() =~= s + g + seq!['/', '\n']);
    assert((s + g + seq!['/', '\n'])[0] == if s.len() > 0 { s[0] } else { '.' });
    assert(c[0] == ' ');
    assert(is_whitespace(c[0]));
    assert(trim_start_by(c.drop_first(), ws) == c.drop_first());
    assert(trim_start_by(c, ws) == s + g + seq!['/', '\n']);
    assert((s + g + seq!['/', '\n']).drop_last() =~= inner);
    assert(inner.last() == '/');
    assert(trim_end_by(inner, ws) == inner);
    assert(trim(c) == inner);
    assert(inner.drop_last() =~= a);
    assert(trim_end_by(inner, slash) == trim_end_by(a, slash));
    assert(normalize_remote(c) == s);
}


// ---------------------------------------------------------------------------
// Merge-request URLs of plain repositories
// ---------------------------------------------------------------------------

/// Where `merge_requests` occurs in a repository spec, it occurs in the host
/// or in the path, for it holds no `/`.
proof fn lemma_spec_occurrence(host: Seq<char>, path: Seq<char>, q: int)
    requires
        occurs_at(spec_repo_spec(host, path), "merge_requests"@, q),
    ensures
        contains_seq(host, "merge_requests"@) || contains_seq(path, "merge_requests"@),
{
    reveal_strlit("https://");
    reveal_strlit("merge_requests");
    let m = "merge_requests"@;
    let spec = spec_repo_spec(host, path);
    let h = host.len() as int;
    assert(spec =~= "https://"@ + host + seq!['/'] + path);
    assert(m.len() == 14);
    assert(forall|k: int| 0 <= k < 14 ==> m[k] != '/');
    assert(spec.subrange(q, q + 14) == m);
    if q <= 7 {
        assert(spec[7] == '/');
        assert(spec.subrange(q, q + 14)[7 - q] == spec[7]);
    } else if q <= 8 + h && 8 + h < q + 14 {
        assert(spec[8 + h] == '/');
        assert(spec.subrange(q, q + 14)[8 + h - q] == spec[8 + h]);
    } else if q + 14 <= 8 + h {
        assert(host.subrange(q - 8, q - 8 + 14) =~= spec.subrange(q, q + 14));
        assert(occurs_at(host, m, q - 8));
    } else {
        assert(path.subrange(q - 9 - h, q - 9 - h + 14) =~= spec.subrange(q, q + 14));
        assert(occurs_at(path, m, q - 9 - h));
    }
}

/// The documented merge-request URL form reads back for every canonical
/// repository whose host and path do not hold `merge_requests`, and every
/// non-negative number.
pub proof fn lemma_mr_url_roundtrip_plain(
    host: Seq<char>,
    path: Seq<char>,
    iid: i64,
    tail: Seq<char>,
)
    requires
        canonical_repo(host, path),
        !contains_seq(host, "merge_requests"@),
        !contains_seq(path, "merge_requests"@),
        iid >= 0,
        tail.len() == 0 || !is_digit(tail[0]),
    ensures
        spec_parse_mr_url(spec_repo_spec(host, path) + mr_marker() + decimal(iid as int) + tail)
            == Some((spec_repo_spec(host, path), iid)),
{
    reveal_strlit("/-/merge_requests/");
    reveal_strlit("merge_requests");
    let spec = spec_repo_spec(host, path);
    let marker = mr_marker();
    let m = "merge_requests"@;
    let sm = spec + marker;
    let l = spec.len() as int;
    assert(marker.len() == 18);
    assert(marker.subrange(3, 17) =~= m);
    assert forall|j: int| 0 <= j < l implies !occurs_at(sm, marker, j) by {
        if occurs_at(sm, marker, j) {
            assert(sm.subrange(j, j + 18) == marker);
            if j + 17 <= l {
                assert(spec.subrange(j + 3, j + 17) =~= sm.subrange(j, j + 18).subrange(3, 17));
                assert(occurs_at(spec, m, j + 3));
                lemma_spec_occurrence(host, path, j + 3);
            } else {
                let d = l - j;
                assert(sm[l] == marker[0]);
                assert(sm.subrange(j, j + 18)[d] == sm[l]);
                assert(marker[d] == '/');
                if d == 2 {
                    assert(sm[l + 1] == marker[1]);
                    assert(sm.subrange(j, j + 18)[3] == sm[l + 1]);
                    assert(marker[3] == 'm');
                }
            }
        }
    }
    lemma_mr_url_roundtrip(host, path, iid, tail);
}


// ---------------------------------------------------------------------------
// `ssh://` remotes
// ---------------------------------------------------------------------------

/// `ssh://[{user}@]{host}[:{port}]/{path}`: the form in which an SSH remote
/// names a repository, with or without a user and a port.
pub open spec fn ssh_remote(
    user: Option<Seq<char>>,
    host: Seq<char>,
    port: Option<Seq<char>>,
    path: Seq<char>,
) -> Seq<char> {
    "ssh://"@ + match user {
        Some(u) => u + seq!['@'],
        None => seq![],
    } + host + match port {
        Some(p) => seq![':'] + p,
        None => seq![],
    } + seq!['/'] + path
}

/// `[{user}@]`: the user part of an SSH remote.
spec fn ssh_user_part(user: Option<Seq<char>>) -> Seq<char> {
    match user {
        Some(u) => u + seq!['@'],
        None => seq![],
    }
}

/// `{host}[:{port}]`: the host part of an SSH remote.
spec fn ssh_host_port(host: Seq<char>, port: Option<Seq<char>>) -> Seq<char> {
    host + match port {
        Some(p) => seq![':'] + p,
        None => seq![],
    }
}

/// An SSH remote for a canonical repository is already in normal form.
#[verifier::spinoff_prover]
proof fn lemma_ssh_remote_normal(
    user: Option<Seq<char>>,
    host: Seq<char>,
    port: Option<Seq<char>>,
    path: Seq<char>,
)
    requires
        canonical_repo(host, path),
    ensures
        normalize_remote(ssh_remote(user, host, port, path)) == ssh_remote(user, host, port, path),
{
    reveal_strlit("ssh://");
    reveal_strlit(".git");
    let url = ssh_remote(user, host, port, path);
    assert(url =~= "ssh://"@ + ssh_user_part(user) + ssh_host_port(host, port) + seq!['/'] + path);
    assert(path.len() > 0);
    assert(url.last() == path.last());
    assert(url[0] == 's');
    assert(trim_start_by(url, whitespace_pred()) == url);
    assert(trim_end_by(url, whitespace_pred()) == url);
    assert(trim(url) == url);
    assert(trim_end_by(url, one_of(seq!['/'])) == url) by {
        assert(!seq!['/'].contains(url.last())) by {
            if seq!['/'].contains(url.last()) {
                assert(seq!['/'][0] == '/');
            }
        }
    }
    assert(!".git"@.is_suffix_of(url)) by {
        let g = ".git"@;
        if g.is_suffix_of(url) {
            if path.len() >= 4 {
                assert(path.subrange(path.len() - 4, path.len() as int) =~= url.subrange(
                    url.len() - 4,
                    url.len() as int,
                ));
            } else {
                let k = 3 - path.len();
                assert(url[url.len() - 1 - path.len()] == '/');
                assert(g[k] == url.subrange(url.len() - 4, url.len() as int)[k]);
            }
        }
    }
    assert(trim_end_suffix(url, ".git"@) == url);
}

/// Everything after the user's `@` (or after `ssh://` where there is no user)
/// is the host part, `/` and the path.
#[verifier::spinoff_prover]
proof fn lemma_ssh_after_user(
    user: Option<Seq<char>>,
    host: Seq<char>,
    port: Option<Seq<char>>,
    path: Seq<char>,
)
    requires
        canonical_repo(host, path),
        port matches Some(p) ==> !p.contains('@'),
    ensures
        after_last_at(ssh_user_part(user) + (ssh_host_port(host, port) + seq!['/'] + path))
            == ssh_host_port(host, port) + seq!['/'] + path,
{
    let host_port = ssh_host_port(host, port);
    let after = host_port + seq!['/'] + path;
    let rest = ssh_user_part(user) + after;
    assert(!after.contains('@')) by {
        if after.contains('@') {
            let i = choose|i: int| 0 <= i < after.len() && after[i] == '@';
            if i < host.len() {
                assert(host[i] == '@');
            } else if i < host_port.len() {
                let p = port->0;
                assert(p[i - host.len() - 1] == '@');
            } else if i > host_port.len() {
                assert(path[i - host_port.len() - 1] == '@');
            }
        }
    }
    match user {
        Some(u) => {
            assert(is_last_index(rest, '@', u.len() as int)) by {
                assert forall|j: int| u.len() < j < rest.len() implies rest[j] != '@' by {
                    assert(rest[j] == after[j - u.len() - 1]);
                }
            }
            lemma_rsplit_once_at(rest, '@', u.len() as int);
            assert(rest.skip(u.len() as int + 1) =~= after);
        },
        None => {
            assert(rest =~= after);
            assert(rsplit_once(rest, '@').is_none()) by {
                if exists|i: int| is_last_index(rest, '@', i) {
                    let i = choose|i: int| is_last_index(rest, '@', i);
                    assert(rest[i] == '@');
                }
            }
        },
    }
}

/// The host part splits from the path at the first `/`, and the host from the
/// port at the first `:`.
#[verifier::spinoff_prover]
proof fn lemma_ssh_host_split(host: Seq<char>, port: Option<Seq<char>>, path: Seq<char>)
    requires
        canonical_repo(host, path),
        !host.contains(':'),
        port matches Some(p) ==> !p.contains('/'),
    ensures
        split_once(ssh_host_port(host, port) + seq!['/'] + path, '/') == Some(
            (ssh_host_port(host, port), path),
        ),
        match split_once(ssh_host_port(host, port), ':') {
            Some((h, _)) => h,
            None => ssh_host_port(host, port),
        } == host,
{
    let host_port = ssh_host_port(host, port);
    let after = host_port + seq!['/'] + path;
    assert(is_first_index(after, '/', host_port.len() as int)) by {
        assert forall|j: int| 0 <= j < host_port.len() implies after[j] != '/' by {
            if j < host.len() {
                assert(after[j] == host[j]);
            } else if j > host.len() {
                let p = port->0;
                assert(after[j] == p[j - host.len() - 1]);
            }
        }
    }
    lemma_split_once_at(after, '/', host_port.len() as int);
    assert(after.take(host_port.len() as int) =~= host_port);
    assert(after.skip(host_port.len() as int + 1) =~= path);
    match port {
        Some(p) => {
            assert(is_first_index(host_port, ':', host.len() as int)) by {
                assert forall|j: int| 0 <= j < host.len() implies host_port[j] != ':' by {
                    assert(host_port[j] == host[j]);
                }
            }
            lemma_split_once_at(host_port, ':', host.len() as int);
            assert(host_port.take(host.len() as int) =~= host);
        },
        None => {
            assert(host_port =~= host);
            assert(split_once(host_port, ':').is_none()) by {
                if exists|i: int| is_first_index(host_port, ':', i) {
                    let i = choose|i: int| is_first_index(host_port, ':', i);
                    assert(host[i] == ':');
                }
            }
        },
    }
}

/// An SSH remote is read as the repository it names, whether or not it
/// carries a user and a port: `from_remote_url(ssh_remote(user, host, port,
/// path))` is `(host, path)` for every canonical host without `:` and path,
/// every user, and every port without `/` or `@`.
pub proof fn lemma_ssh_remote_roundtrip(
    user: Option<Seq<char>>,
    host: Seq<char>,
    port: Option<Seq<char>>,
    path: Seq<char>,
)
    requires
        canonical_repo(host, path),
        !host.contains(':'),
        port matches Some(p) ==> !p.contains('/') && !p.contains('@'),
    ensures
        spec_from_remote_url(ssh_remote(user, host, port, path)) == Some((host, path)),
{
    reveal_strlit("https://");
    reveal_strlit("http://");
    reveal_strlit("ssh://");
    let ssh = "ssh://"@;
    let after = ssh_host_port(host, port) + seq!['/'] + path;
    let rest = ssh_user_part(user) + after;
    let url = ssh_remote(user, host, port, path);
    assert(url =~= ssh + rest);
    lemma_ssh_remote_normal(user, host, port, path);
    assert(url[0] == 's');
    assert(!"https://"@.is_prefix_of(url)) by {
        if "https://"@.is_prefix_of(url) {
            assert("https://"@[0] == url[0]);
        }
    }
    assert(!"http://"@.is_prefix_of(url)) by {
        if "http://"@.is_prefix_of(url) {
            assert("http://"@[0] == url[0]);
        }
    }
    assert(ssh.is_prefix_of(url));
    assert(strip_prefix(url, ssh) == Some(rest)) by {
        assert(url.skip(6) =~= rest);
    }
    lemma_ssh_after_user(user, host, port, path);
    lemma_ssh_host_split(host, port, path);
    assert(remote_host_and_path(url) == Some((host, path)));
    assert(path.contains('/'));
}

} // verus!
