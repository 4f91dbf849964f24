//! The calls into `chrono` and std whose results are taken on trust: each
//! contract says what the outside function's documentation promises, or names
//! the result where it cannot be written out in a few lines.

use vstd::prelude::*;

use crate::types::Timestamp;

verus! {

/// The instant (seconds since the Unix epoch, and nanoseconds within that
/// second) that `chrono::DateTime::parse_from_rfc3339` reads from a string,
/// taken in UTC; none where the string is not an RFC 3339 date and time.
pub uninterp spec fn rfc3339_instant(s: Seq<char>) -> Option<(i64, u32)>;

/// `chrono::DateTime::parse_from_rfc3339`, converted to UTC
/// (`with_timezone(&Utc)`) and read as a timestamp. The contract claims only
/// that the result is a function of the string (`rfc3339_instant`); what that
/// function is, chrono's parser decides.
#[verifier::external_body]
pub(crate) fn parse_rfc3339(s: &str) -> (r: Option<Timestamp>)
    ensures
        match r {
            Some(t) => rfc3339_instant(s@) == Some((t.secs, t.nanos)),
            None => rfc3339_instant(s@).is_none(),
        },
{
    chrono::DateTime::parse_from_rfc3339(s).ok().map(|dt| {
        let utc = dt.with_timezone(&chrono::Utc);
        Timestamp { secs: utc.timestamp(), nanos: utc.timestamp_subsec_nanos() }
    })
}

/// `std::time::SystemTime`, an instant of the system clock; opaque here.
#[verifier::external_type_specification]
#[verifier::external_body]
pub struct ExSystemTime(std::time::SystemTime);

/// `std::time::SystemTime::now`: the current time of the system clock. Nothing
/// is claimed of it.
#[verifier::external_body]
pub(crate) fn system_now() -> (t: std::time::SystemTime) {
    std::time::SystemTime::now()
}

/// `SystemTime::duration_since(UNIX_EPOCH)`: how long after the Unix epoch
/// `t` is; none where `t` is earlier. `SystemTime` is opaque here, so nothing
/// is claimed of which case comes.
#[verifier::external_body]
pub(crate) fn duration_since_epoch(t: &std::time::SystemTime) -> (d: Option<core::time::Duration>) {
    t.duration_since(std::time::UNIX_EPOCH).ok()
}

/// `Duration::as_secs`: the whole seconds of `d`. `Duration` is opaque here,
/// so nothing is claimed of the value.
#[verifier::external_body]
pub(crate) fn duration_secs(d: &core::time::Duration) -> (s: u64) {
    d.as_secs()
}

/// `Duration::subsec_nanos`: the nanoseconds of `d` past its whole seconds,
/// which std documents to be below one second.
#[verifier::external_body]
pub(crate) fn duration_subsec_nanos(d: &core::time::Duration) -> (n: u32)
    ensures
        n < 1_000_000_000,
{
    d.subsec_nanos()
}

/// `String::push`: appends one character.
#[verifier::external_body]
pub(crate) fn string_push(s: &mut String, c: char)
    ensures
        final(s)@ == old(s)@.push(c),
{
    s.push(c);
}

/// What `str::to_lowercase` makes of a string: the Unicode lowercase mapping.
pub uninterp spec fn lowercase(s: Seq<char>) -> Seq<char>;

/// `str::to_lowercase`. The contract claims that the result is a function of
/// the string (`lowercase`), whose Unicode tables std decides, and that a
/// string of ASCII characters is lowercased by the ASCII mapping (Unicode
/// lowercases `A`..`Z` to `a`..`z` and leaves the rest of ASCII alone).
#[verifier::external_body]
pub(crate) fn to_lowercase(s: &str) -> (r: String)
    ensures
        r@ == lowercase(s@),
        (forall|i: int| 0 <= i < s@.len() ==> (s@[i] as u32) < 128) ==> r@
            == crate::text::ascii_lowercase(s@),
{
    s.to_lowercase()
}

/// What `String::from_utf8_lossy` makes of a byte string.
pub uninterp spec fn utf8_lossy(b: Seq<u8>) -> Seq<char>;

/// `String::from_utf8_lossy`. The contract claims that the result is a
/// function of the bytes, and, as std documents, that valid UTF-8 is decoded
/// unchanged; how invalid sequences are replaced is left unsaid.
#[verifier::external_body]
pub(crate) fn from_utf8_lossy(b: &[u8]) -> (r: String)
    ensures
        r@ == utf8_lossy(b@),
        vstd::utf8::valid_utf8(b@) ==> r@ == vstd::utf8::decode_utf8(b@),
{
    String::from_utf8_lossy(b).to_string()
}

/// `String::from_utf8`: the decoded text where the bytes are valid UTF-8,
/// nothing otherwise (std's documented behaviour).
#[verifier::external_body]
pub(crate) fn from_utf8(b: Vec<u8>) -> (r: Option<String>)
    ensures
        r.is_some() == vstd::utf8::valid_utf8(b@),
        r matches Some(s) ==> s@ == vstd::utf8::decode_utf8(b@),
{
    String::from_utf8(b).ok()
}

} // verus!
