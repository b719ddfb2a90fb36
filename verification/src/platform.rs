//! The few calls into the standard library that vstd gives no contract.
use vstd::prelude::*;
use vstd::utf8::*;

verus! {

#[verifier::external_type_specification]
#[verifier::external_body]
pub struct ExIoError(std::io::Error);

/// The two kinds of I/O error that the server reports.
pub enum IoErrorKind {
    InvalidData,
    InvalidInput,
}

/// `std::io::Error::new` with the given kind and message. Nothing is
/// claimed of the error value that comes back.
#[verifier::external_body]
pub(crate) fn io_error(kind: IoErrorKind, msg: &str) -> std::io::Error {
    let kind = match kind {
        IoErrorKind::InvalidData => std::io::ErrorKind::InvalidData,
        IoErrorKind::InvalidInput => std::io::ErrorKind::InvalidInput,
    };
    std::io::Error::new(kind, msg)
}

/// What `String::from_utf8_lossy` makes of a byte string.
pub uninterp spec fn utf8_lossy(bytes: Seq<u8>) -> Seq<char>;

/// `String::from_utf8_lossy`, made an owned `String`. Claimed: the result is
/// the function `utf8_lossy` of the bytes, and for valid UTF-8 it is the
/// decoded text (the documented borrowed case).
#[verifier::external_body]
pub(crate) fn lossy_string(bytes: &[u8]) -> (s: String)
    ensures
        s@ == utf8_lossy(bytes@),
        valid_utf8(bytes@) ==> s@ == decode_utf8(bytes@),
{
    String::from_utf8_lossy(bytes).into_owned()
}

/// `std::str::from_utf8`, made an owned `String`. Claimed, as its
/// documentation says: it succeeds exactly on valid UTF-8, and the text it
/// gives is the one those bytes encode.
#[verifier::external_body]
pub(crate) fn utf8_string(bytes: &[u8]) -> (r: Option<String>)
    ensures
        r is Some <==> valid_utf8(bytes@),
        r matches Some(s) ==> s@ == decode_utf8(bytes@),
{
    match std::str::from_utf8(bytes) {
        Ok(s) => Some(s.to_owned()),
        Err(_) => None,
    }
}

/// The milliseconds since the Unix epoch on the system clock
/// (`SystemTime::now().duration_since(UNIX_EPOCH)`), cut to `i64`, or 0
/// when the clock stands before the epoch. Nothing is claimed of the value:
/// it depends on the time of the call.
#[verifier::external_body]
pub(crate) fn now_millis() -> i64 {
    match std::time::SystemTime::now().duration_since(std::time::UNIX_EPOCH) {
        Ok(d) => d.as_millis() as i64,
        Err(_) => 0,
    }
}

/// ASCII upper case of one character; other characters stay.
pub open spec fn ascii_upper(c: char) -> char {
    if 97 <= (c as u32) <= 122 {
        ((c as u32) - 32) as char
    } else {
        c
    }
}

pub open spec fn ascii_upper_text(s: Seq<char>) -> Seq<char> {
    s.map_values(|c: char| ascii_upper(c))
}

/// `String::make_ascii_uppercase`: as its documentation says, `a` to `z`
/// become `A` to `Z` and every other character stays.
#[verifier::external_body]
pub(crate) fn make_ascii_uppercase(s: &mut String)
    ensures
        final(s)@ == ascii_upper_text(old(s)@),
{
    s.make_ascii_uppercase()
}

#[verifier::external_type_specification]
#[verifier::external_body]
pub struct ExInstant(std::time::Instant);

/// `Instant::now`. Nothing is claimed of it.
#[verifier::external_body]
pub(crate) fn instant_now() -> std::time::Instant {
    std::time::Instant::now()
}

/// `Instant::elapsed` in whole milliseconds. Nothing is claimed of it: it
/// depends on the time of the call.
#[verifier::external_body]
pub(crate) fn elapsed_millis(start: &std::time::Instant) -> u128 {
    start.elapsed().as_millis()
}

/// Whether `s` holds the text of `lit`.
pub fn same_text(s: &String, lit: &str) -> (r: bool)
    ensures
        r == (s@ == lit@),
{
    *s == lit.to_owned()
}

} // verus!
