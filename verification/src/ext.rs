//! The trusted boundary: every call that leaves the verified library goes
//! through one of the wrappers in this module, and each wrapper's contract is
//! what the rest of the library relies on.

use vstd::prelude::*;

verus! {

/// The current wall-clock time as milliseconds since the Unix epoch.
///
/// Relies on `chrono::Utc::now` and `chrono::DateTime::timestamp_millis`.
/// Nothing can be promised of a clock reading, so the contract is empty.
#[verifier::external_body]
pub fn now_millis() -> i64 {
    chrono::Utc::now().timestamp_millis()
}

/// A freshly generated identifier string.
///
/// Relies on `uuid::Uuid::new_v4` and its `Display` implementation: a
/// version-4 UUID formatted as lower-case hyphenated hex, which is always 36
/// characters long. The value itself is random, so nothing more is promised.
#[verifier::external_body]
pub fn new_uuid() -> (r: String)
    ensures
        r@.len() == 36,
{
    uuid::Uuid::new_v4().to_string()
}

/// The timestamp `ms`, taken as milliseconds since the Unix epoch, rendered
/// in the compact `YYYYMMDD_HHMMSS` form used in backup file names. The
/// rendering depends on `ms` alone.
pub uninterp spec fn compact_timestamp_of(ms: int) -> Seq<char>;

/// Relies on `chrono::DateTime::from_timestamp_millis` (defined for the
/// whole range admitted here) and on `format` with the fixed specifier
/// `%Y%m%d_%H%M%S`, which depends only on the UTC timestamp, not on locale
/// or environment.
#[verifier::external_body]
pub fn format_compact_timestamp(ms: i64) -> (r: String)
    requires
        0 <= ms <= 253_402_300_799_999,
    ensures
        r@ == compact_timestamp_of(ms as int),
{
    match chrono::DateTime::<chrono::Utc>::from_timestamp_millis(ms) {
        Some(dt) => dt.format("%Y%m%d_%H%M%S").to_string(),
        None => String::new(),
    }
}

/// Relies on `char::from_u32`: the character with the given code, defined
/// exactly for Unicode scalar values (codes at most 0x10FFFF that are not
/// surrogates).
#[verifier::external_body]
pub fn char_from_u32(c: u32) -> (r: Option<char>)
    ensures
        r == if (c < 0xD800 || (0xDFFF < c && c <= 0x10FFFF)) {
            Some(c as char)
        } else {
            None::<char>
        },
{
    char::from_u32(c)
}

/// Relies on `String::push`: appends the given character to the end of the
/// string.
#[verifier::external_body]
pub fn push_char(s: &mut String, c: char)
    ensures
        final(s)@ == old(s)@.push(c),
{
    s.push(c)
}

} // verus!
