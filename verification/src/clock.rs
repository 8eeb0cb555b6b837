//! The time and fresh identifiers.

use vstd::prelude::*;
use vstd::string::*;

verus! {

/// An instant in Coordinated Universal Time.
#[derive(Debug, Clone, Copy, PartialEq, Eq, Structural)]
pub struct Timestamp {
    /// Seconds since the start of 1970.
    pub secs: i64,
    /// Nanoseconds within the second.
    pub nanos: u32,
}

/// A lower-case hexadecimal digit.
pub open spec fn is_hex_digit(c: char) -> bool {
    '0' <= c <= '9' || 'a' <= c <= 'f'
}

/// The text of a random UUID: 32 hexadecimal digits in five groups with
/// hyphens between them, version 4, variant 1.
pub open spec fn is_random_uuid(s: Seq<char>) -> bool {
    &&& s.len() == 36
    &&& forall|i: int|
        #![trigger s[i]]
        0 <= i < 36 ==> if i == 8 || i == 13 || i == 18 || i == 23 {
            s[i] == '-'
        } else {
            is_hex_digit(s[i])
        }
    &&& s[14] == '4'
    &&& s[19] == '8' || s[19] == '9' || s[19] == 'a' || s[19] == 'b'
}

/// A decimal digit.
pub open spec fn is_decimal_digit(c: char) -> bool {
    '0' <= c <= '9'
}

/// A date and a time of day that end in an offset from UTC, as RFC 3339 has it:
/// a sign, hours and minutes.
pub open spec fn is_time_text(s: Seq<char>) -> bool {
    let n = s.len() as int;
    &&& n >= 25
    &&& s.contains('T')
    &&& s[n - 6] == '+' || s[n - 6] == '-'
    &&& is_decimal_digit(s[n - 5])
    &&& is_decimal_digit(s[n - 4])
    &&& s[n - 3] == ':'
    &&& is_decimal_digit(s[n - 2])
    &&& is_decimal_digit(s[n - 1])
}

/// A date and a time of day in UTC.
pub open spec fn is_utc_text(s: Seq<char>) -> bool {
    is_time_text(s) && s.skip(s.len() - 6) == "+00:00"@
}

/// `chrono::Utc::now`: the system clock's time, which counts from the start of
/// 1970 on; on a machine whose clock stands before that, the call panics. Which
/// instant it is depends on the clock.
#[verifier::external_body]
pub(crate) fn utc_now() -> (r: Timestamp)
    ensures
        r.secs >= 0,
        r.nanos < 1_000_000_000,
{
    let now = chrono::Utc::now();
    Timestamp { secs: now.timestamp(), nanos: now.timestamp_subsec_nanos() }
}

/// `chrono::DateTime::to_rfc3339` of the time in UTC: a date, a time of day and
/// the offset `+00:00`. Which instant it is depends on the clock, which must not
/// stand before 1970.
#[verifier::external_body]
pub(crate) fn utc_now_rfc3339() -> (r: String)
    ensures
        is_utc_text(r@),
{
    chrono::Utc::now().to_rfc3339()
}

/// `chrono::DateTime::to_rfc3339` of the time in the machine's time zone: a
/// date, a time of day and an offset. Which instant and which offset it is
/// depends on the machine, whose clock must not stand before 1970.
#[verifier::external_body]
pub(crate) fn local_now_rfc3339() -> (r: String)
    ensures
        is_time_text(r@),
{
    chrono::Local::now().to_rfc3339()
}

/// `uuid::Uuid::new_v4` as text: hyphenated, lower case. Which one it is is
/// left to chance; on a machine that gives no random bytes, the call panics.
#[verifier::external_body]
pub(crate) fn random_uuid() -> (r: String)
    ensures
        is_random_uuid(r@),
{
    uuid::Uuid::new_v4().to_string()
}

} // verus!
