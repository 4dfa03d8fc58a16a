//! Local time, as the guard writes it down.

use vstd::prelude::*;
use vstd::string::*;
use crate::text::is_digit;

verus! {

/// How the guard's log shows a time.
pub const LOG_TIME_FORMAT: &'static str = "%Y-%m-%d %H:%M:%S";

/// Whether two decimal digits stand at `at`.
pub open spec fn two_digits(s: Seq<char>, at: int) -> bool {
    is_digit(s[at]) && is_digit(s[at + 1])
}

/// The number that two decimal digits at `at` give.
pub open spec fn two_digit_value(s: Seq<char>, at: int) -> int {
    10 * (s[at] as u32 - '0' as u32) + (s[at + 1] as u32 - '0' as u32)
}

/// Whether two decimal digits at `at` give a number from `low` to `high`.
pub open spec fn two_digits_within(s: Seq<char>, at: int, low: int, high: int) -> bool {
    two_digits(s, at) && low <= two_digit_value(s, at) <= high
}

/// Whether `s` begins with a year of `year` characters, which may have a sign, and then a
/// month, a day and a time of day, as in `2024-01-31 23:59:59`, with `between` between
/// day and time.
pub open spec fn begins_with_time(s: Seq<char>, year: int, between: char) -> bool {
    &&& year >= 4
    &&& s.len() >= year + 15
    &&& is_digit(s[0]) || s[0] == '+' || s[0] == '-'
    &&& forall|i: int| 0 < i < year ==> is_digit(#[trigger] s[i])
    &&& s[year] == '-'
    &&& two_digits_within(s, year + 1, 1, 12)
    &&& s[year + 3] == '-'
    &&& two_digits_within(s, year + 4, 1, 31)
    &&& s[year + 6] == between
    &&& two_digits_within(s, year + 7, 0, 23)
    &&& s[year + 9] == ':'
    &&& two_digits_within(s, year + 10, 0, 59)
    &&& s[year + 12] == ':'
    &&& two_digits_within(s, year + 13, 0, 60)
}

/// Whether `s` is a time as in `2024-01-31 23:59:59`.
pub open spec fn is_log_time(s: Seq<char>) -> bool {
    begins_with_time(s, s.len() - 15, ' ')
}

/// Whether `s` is a fraction of a second, as in `.125`, or nothing.
pub open spec fn is_fraction(s: Seq<char>) -> bool {
    s.len() == 0 || {
        &&& s.len() == 4 || s.len() == 7 || s.len() == 10
        &&& s[0] == '.'
        &&& forall|i: int| 0 < i < s.len() ==> is_digit(#[trigger] s[i])
    }
}

/// Whether `s` is an offset from UTC, as in `-08:00`.
pub open spec fn is_utc_offset(s: Seq<char>) -> bool {
    &&& s.len() == 6
    &&& s[0] == '+' || s[0] == '-'
    &&& two_digits(s, 1)
    &&& s[3] == ':'
    &&& two_digits_within(s, 4, 0, 59)
}

/// Whether `s` is a time as in `1996-12-19T16:39:57-08:00`, with the year in its first
/// `year` characters.
pub open spec fn is_marker_time_with(s: Seq<char>, year: int) -> bool {
    &&& s.len() >= year + 21
    &&& begins_with_time(s, year, 'T')
    &&& is_fraction(s.subrange(year + 15, s.len() - 6))
    &&& is_utc_offset(s.skip(s.len() - 6))
}

/// Whether `s` is a time as in `1996-12-19T16:39:57-08:00`.
pub open spec fn is_marker_time(s: Seq<char>) -> bool {
    exists|year: int| #[trigger] is_marker_time_with(s, year)
}

/// `chrono::Local::now`, shown by `DateTime::format`. For this format the result is the
/// year in four digits or more (behind a sign where it is negative or has more than four)
/// and then month, day, hour, minute and second of two digits each, within their ranges;
/// a leap second is second 60. Which time it is depends on the machine, so nothing else
/// is claimed. A system clock that stands before 1970 makes chrono panic.
#[verifier::external_body]
fn formatted_now(format: &str) -> (r: String)
    requires
        format@ == LOG_TIME_FORMAT@,
    ensures
        is_log_time(r@),
{
    chrono::Local::now().format(format).to_string()
}

/// `chrono::Local::now`, shown by `DateTime::to_rfc3339`. The result is date and time of
/// day, with a fraction of three, six or nine digits where there is one, and the offset
/// from UTC in hours and minutes. Which time it is depends on the machine, so nothing
/// else is claimed. A system clock that stands before 1970 makes chrono panic.
#[verifier::external_body]
fn rfc3339_now() -> (r: String)
    ensures
        is_marker_time(r@),
{
    chrono::Local::now().to_rfc3339()
}

/// The time, for the guard's log.
pub fn log_time() -> (r: String)
    ensures
        is_log_time(r@),
{
    formatted_now(LOG_TIME_FORMAT)
}

/// The time, for an invalid marker.
pub fn marker_time() -> (r: String)
    ensures
        is_marker_time(r@),
{
    rfc3339_now()
}

} // verus!
