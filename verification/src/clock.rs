//! Times: the clock, and moments written out in the local time zone.

use crate::text::decimal;
use chrono::{DateTime, Local, SecondsFormat, Utc};
use vstd::prelude::*;

verus! {

/// The first and the last second that can be written out in any time zone.
pub const FIRST_SECOND: i64 = -8_334_601_142_400;

pub const LAST_SECOND: i64 = 8_210_266_790_399;

/// A moment that can be written out: seconds since 1970 in UTC, and nanoseconds.
pub open spec fn is_moment(secs: i64, nanos: u32) -> bool {
    FIRST_SECOND <= secs <= LAST_SECOND && nanos < 1_000_000_000
}

/// Whether a moment can be written out.
pub fn moment(secs: i64, nanos: u32) -> (fits: bool)
    ensures
        fits == is_moment(secs, nanos),
{
    FIRST_SECOND <= secs && secs <= LAST_SECOND && nanos < 1_000_000_000
}

/// A decimal digit.
pub open spec fn is_digit(c: char) -> bool {
    '0' <= c <= '9'
}

/// Two digits stand at a position.
pub open spec fn has_two_digits(text: Seq<char>, at: int) -> bool {
    is_digit(text[at]) && is_digit(text[at + 1])
}

/// The value of the two digits at a position.
pub open spec fn two_digits(text: Seq<char>, at: int) -> int {
    10 * (text[at] as int - '0' as int) + (text[at + 1] as int - '0' as int)
}

/// A number with zeros in front, of four digits at least.
pub open spec fn padded(n: nat) -> Seq<char> {
    let digits = decimal(n);
    if digits.len() < 4 {
        Seq::new((4 - digits.len()) as nat, |i: int| '0') + digits
    } else {
        digits
    }
}

/// A year: four digits from 0 to 9999, and a sign and four digits or more otherwise.
pub open spec fn year_text(year: int) -> Seq<char> {
    if 0 <= year <= 9999 {
        padded(year as nat)
    } else if year < 0 {
        seq!['-'] + padded((-year) as nat)
    } else {
        seq!['+'] + padded(year as nat)
    }
}

/// Text of the form `2018-01-26T10:30:09+08:00`, whose year is `year` and takes the first
/// `at` characters.
pub open spec fn is_stamp(text: Seq<char>, year: int, at: int) -> bool {
    &&& 0 <= at
    &&& text.len() == at + 21
    &&& text.take(at) == year_text(year)
    &&& text[at] == '-' && text[at + 3] == '-' && text[at + 6] == 'T'
    &&& text[at + 9] == ':' && text[at + 12] == ':' && text[at + 18] == ':'
    &&& text[at + 15] == '+' || text[at + 15] == '-'
    &&& has_two_digits(text, at + 1) && 1 <= two_digits(text, at + 1) <= 12
    &&& has_two_digits(text, at + 4) && 1 <= two_digits(text, at + 4) <= 31
    &&& has_two_digits(text, at + 7) && two_digits(text, at + 7) < 24
    &&& has_two_digits(text, at + 10) && two_digits(text, at + 10) < 60
    &&& has_two_digits(text, at + 13) && two_digits(text, at + 13) < 60
    &&& has_two_digits(text, at + 16)
    &&& has_two_digits(text, at + 19) && two_digits(text, at + 19) < 60
}

/// The days from 1970-01-01 to a date of the Gregorian calendar.
pub open spec fn days_of(year: int, month: int, day: int) -> int {
    let y = if month <= 2 {
        year - 1
    } else {
        year
    };
    let m = if month <= 2 {
        month + 9
    } else {
        month - 3
    };
    365 * y + y / 4 - y / 100 + y / 400 + (153 * m + 2) / 5 + day - 1 - 719_468
}

/// The second since 1970 in UTC that a stamp of a year names.
pub open spec fn stamp_second(text: Seq<char>, year: int, at: int) -> int {
    let days = days_of(year, two_digits(text, at + 1), two_digits(text, at + 4));
    let local = 86_400 * days + 3_600 * two_digits(text, at + 7) + 60 * two_digits(text, at + 10)
        + two_digits(text, at + 13);
    let offset = 3_600 * two_digits(text, at + 16) + 60 * two_digits(text, at + 19);
    if text[at + 15] == '-' {
        local + offset
    } else {
        local - offset
    }
}

/// `text` tells a moment in some time zone. The offset of a time zone is rounded to
/// minutes, so the two differ by half a minute at most.
pub open spec fn tells_moment(text: Seq<char>, secs: i64) -> bool {
    exists|year: int, at: int| #[trigger]
        is_stamp(text, year, at) && -30 <= stamp_second(text, year, at) - secs <= 30
}

/// The seconds since 1970 in UTC, now.
///
/// Calls `chrono::Local::now` and `DateTime::timestamp`. Nothing is claimed of the
/// result: it is whatever the clock says.
#[verifier::external_body]
pub(crate) fn now() -> (secs: i64) {
    Local::now().timestamp()
}

/// A moment written out in the local time zone, to the second.
///
/// Calls `chrono::DateTime::from_timestamp`, `with_timezone` and `to_rfc3339_opts`. The
/// contract claims that the text is an RFC 3339 date and time of that moment, with a signed
/// year where that is not one from 0 to 9999. Which time zone it is written in depends on
/// the machine, and is left open.
#[verifier::external_body]
pub(crate) fn local_stamp(secs: i64, nanos: u32) -> (text: String)
    requires
        is_moment(secs, nanos),
    ensures
        tells_moment(text@, secs),
{
    DateTime::<Utc>::from_timestamp(secs, nanos).unwrap().with_timezone(&Local).to_rfc3339_opts(
        SecondsFormat::Secs,
        false,
    )
}

} // verus!
