//! How long a run takes, written out in days, hours, minutes and seconds.

use vstd::prelude::*;
use crate::text::{chars_of, decimal, decimal_of, joined, string_of};

verus! {

/// The longest span, in seconds, that can be written out.
pub const LONGEST: u64 = 9_223_372_036_854_775;

/// The whole days in a span of seconds.
///
/// This is `chrono::Duration::seconds` followed by `Duration::num_days`.
/// The first makes a duration of the given number of seconds and panics on
/// a number over `i64::MAX / 1000`, hence the bound; the second divides
/// the seconds of the duration by 86400.
#[verifier::external_body]
fn whole_days(seconds: i64) -> (days: i64)
    requires
        0 <= seconds <= LONGEST,
    ensures
        days == seconds / 86_400,
{
    chrono::Duration::seconds(seconds).num_days()
}

/// The whole hours in a span of seconds.
///
/// This is `chrono::Duration::seconds` followed by `Duration::num_hours`,
/// which divides the seconds of the duration by 3600.
#[verifier::external_body]
fn whole_hours(seconds: i64) -> (hours: i64)
    requires
        0 <= seconds <= LONGEST,
    ensures
        hours == seconds / 3_600,
{
    chrono::Duration::seconds(seconds).num_hours()
}

/// The whole minutes in a span of seconds.
///
/// This is `chrono::Duration::seconds` followed by
/// `Duration::num_minutes`, which divides the seconds of the duration by
/// 60.
#[verifier::external_body]
fn whole_minutes(seconds: i64) -> (minutes: i64)
    requires
        0 <= seconds <= LONGEST,
    ensures
        minutes == seconds / 60,
{
    chrono::Duration::seconds(seconds).num_minutes()
}

/// The seconds in a span of seconds, as the duration counts them.
///
/// This is `chrono::Duration::seconds` followed by
/// `Duration::num_seconds`, which gives back the seconds of a duration
/// that is not negative.
#[verifier::external_body]
fn whole_seconds(seconds: i64) -> (counted: i64)
    requires
        0 <= seconds <= LONGEST,
    ensures
        counted == seconds,
{
    chrono::Duration::seconds(seconds).num_seconds()
}

/// A number under a hundred in two digits.
pub open spec fn two_digits(n: nat) -> Seq<char> {
    if n < 10 {
        seq!['0'] + decimal(n)
    } else {
        decimal(n)
    }
}

/// A span of seconds written out: the days, then the hours, minutes and
/// seconds of the last day that was begun, each in two digits.
pub open spec fn duration_text(duration: nat) -> Seq<char> {
    decimal(duration / 86_400) + " Days - "@ + two_digits(duration / 3_600 % 24) + ":"@ + two_digits(
        duration / 60 % 60,
    ) + ":"@ + two_digits(duration % 60)
}

fn pad(n: i64) -> (text: Vec<char>)
    requires
        0 <= n < 100,
    ensures
        text@ == two_digits(n as nat),
{
    let digits = decimal_of(n as u64);
    if n < 10 {
        let mut zero: Vec<char> = Vec::new();
        zero.push('0');
        joined(&zero, &digits)
    } else {
        digits
    }
}

/// Writes out a span of seconds, as in `1 Days - 02:03:04`.
pub fn fmt_duration(duration: u64) -> (text: String)
    requires
        duration <= LONGEST,
    ensures
        text@ == duration_text(duration as nat),
{
    let span: i64 = duration as i64;
    let days = whole_days(span);
    let all_hours = whole_hours(span);
    let all_minutes = whole_minutes(span);
    let hours = all_hours - days * 24;
    let minutes = all_minutes - all_hours * 60;
    let seconds = whole_seconds(span) - all_minutes * 60;
    assert(hours == duration / 3_600 % 24);
    assert(minutes == duration / 60 % 60);
    assert(seconds == duration % 60);
    let mut text = decimal_of(days as u64);
    text = joined(&text, &chars_of(" Days - "));
    text = joined(&text, &pad(hours));
    text = joined(&text, &chars_of(":"));
    text = joined(&text, &pad(minutes));
    text = joined(&text, &chars_of(":"));
    text = joined(&text, &pad(seconds));
    string_of(&text)
}

} // verus!
