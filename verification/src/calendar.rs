//! Weeks of the calendar: the Monday that starts the week of a timestamp, and the
//! number of whole weeks between two timestamps.

use vstd::prelude::*;
#[allow(unused_imports)]
use chrono::{Datelike, Timelike};
#[allow(unused_imports)]
use vstd::arithmetic::div_mod::{lemma_fundamental_div_mod, lemma_fundamental_div_mod_converse, lemma_div_is_ordered};

verus! {

pub const SECONDS_PER_DAY: i64 = 86400;

pub const SECS_IN_WEEK: i64 = 604800;

/// The earliest timestamp that chrono's `NaiveDateTime` can hold
/// (the first second of the year -262143).
pub const MIN_TIMESTAMP: i64 = -8334601315200;

/// The latest timestamp that chrono's `NaiveDateTime` can hold
/// (the last second of the year 262142).
pub const MAX_TIMESTAMP: i64 = 8210266876799;

pub open spec fn timestamp_in_range(t: int) -> bool {
    MIN_TIMESTAMP <= t <= MAX_TIMESTAMP
}

/// The day of the week of a timestamp, counted from Monday (0) to Sunday (6):
/// the first of January 1970 was a Thursday.
pub open spec fn spec_days_from_monday(t: int) -> int {
    (t / 86400 + 3) % 7
}

/// The Monday, at midnight, that starts the week of a timestamp.
pub open spec fn monday_of(t: int) -> int {
    t - (t + 259200) % 604800
}

/// Quotient of a division that rounds toward zero, as Rust's `/` on signed integers.
pub open spec fn trunc_div(a: int, b: int) -> int {
    if a >= 0 {
        a / b
    } else {
        -((-a) / b)
    }
}

/// Breaks a timestamp up as chrono's `NaiveDateTime::from_timestamp(t, 0)` does: the
/// timestamp it reports back, the day of the week counted from Monday, and the
/// seconds since midnight.
///
/// Trusted: chrono builds the date from `t.div_euclid(86400)` days after 1970-01-01
/// and the time from `t.rem_euclid(86400)` seconds (`DateTime::from_timestamp`), so
/// the accessors return `t`, the weekday of that day, and that remainder; it panics
/// outside the range of dates it can hold, which `requires` leaves out.
#[verifier::external_body]
#[allow(deprecated)]
fn calendar_position(timestamp: i64) -> (r: (i64, u32, u32))
    requires
        timestamp_in_range(timestamp as int),
    ensures
        r.0 == timestamp,
        r.1 == spec_days_from_monday(timestamp as int),
        r.2 == timestamp % 86400,
{
    let naive_date = chrono::NaiveDateTime::from_timestamp(timestamp, 0);
    (naive_date.timestamp(), naive_date.weekday().num_days_from_monday(), naive_date.num_seconds_from_midnight())
}

proof fn lemma_monday_arithmetic(t: int)
    ensures
        t - spec_days_from_monday(t) * 86400 - t % 86400 == monday_of(t),
{
    let q = t / 86400;
    let s = t % 86400;
    let m = (q + 3) / 7;
    let d = (q + 3) % 7;
    assert(t == q * 86400 + s);
    assert(q + 3 == m * 7 + d);
    assert(t + 259200 == m * 604800 + (d * 86400 + s)) by (nonlinear_arith)
        requires
            t == q * 86400 + s,
            q + 3 == m * 7 + d,
    ;
    lemma_fundamental_div_mod_converse(t + 259200, 604800, m, d * 86400 + s);
}

/// Timestamp of the Monday, at midnight, of the week that holds `timestamp`.
pub fn get_monday_timestamp(timestamp: i64) -> (monday: i64)
    requires
        timestamp_in_range(timestamp as int),
    ensures
        monday == monday_of(timestamp as int),
{
    let (ts, days_from_monday, seconds_from_midnight) = calendar_position(timestamp);
    proof {
        lemma_monday_arithmetic(timestamp as int);
    }
    ts - (days_from_monday as i64) * SECONDS_PER_DAY - (seconds_from_midnight as i64)
}

/// Number of whole weeks from `base_time` to `week_time`, as Rust computes it:
/// the quotient is rounded toward zero and then converted to `usize`.
pub fn calculate_week_num(base_time: &i64, week_time: &i64) -> (weeks: usize)
    requires
        i64::MIN <= *week_time - *base_time <= i64::MAX,
    ensures
        weeks == trunc_div(*week_time - *base_time, 604800) as usize,
{
    ((*week_time - *base_time) / SECS_IN_WEEK) as usize
}

/// The Monday of a timestamp starts its week: it is at most the timestamp and less
/// than a week before it, and it lies a whole number of weeks after the Monday
/// 1969-12-29 (timestamp -259200).
pub proof fn lemma_monday_of(t: int)
    ensures
        monday_of(t) <= t < monday_of(t) + 604800,
        monday_of(t) == 604800 * ((t + 259200) / 604800) - 259200,
{
    lemma_fundamental_div_mod(t + 259200, 604800);
}

/// A later timestamp never has an earlier Monday.
pub proof fn lemma_monday_monotone(s: int, t: int)
    requires
        s <= t,
    ensures
        monday_of(s) <= monday_of(t),
{
    lemma_monday_of(s);
    lemma_monday_of(t);
    lemma_div_is_ordered(s + 259200, t + 259200, 604800);
}

/// Counted from the Monday of `first`, every timestamp between `first` and `last`
/// falls in one of the weeks up to the week of `last`.
pub proof fn lemma_week_within_span(first: int, d: int, last: int)
    requires
        first <= d <= last,
    ensures
        0 <= (d - monday_of(first)) / 604800,
        (d - monday_of(first)) / 604800 < (monday_of(last) - monday_of(first)) / 604800 + 1,
        (monday_of(last) - monday_of(first)) / 604800 >= 0,
{
    lemma_monday_of(first);
    lemma_monday_of(last);
    lemma_monday_monotone(first, last);
    let b = monday_of(first);
    let l = monday_of(last);
    let k = (last + 259200) / 604800 - (first + 259200) / 604800;
    assert(l - b == 604800 * k);
    lemma_fundamental_div_mod_converse(l - b, 604800, k, 0);
    lemma_fundamental_div_mod(d - b, 604800);
    let q = (d - b) / 604800;
    let r = (d - b) % 604800;
    assert(d - b == 604800 * q + r);
    assert(d - b < 604800 * (k + 1));
    assert(q < k + 1) by (nonlinear_arith)
        requires
            d - b == 604800 * q + r,
            0 <= r,
            d - b < 604800 * (k + 1),
    ;
    lemma_div_is_ordered(0, d - b, 604800);
}

/// A Monday is its own Monday.
pub proof fn lemma_monday_of_monday(t: int)
    ensures
        monday_of(monday_of(t)) == monday_of(t),
{
    lemma_monday_of(t);
    let q = (t + 259200) / 604800;
    lemma_fundamental_div_mod_converse(monday_of(t) + 259200, 604800, q, 0);
}

} // verus!
