//! Calendar days in a time zone at a fixed offset from UTC.

use crate::common::{Timestamp, MILLIS_PER_DAY, MILLIS_PER_SECOND};
use crate::stats::local_day;
use chrono::{Datelike, FixedOffset, TimeZone};
use vstd::prelude::*;

verus! {

/// The earliest instant that calendar dates are computed for, some 250,000
/// years before 1970.
pub const MIN_INSTANT: Timestamp = -8_000_000_000_000_000;

/// The latest instant that calendar dates are computed for, some 250,000
/// years after 1970.
pub const MAX_INSTANT: Timestamp = 8_000_000_000_000_000;

/// Whether calendar dates are computed for the instant.
pub open spec fn is_calendar_instant(instant: Timestamp) -> bool {
    MIN_INSTANT <= instant <= MAX_INSTANT
}

/// Whether `timezone` is an offset of a time zone, in seconds east of UTC:
/// less than one day either way.
pub open spec fn is_offset(timezone: i32) -> bool {
    -86_400 < timezone < 86_400
}

/// Whether calendar dates are computed for the instant.
pub fn in_calendar(instant: Timestamp) -> (inside: bool)
    ensures
        inside == is_calendar_instant(instant),
{
    MIN_INSTANT <= instant && instant <= MAX_INSTANT
}

/// Whether `timezone` is an offset of a time zone.
pub fn valid_offset(timezone: i32) -> (valid: bool)
    ensures
        valid == is_offset(timezone),
{
    -86_400 < timezone && timezone < 86_400
}

/// The instant at which the calendar day of `instant` begins in the time
/// zone `timezone` seconds east of UTC: the latest instant, not after
/// `instant`, at which a clock of that zone shows midnight.
pub open spec fn day_start(instant: Timestamp, timezone: i32) -> int {
    instant - (instant + timezone * MILLIS_PER_SECOND) % (MILLIS_PER_DAY as int)
}

/// Midnight of the local date of `instant`, as chrono computes it:
/// `FixedOffset::east_opt` and `TimeZone::timestamp_millis_opt` turn the two
/// numbers into a `DateTime<FixedOffset>`, `Datelike::year`, `month` and
/// `day` read its local date, `TimeZone::with_ymd_and_hms` gives that date
/// at 00:00:00 in the same zone, and `DateTime::timestamp_millis` turns it
/// back into a number. The contract claims that this is the instant of
/// [`day_start`]: local time is UTC plus the offset, and a local day is
/// 86,400,000 milliseconds. Inside the range that `requires` admits none of
/// the calls returns `None`.
#[verifier::external_body]
fn local_midnight(instant: Timestamp, timezone: i32) -> (start: Timestamp)
    requires
        is_calendar_instant(instant),
        is_offset(timezone),
    ensures
        start == day_start(instant, timezone),
{
    let zone = FixedOffset::east_opt(timezone).unwrap();
    let local = zone.timestamp_millis_opt(instant).unwrap();
    zone.with_ymd_and_hms(local.year(), local.month(), local.day(), 0, 0, 0)
        .unwrap()
        .timestamp_millis()
}

/// Returns the start of the day on which `ts` falls in the time zone
/// `timezone` seconds east of UTC.
pub fn start_of_day_in_tz(ts: Timestamp, timezone: i32) -> (start: Timestamp)
    requires
        is_calendar_instant(ts),
        is_offset(timezone),
    ensures
        start == day_start(ts, timezone),
        start <= ts < start + MILLIS_PER_DAY,
        (start + timezone * MILLIS_PER_SECOND) % (MILLIS_PER_DAY as int) == 0,
{
    proof {
        lemma_day_start(ts, timezone);
    }
    local_midnight(ts, timezone)
}

/// The start of a day is a local midnight, and the instant falls on the 24
/// hours that begin there.
pub proof fn lemma_day_start(instant: Timestamp, timezone: i32)
    ensures
        day_start(instant, timezone) <= instant < day_start(instant, timezone) + MILLIS_PER_DAY,
        (day_start(instant, timezone) + timezone * MILLIS_PER_SECOND) % (MILLIS_PER_DAY as int)
            == 0,
        local_day(instant, timezone) == day_start(instant, timezone) + timezone
            * MILLIS_PER_SECOND,
{
    let local = instant + timezone * MILLIS_PER_SECOND;
    let day = MILLIS_PER_DAY as int;
    assert((local - local % day) % day == 0) by {
        vstd::arithmetic::div_mod::lemma_fundamental_div_mod(local, day);
        vstd::arithmetic::div_mod::lemma_mod_multiples_basic(local / day, day);
        assert(local - local % day == day * (local / day));
        assert(day * (local / day) == (local / day) * day) by (nonlinear_arith);
    }
}

/// The daily list and the statistics agree on the day of an instant. Let
/// `date` be the start of a day in the time zone, as the daily list takes
/// it. An instant falls on the 24 hours from `date`, where the daily list
/// counts it, exactly if the statistics put it on the calendar day of
/// `date`.
pub proof fn lemma_day_window_is_calendar_day(date: Timestamp, instant: Timestamp, timezone: i32)
    requires
        (date + timezone * MILLIS_PER_SECOND) % (MILLIS_PER_DAY as int) == 0,
    ensures
        (date <= instant < date + MILLIS_PER_DAY) <==> local_day(instant, timezone) == local_day(
            date,
            timezone,
        ),
        local_day(date, timezone) == date + timezone * MILLIS_PER_SECOND,
{
    let day = MILLIS_PER_DAY as int;
    let first = date + timezone * MILLIS_PER_SECOND;
    let local = instant + timezone * MILLIS_PER_SECOND;
    vstd::arithmetic::div_mod::lemma_fundamental_div_mod(local, day);
    vstd::arithmetic::div_mod::lemma_fundamental_div_mod(first, day);
    let q = local / day;
    let p = first / day;
    assert(first == day * p);
    assert(local == day * q + local % day);
    assert(0 <= local % day < day);
    if first <= local < first + day {
        assert(q == p) by (nonlinear_arith)
            requires
                day * p <= day * q + local % day < day * p + day,
                0 <= local % day < day,
                day > 0,
        ;
    }
    if local - local % day == first {
        assert(first <= local < first + day);
    }
}

} // verus!
