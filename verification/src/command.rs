//! What the commands of the program decide before and after they touch the
//! repository or the clock.

use crate::calendar::{
    day_start, in_calendar, is_calendar_instant, is_offset, start_of_day_in_tz,
};
use crate::clock;
use crate::common::{Id, RepositoryError, Timestamp};
use crate::config::Config;
use crate::task;
use crate::timer;
use crate::timer::{pomodoro_outcome, take_break_outcome, Timer, TimerType};
use chrono::{FixedOffset, TimeZone, Utc};
use vstd::prelude::*;
use vstd::string::StringExecFns;

verus! {

/// The kind of a break, as the operator names it.
#[derive(Debug, Clone, Copy, PartialEq, Eq, PartialOrd, Ord, Structural)]
pub enum BreakType {
    Short,
    Long,
}

impl BreakType {
    /// The kind of timer that times the break.
    pub open spec fn timer_type(self) -> TimerType {
        match self {
            BreakType::Short => TimerType::ShortBreak,
            BreakType::Long => TimerType::LongBreak,
        }
    }

    /// The configured length of the break, in minutes.
    pub open spec fn minutes(self, conf: Config) -> i64 {
        match self {
            BreakType::Short => conf.short_break,
            BreakType::Long => conf.long_break,
        }
    }
}

/// A timer that was started, and how long the caller is to wait before it
/// completes it.
#[derive(Debug)]
pub struct Running {
    pub timer: Timer,
    /// The length of the session in seconds.
    pub seconds: u64,
}

/// Whether a session of `duration_min` minutes has a length in seconds: the
/// minutes are not negative and the seconds fit an `i64`.
pub open spec fn is_session_length(duration_min: i64) -> bool {
    0 <= duration_min && duration_min * 60 <= i64::MAX
}

/// The length in seconds of a session of `duration_min` minutes, where it
/// has one.
pub fn session_seconds(duration_min: i64) -> (seconds: Option<u64>)
    ensures
        match seconds {
            Some(seconds) => is_session_length(duration_min) && seconds == duration_min * 60,
            None => !is_session_length(duration_min),
        },
{
    if duration_min < 0 || duration_min > 153_722_867_280_912_930 {
        None
    } else {
        Some((duration_min * 60) as u64)
    }
}

/// Starts a work session on the task `task_id` and says how long to wait
/// before it is to be completed.
pub fn start_pomodoro<R>(r: &mut R, task_id: Id, duration_min: i64) -> (result: Result<
    Running,
    RepositoryError,
>) where
    R: timer::Lifecycle + timer::Get + timer::TimerTaskAdd + timer::TimerTaskGet + task::Fetch,

    requires
        is_session_length(duration_min),
    ensures
        pomodoro_outcome(
            R::reliable(),
            old(r)@,
            task_id,
            duration_min,
            match result {
                Ok(running) => Ok(running.timer@),
                Err(e) => Err(e),
            },
            final(r)@,
        ),
        result is Ok ==> result->Ok_0.seconds == duration_min * 60,
{
    match timer::pomodoro(r, task_id, duration_min) {
        Ok(timer) => Ok(Running { timer, seconds: (duration_min * 60) as u64 }),
        Err(e) => Err(e),
    }
}

/// Starts a break of the kind `break_type`, of the length that is configured
/// for it, and says how long to wait before it is to be completed.
pub fn start_break<R>(r: &mut R, conf: &Config, break_type: BreakType) -> (result: Result<
    Running,
    RepositoryError,
>) where R: timer::Lifecycle + timer::Get + timer::TimerTaskGet
    requires
        is_session_length(break_type.minutes(*conf)),
    ensures
        take_break_outcome(
            R::reliable(),
            old(r)@,
            break_type.timer_type(),
            break_type.minutes(*conf),
            match result {
                Ok(running) => Ok(running.timer@),
                Err(e) => Err(e),
            },
            final(r)@,
        ),
        result is Ok ==> result->Ok_0.seconds == break_type.minutes(*conf) * 60,
{
    let (timer_type, duration_min) = match break_type {
        BreakType::Short => (TimerType::ShortBreak, conf.short_break),
        BreakType::Long => (TimerType::LongBreak, conf.long_break),
    };
    match timer::take_break(r, &timer_type, duration_min) {
        Ok(timer) => Ok(Running { timer, seconds: (duration_min * 60) as u64 }),
        Err(e) => Err(e),
    }
}

/// Why no day could be told.
#[derive(Debug, Clone, Copy, PartialEq, Eq, Structural)]
pub enum DateError {
    /// The text is no date of the form year-month-day.
    InvalidDate,
    /// The clock shows an instant for which no calendar date is computed.
    ClockOutOfRange,
}

/// The instant that chrono reads from a text of the form
/// `%Y-%m-%dT%H:%M:%S`, taken as local time in the time zone `timezone`
/// seconds east of UTC; `None` where chrono does not accept the text.
pub uninterp spec fn local_time_read(text: Seq<char>, timezone: i32) -> Option<Timestamp>;

/// Reads a local date and time with chrono: `TimeZone::datetime_from_str`
/// on a `FixedOffset` with the format `%Y-%m-%dT%H:%M:%S`, then
/// `DateTime::timestamp_millis`. The result depends on the text and the
/// offset alone; the contract gives it its name and claims no more.
#[verifier::external_body]
#[allow(deprecated)]
fn read_local_time(text: &str, timezone: i32) -> (instant: Option<Timestamp>)
    requires
        is_offset(timezone),
    ensures
        instant == local_time_read(text@, timezone),
{
    let zone = FixedOffset::east_opt(timezone).unwrap();
    match zone.datetime_from_str(text, "%Y-%m-%dT%H:%M:%S") {
        Ok(local) => Some(local.timestamp_millis()),
        Err(_) => None,
    }
}

/// The day that a command is about, given what the clock shows: the day
/// that `input` names, or else the day of the instant `now`.
pub open spec fn date_resolved(timezone: i32, input: Option<Seq<char>>, now: Timestamp) -> Result<
    Timestamp,
    DateError,
> {
    match input {
        Some(text) => match local_time_read(text + "T00:00:00"@, timezone) {
            Some(instant) => Ok(instant),
            None => Err(DateError::InvalidDate),
        },
        None => if is_calendar_instant(now) {
            Ok(day_start(now, timezone) as i64)
        } else {
            Err(DateError::ClockOutOfRange)
        },
    }
}

/// The start of the day that a command is about, in the time zone
/// `timezone` seconds east of UTC: of the day that `input` names as
/// year-month-day, or else of the day on which the instant `now` falls.
pub fn resolve_date(timezone: i32, input: Option<&str>, now: Timestamp) -> (date: Result<
    Timestamp,
    DateError,
>)
    requires
        is_offset(timezone),
    ensures
        date == date_resolved(timezone, task::text_of(input), now),
{
    match input {
        Some(input) => {
            let mut dt = String::from_str(input);
            dt.append("T00:00:00");
            match read_local_time(dt.as_str(), timezone) {
                Some(instant) => Ok(instant),
                None => Err(DateError::InvalidDate),
            }
        },
        None => {
            if in_calendar(now) {
                Ok(start_of_day_in_tz(now, timezone))
            } else {
                Err(DateError::ClockOutOfRange)
            }
        },
    }
}

/// The start of the day that a command is about: of the day that `input`
/// names as year-month-day, or else of today. What today is the clock says,
/// so with no input the result is that of [`resolve_date`] for some instant.
pub fn parse_or_today(timezone: i32, input: Option<&str>) -> (date: Result<Timestamp, DateError>)
    requires
        is_offset(timezone),
    ensures
        exists|now: Timestamp| date == #[trigger] date_resolved(timezone, task::text_of(input), now),
{
    let now = clock::now();
    resolve_date(timezone, input, now)
}

/// The local date of an instant in the time zone `timezone` seconds east of
/// UTC, written year-month-day as chrono writes it.
pub uninterp spec fn local_date_written(instant: Timestamp, timezone: i32) -> Seq<char>;

/// Writes the local date of an instant with chrono: `DateTime::with_timezone`
/// to a `FixedOffset`, then `DateTime::format` with `%Y-%m-%d`. The result
/// depends on the instant and the offset alone; the contract gives it its
/// name and claims no more.
#[verifier::external_body]
fn write_local_date(instant: Timestamp, timezone: i32) -> (text: String)
    requires
        is_calendar_instant(instant),
        is_offset(timezone),
    ensures
        text@ == local_date_written(instant, timezone),
{
    let zone = FixedOffset::east_opt(timezone).unwrap();
    Utc.timestamp_millis_opt(instant).unwrap().with_timezone(&zone).format("%Y-%m-%d").to_string()
}

/// The date of `date` in the configured time zone, written year-month-day.
pub fn format_date(conf: &Config, date: Timestamp) -> (text: String)
    requires
        is_calendar_instant(date),
        is_offset(conf.timezone),
    ensures
        text@ == local_date_written(date, conf.timezone),
{
    write_local_date(date, conf.timezone)
}

} // verus!
