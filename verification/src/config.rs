//! The configuration of the program.

use vstd::prelude::*;
use vstd::string::StringExecFns;

verus! {

/// The length of a short break, in minutes.
pub const SHORT_BREAK_MINUTES: i64 = 5;

/// The length of a long break, in minutes.
pub const LONG_BREAK_MINUTES: i64 = 15;

/// The offset of the time zone in which days begin and end: nine hours
/// east of UTC, in seconds.
pub const TIMEZONE_SECONDS: i32 = 32_400;

/// What the program is configured with. It is set once at startup and read
/// from then on.
#[derive(Debug)]
pub struct Config {
    /// The path of the database file.
    pub database: String,
    /// The length of a short break, in minutes.
    pub short_break: i64,
    /// The length of a long break, in minutes.
    pub long_break: i64,
    /// The time zone in which days begin and end, in seconds east of UTC.
    pub timezone: i32,
}

impl Config {
    /// The configuration of an operator whose home directory is `home`: the
    /// database is the file `.ly.db` in it.
    pub fn for_home(home: &str) -> (config: Config)
        ensures
            config.database@ == home@ + "/.ly.db"@,
            config.short_break == SHORT_BREAK_MINUTES,
            config.long_break == LONG_BREAK_MINUTES,
            config.timezone == TIMEZONE_SECONDS,
    {
        let mut database = String::from_str(home);
        database.append("/.ly.db");
        Config {
            database,
            short_break: SHORT_BREAK_MINUTES,
            long_break: LONG_BREAK_MINUTES,
            timezone: TIMEZONE_SECONDS,
        }
    }
}

impl Clone for Config {
    fn clone(&self) -> (copy: Self)
        ensures
            copy.database@ == self.database@,
            copy.short_break == self.short_break,
            copy.long_break == self.long_break,
            copy.timezone == self.timezone,
    {
        Config {
            database: self.database.clone(),
            short_break: self.short_break,
            long_break: self.long_break,
            timezone: self.timezone,
        }
    }
}

} // verus!
