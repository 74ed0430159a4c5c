//! Series of measurements.

use crate::common::Timestamp;
use vstd::prelude::*;
use vstd::string::StringExecFns;

verus! {

/// What a series measures.
#[derive(Debug, Clone, Copy, PartialEq, Eq, Structural)]
pub enum Instrument {
    /// The number of completed work sessions of each day.
    PomodoroDaily,
}

impl Instrument {
    /// The name of the instrument.
    pub open spec fn name_text(self) -> Seq<char> {
        match self {
            Instrument::PomodoroDaily => "pomodoro.daily"@,
        }
    }

    /// The name of the instrument, as it is shown and sent.
    pub fn name(&self) -> (name: String)
        ensures
            name@ == self.name_text(),
    {
        match self {
            Instrument::PomodoroDaily => String::from_str("pomodoro.daily"),
        }
    }
}

/// The instants `start <= t < end` that a series is asked for.
#[derive(Debug, Clone, Copy, PartialEq, Eq, Structural)]
pub struct TimeRange {
    pub start: Timestamp,
    pub end: Timestamp,
}

} // verus!
