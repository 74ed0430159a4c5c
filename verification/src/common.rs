//! Identifiers, instants and the error kinds shared by every component.

use vstd::prelude::*;
use vstd::string::StringExecFns;

verus! {

/// Identifier of a stored row.
pub type Id = i64;

/// An instant: milliseconds since 1970-01-01T00:00:00 UTC.
pub type Timestamp = i64;

/// Milliseconds in one second.
pub const MILLIS_PER_SECOND: i64 = 1_000;

/// Milliseconds in one day.
pub const MILLIS_PER_DAY: i64 = 86_400_000;

/// Why an operation on the repository did not succeed.
#[derive(Debug, Clone, Copy, PartialEq, Eq, Structural)]
pub enum RepositoryError {
    /// A referenced task, lane, priority or timer does not exist.
    NotFound,
    /// A timer was to be started while another one occupies the slot.
    AlreadyRunning,
    /// The stored state contradicts itself, such as a work timer without the
    /// task it is linked to.
    InconsistentState,
    /// A break was requested with the kind of a work session.
    IllegalTimerType,
    /// The storage engine itself failed.
    StorageError,
}

impl RepositoryError {
    /// The text shown to the operator for this error.
    pub open spec fn message_text(self) -> Seq<char> {
        match self {
            RepositoryError::NotFound => "Entity not found"@,
            RepositoryError::AlreadyRunning => "Timer is already running"@,
            RepositoryError::InconsistentState => "timer_task was not found"@,
            RepositoryError::IllegalTimerType => "illegal timer type"@,
            RepositoryError::StorageError => "Storage failure"@,
        }
    }

    /// Renders the error for display.
    pub fn message(&self) -> (text: String)
        ensures
            text@ == self.message_text(),
    {
        match self {
            RepositoryError::NotFound => String::from_str("Entity not found"),
            RepositoryError::AlreadyRunning => String::from_str("Timer is already running"),
            RepositoryError::InconsistentState => String::from_str("timer_task was not found"),
            RepositoryError::IllegalTimerType => String::from_str("illegal timer type"),
            RepositoryError::StorageError => String::from_str("Storage failure"),
        }
    }
}

/// A count as the number it is reported as: itself, or the greatest `i64`
/// where it is greater than that.
pub open spec fn count_as_i64(count: nat) -> i64 {
    if count > i64::MAX {
        i64::MAX
    } else {
        count as i64
    }
}

/// The count after one more was counted.
pub(crate) fn count_one_more(count: i64, Ghost(counted): Ghost<nat>) -> (next: i64)
    requires
        count == count_as_i64(counted),
    ensures
        next == count_as_i64(counted + 1),
{
    if count < i64::MAX {
        count + 1
    } else {
        count
    }
}

/// The integer `value` as an instant: itself, or the nearest instant that
/// can be written where it is outside their range.
pub open spec fn nearest_instant(value: int) -> Timestamp {
    if value < i64::MIN {
        i64::MIN
    } else if value > i64::MAX {
        i64::MAX
    } else {
        value as i64
    }
}

} // verus!
