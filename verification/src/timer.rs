//! The timer lifecycle: at most one timer runs at any moment.

use crate::common::{Id, RepositoryError, Timestamp};
use crate::pomodoro;
use crate::repository::{may_fail, view_of, Repository, RepositoryView};
use crate::task;
use vstd::prelude::*;
use vstd::std_specs::convert::TryFromSpec;
use vstd::string::StringExecFns;

verus! {

/// The number a work session is stored as.
pub const TIMER_TYPE_POMODORO: u8 = 0;

/// The number a short break is stored as.
pub const TIMER_TYPE_SHORT_BREAK: u8 = 1;

/// The number a long break is stored as.
pub const TIMER_TYPE_LONG_BREAK: u8 = 2;

/// The id of the single timer slot.
pub const TIMER_SLOT: Id = 0;

/// What a timer times.
#[derive(Debug, Clone, Copy, PartialEq, Eq, Structural)]
pub enum TimerType {
    Pomodoro,
    ShortBreak,
    LongBreak,
}

/// A number that stands for no kind of timer.
#[derive(Debug, Clone, Copy, PartialEq, Eq, Structural)]
pub struct TimerTypeFromIntError {
    pub value: u8,
}

impl TimerTypeFromIntError {
    /// Renders the error for display.
    pub fn message(&self) -> (text: String)
        ensures
            text@ == "Failed to convert TimerType from"@,
    {
        String::from_str("Failed to convert TimerType from")
    }
}

impl TimerType {
    /// The number this kind is stored as.
    pub open spec fn code(self) -> u8 {
        match self {
            TimerType::Pomodoro => TIMER_TYPE_POMODORO,
            TimerType::ShortBreak => TIMER_TYPE_SHORT_BREAK,
            TimerType::LongBreak => TIMER_TYPE_LONG_BREAK,
        }
    }

    /// Whether the kind is one of the two breaks.
    pub open spec fn is_break(self) -> bool {
        self != TimerType::Pomodoro
    }

    /// The label a break of this kind is started with.
    pub open spec fn break_label(self) -> Seq<char> {
        if self == TimerType::LongBreak {
            "long break"@
        } else {
            "short break"@
        }
    }
}

impl From<TimerType> for u8 {
    fn from(timer_type: TimerType) -> (code: u8) {
        match timer_type {
            TimerType::ShortBreak => TIMER_TYPE_SHORT_BREAK,
            TimerType::LongBreak => TIMER_TYPE_LONG_BREAK,
            TimerType::Pomodoro => TIMER_TYPE_POMODORO,
        }
    }
}

impl vstd::std_specs::convert::FromSpecImpl<TimerType> for u8 {
    open spec fn obeys_from_spec() -> bool {
        true
    }

    open spec fn from_spec(timer_type: TimerType) -> u8 {
        timer_type.code()
    }
}

impl TryFrom<u8> for TimerType {
    type Error = TimerTypeFromIntError;

    fn try_from(value: u8) -> (kind: Result<Self, Self::Error>) {
        if value == TIMER_TYPE_POMODORO {
            Ok(TimerType::Pomodoro)
        } else if value == TIMER_TYPE_SHORT_BREAK {
            Ok(TimerType::ShortBreak)
        } else if value == TIMER_TYPE_LONG_BREAK {
            Ok(TimerType::LongBreak)
        } else {
            Err(TimerTypeFromIntError { value })
        }
    }
}

impl vstd::std_specs::convert::TryFromSpecImpl<u8> for TimerType {
    open spec fn obeys_try_from_spec() -> bool {
        true
    }

    open spec fn try_from_spec(value: u8) -> Result<Self, Self::Error> {
        if value == TIMER_TYPE_POMODORO {
            Ok(TimerType::Pomodoro)
        } else if value == TIMER_TYPE_SHORT_BREAK {
            Ok(TimerType::ShortBreak)
        } else if value == TIMER_TYPE_LONG_BREAK {
            Ok(TimerType::LongBreak)
        } else {
            Err(TimerTypeFromIntError { value })
        }
    }
}

/// Reading back the number of a kind gives the kind, and no other number
/// stands for a kind.
pub proof fn lemma_timer_type_code_round_trip(timer_type: TimerType, value: u8)
    ensures
        TimerType::try_from_spec(timer_type.code()) == Ok::<TimerType, TimerTypeFromIntError>(
            timer_type,
        ),
        TimerType::try_from_spec(value) is Ok ==> TimerType::try_from_spec(value)->Ok_0.code()
            == value,
        TimerType::try_from_spec(value) is Err <==> value > TIMER_TYPE_LONG_BREAK,
{
}

/// The running timer.
#[derive(Debug)]
pub struct Timer {
    pub id: Id,
    pub timer_type: TimerType,
    pub label: String,
    pub started_at: Timestamp,
    pub duration_min: i64,
}

/// The mathematical value of a [`Timer`].
pub struct TimerView {
    pub id: Id,
    pub timer_type: TimerType,
    pub label: Seq<char>,
    pub started_at: Timestamp,
    pub duration_min: i64,
}

impl View for Timer {
    type V = TimerView;

    open spec fn view(&self) -> TimerView {
        TimerView {
            id: self.id,
            timer_type: self.timer_type,
            label: self.label@,
            started_at: self.started_at,
            duration_min: self.duration_min,
        }
    }
}

impl Clone for Timer {
    fn clone(&self) -> (copy: Self)
        ensures
            copy@ == self@,
    {
        Timer {
            id: self.id,
            timer_type: self.timer_type,
            label: self.label.clone(),
            started_at: self.started_at,
            duration_min: self.duration_min,
        }
    }
}

/// The link from the timer slot to the task a work session is about.
#[derive(Debug, Clone, Copy, PartialEq, Eq, Structural)]
pub struct TimerTask {
    pub timer_id: Id,
    pub task_id: Id,
}

/// Whether `timer` is what a start with these arguments puts into the slot.
/// The instant of the start is the repository's to choose.
pub open spec fn started_as(
    timer: TimerView,
    timer_type: TimerType,
    label: Seq<char>,
    duration_min: i64,
) -> bool {
    timer == (TimerView {
        id: TIMER_SLOT,
        timer_type,
        label,
        started_at: timer.started_at,
        duration_min,
    })
}

/// Linking the timer slot to a task.
pub trait TimerTaskAdd: Repository {
    /// Links the timer slot to `task_id`. Where a link exists already the
    /// state is inconsistent and stays as it is.
    fn add_timer_task(&mut self, task_id: &Id) -> (done: Result<(), RepositoryError>)
        ensures
            match done {
                Ok(_) => {
                    &&& old(self)@.timer_task is None
                    &&& final(self)@ == old(self)@.with_timer_task(
                        Some(TimerTask { timer_id: TIMER_SLOT, task_id: *task_id }),
                    )
                },
                Err(e) => {
                    &&& final(self)@ == old(self)@
                    &&& match e {
                        RepositoryError::InconsistentState => old(self)@.timer_task is Some,
                        RepositoryError::StorageError => !Self::reliable(),
                        _ => false,
                    }
                },
            },
    ;
}

/// Removing the link from the timer slot to a task.
pub trait TimerTaskRemove: Repository {
    /// Removes the link, if there is one.
    fn remove_timer_task(&mut self) -> (done: Result<(), RepositoryError>)
        ensures
            match done {
                Ok(_) => final(self)@ == old(self)@.with_timer_task(None),
                Err(e) => {
                    &&& final(self)@ == old(self)@
                    &&& e == RepositoryError::StorageError
                    &&& !Self::reliable()
                },
            },
    ;
}

/// Reading the link from the timer slot to a task.
pub trait TimerTaskGet: Repository {
    /// The link, if there is one. The state is left as it was.
    fn get_timer_task(&mut self) -> (found: Result<Option<TimerTask>, RepositoryError>)
        ensures
            final(self)@ == old(self)@,
            match found {
                Ok(link) => link == old(self)@.timer_task,
                Err(e) => e == RepositoryError::StorageError && !Self::reliable(),
            },
    ;
}

/// Filling and clearing the timer slot.
pub trait Lifecycle: Repository {
    /// Start timer: fills the empty slot. An occupied slot is never
    /// overwritten.
    fn start(&mut self, timer_type: &TimerType, label: &str, duration_min: i64) -> (started:
        Result<Timer, RepositoryError>)
        ensures
            match started {
                Ok(timer) => {
                    &&& old(self)@.timer is None
                    &&& started_as(timer@, *timer_type, label@, duration_min)
                    &&& final(self)@ == old(self)@.with_timer(Some(timer@))
                },
                Err(e) => {
                    &&& final(self)@ == old(self)@
                    &&& match e {
                        RepositoryError::AlreadyRunning => old(self)@.timer is Some,
                        RepositoryError::StorageError => !Self::reliable(),
                        _ => false,
                    }
                },
            },
    ;

    /// Clear timer: empties the slot, whether or not it was occupied.
    fn complete(&mut self) -> (done: Result<(), RepositoryError>)
        ensures
            match done {
                Ok(_) => final(self)@ == old(self)@.with_timer(None),
                Err(e) => {
                    &&& final(self)@ == old(self)@
                    &&& e == RepositoryError::StorageError
                    &&& !Self::reliable()
                },
            },
    ;
}

/// Reading the timer slot.
pub trait Get: Repository {
    /// The running timer, if there is one. The state is left as it was.
    fn get(&mut self) -> (found: Result<Option<Timer>, RepositoryError>)
        ensures
            final(self)@ == old(self)@,
            match found {
                Ok(timer) => view_of(timer) == old(self)@.timer,
                Err(e) => e == RepositoryError::StorageError && !Self::reliable(),
            },
    ;
}

/// Whether `post` is `pre` after a work timer was put into the slot and the
/// link to its task was not written.
pub open spec fn half_started(
    pre: RepositoryView,
    label: Seq<char>,
    duration_min: i64,
    post: RepositoryView,
) -> bool {
    &&& post.timer is Some
    &&& started_as(post.timer->0, TimerType::Pomodoro, label, duration_min)
    &&& post == pre.with_timer(post.timer)
}

/// What [`pomodoro`] may return, and the state it then leaves.
///
/// The timer and its link are created together or not at all: a start that
/// is refused leaves the state as it was. The task is looked up first, so an
/// unknown task is reported even while a timer runs. Only on an engine that
/// is not reliable can the timer be left without its link: where the link
/// could not be written and the timer could not be taken back either.
pub open spec fn pomodoro_outcome(
    reliable: bool,
    pre: RepositoryView,
    task_id: Id,
    duration_min: i64,
    result: Result<TimerView, RepositoryError>,
    post: RepositoryView,
) -> bool {
    match result {
        Ok(timer) => {
            &&& pre.task(task_id) is Some
            &&& pre.idle()
            &&& started_as(timer, TimerType::Pomodoro, pre.task(task_id)->0.summary, duration_min)
            &&& post == pre.with_timer(Some(timer)).with_timer_task(
                Some(TimerTask { timer_id: TIMER_SLOT, task_id }),
            )
        },
        Err(RepositoryError::NotFound) => pre.task(task_id) is None && post == pre,
        Err(RepositoryError::AlreadyRunning) => {
            &&& pre.task(task_id) is Some
            &&& pre.timer is Some
            &&& post == pre
        },
        Err(RepositoryError::InconsistentState) => {
            &&& pre.task(task_id) is Some
            &&& pre.timer is None
            &&& pre.timer_task is Some
            &&& post == pre
        },
        Err(RepositoryError::StorageError) => {
            &&& !reliable
            &&& post == pre || {
                &&& pre.task(task_id) is Some
                &&& pre.idle()
                &&& half_started(pre, pre.task(task_id)->0.summary, duration_min, post)
            }
        },
        Err(RepositoryError::IllegalTimerType) => false,
    }
}

/// Starts a work session on the task `task_id`.
///
/// The timer is labelled with the task's summary and linked to the task.
/// Fails with `NotFound` where the task does not exist, with
/// `AlreadyRunning` where the slot is occupied, and with `InconsistentState`
/// where the slot is empty and a link is left over. Where the link cannot be
/// written, the timer is taken out of the slot again.
pub fn pomodoro<R>(r: &mut R, task_id: Id, duration_min: i64) -> (result: Result<
    Timer,
    RepositoryError,
>) where R: Lifecycle + Get + TimerTaskAdd + TimerTaskGet + task::Fetch
    ensures
        pomodoro_outcome(
            R::reliable(),
            old(r)@,
            task_id,
            duration_min,
            match result {
                Ok(timer) => Ok(timer@),
                Err(e) => Err(e),
            },
            final(r)@,
        ),
{
    let task = match r.fetch_task_by_id(task_id) {
        Ok(Some(task)) => task,
        Ok(None) => {
            return Err(RepositoryError::NotFound);
        },
        Err(e) => {
            return Err(e);
        },
    };
    proof {
        old(r)@.lemma_task_has_id(task_id);
    }
    match r.get() {
        Ok(Some(_)) => {
            return Err(RepositoryError::AlreadyRunning);
        },
        Ok(None) => {},
        Err(e) => {
            return Err(e);
        },
    }
    match r.get_timer_task() {
        Ok(Some(_)) => {
            return Err(RepositoryError::InconsistentState);
        },
        Ok(None) => {},
        Err(e) => {
            return Err(e);
        },
    }
    let timer = match r.start(&TimerType::Pomodoro, task.summary.as_str(), duration_min) {
        Ok(timer) => timer,
        Err(e) => {
            return Err(e);
        },
    };
    match r.add_timer_task(&task.id) {
        Ok(_) => Ok(timer),
        Err(e) => {
            // The link was not written: the timer is taken back.
            let _ = r.complete();
            Err(e)
        },
    }
}

/// What [`take_break`] may return, and the state it then leaves.
pub open spec fn take_break_outcome(
    reliable: bool,
    pre: RepositoryView,
    timer_type: TimerType,
    duration_min: i64,
    result: Result<TimerView, RepositoryError>,
    post: RepositoryView,
) -> bool {
    match result {
        Ok(timer) => {
            &&& timer_type.is_break()
            &&& pre.idle()
            &&& started_as(timer, timer_type, timer_type.break_label(), duration_min)
            &&& post == pre.with_timer(Some(timer))
        },
        Err(RepositoryError::IllegalTimerType) => !timer_type.is_break() && post == pre,
        Err(RepositoryError::AlreadyRunning) => {
            &&& timer_type.is_break()
            &&& pre.timer is Some
            &&& post == pre
        },
        Err(RepositoryError::InconsistentState) => {
            &&& timer_type.is_break()
            &&& pre.timer is None
            &&& pre.timer_task is Some
            &&& post == pre
        },
        Err(RepositoryError::StorageError) => {
            &&& !reliable
            &&& timer_type.is_break()
            &&& post == pre
        },
        Err(_) => false,
    }
}

/// Starts a break of the given kind.
///
/// The timer is labelled "short break" or "long break" and linked to no
/// task. Fails with `IllegalTimerType` for the kind of a work session, with
/// `AlreadyRunning` where the slot is occupied, and with `InconsistentState`
/// where the slot is empty and a link is left over. A start that is refused
/// changes nothing.
pub fn take_break<R>(r: &mut R, timer_type: &TimerType, duration_min: i64) -> (result: Result<
    Timer,
    RepositoryError,
>) where R: Lifecycle + Get + TimerTaskGet
    ensures
        take_break_outcome(
            R::reliable(),
            old(r)@,
            *timer_type,
            duration_min,
            match result {
                Ok(timer) => Ok(timer@),
                Err(e) => Err(e),
            },
            final(r)@,
        ),
{
    let label = match timer_type {
        TimerType::ShortBreak => "short break",
        TimerType::LongBreak => "long break",
        TimerType::Pomodoro => {
            return Err(RepositoryError::IllegalTimerType);
        },
    };
    match r.get() {
        Ok(Some(_)) => {
            return Err(RepositoryError::AlreadyRunning);
        },
        Ok(None) => {},
        Err(e) => {
            return Err(e);
        },
    }
    match r.get_timer_task() {
        Ok(Some(_)) => {
            return Err(RepositoryError::InconsistentState);
        },
        Ok(None) => {},
        Err(e) => {
            return Err(e);
        },
    }
    r.start(timer_type, label, duration_min)
}

/// Whether `post` is `pre` with the session of `timer` on `task_id` recorded
/// in the ledger, and with the link and the timer as given.
pub open spec fn session_recorded(
    pre: RepositoryView,
    task_id: Id,
    started_at: Timestamp,
    timer: Option<TimerView>,
    timer_task: Option<TimerTask>,
    post: RepositoryView,
) -> bool {
    &&& pomodoro::recorded(pre, task_id, started_at, post.pomodoros)
    &&& post == (RepositoryView { pomodoros: post.pomodoros, timer, timer_task, ..pre })
}

/// What [`complete`] may return, and the state it then leaves.
///
/// A completion is valid only while a timer runs: with an empty slot it is
/// `NotFound` and changes nothing, whatever timer is handed in.
/// The kind and the start of the session are those of the timer handed in.
/// The steps are written one after the other: a storage failure between two
/// of them leaves the earlier ones done.
pub open spec fn complete_outcome(
    reliable: bool,
    pre: RepositoryView,
    timer: TimerView,
    result: Result<(), RepositoryError>,
    post: RepositoryView,
) -> bool {
    if pre.timer is None {
        &&& post == pre
        &&& {
            ||| result == Err::<(), RepositoryError>(RepositoryError::NotFound)
            ||| !reliable && result == Err::<(), RepositoryError>(RepositoryError::StorageError)
        }
    } else if timer.timer_type.is_break() {
        match result {
            Ok(_) => post == pre.with_timer_task(None).with_timer(None),
            Err(RepositoryError::StorageError) => {
                &&& !reliable
                &&& post == pre || post == pre.with_timer_task(None)
            },
            Err(_) => false,
        }
    } else {
        match result {
            Ok(_) => {
                &&& pre.timer_task is Some
                &&& pre.task(pre.timer_task->0.task_id) is Some
                &&& session_recorded(
                    pre,
                    pre.timer_task->0.task_id,
                    timer.started_at,
                    None,
                    None,
                    post,
                )
            },
            Err(RepositoryError::InconsistentState) => pre.timer_task is None && post == pre,
            Err(RepositoryError::NotFound) => {
                &&& pre.timer_task is Some
                &&& pre.task(pre.timer_task->0.task_id) is None
                &&& post == pre
            },
            Err(RepositoryError::StorageError) => {
                ||| post == pre && !reliable
                ||| {
                    &&& post == pre
                    &&& pre.timer_task is Some
                    &&& pre.task(pre.timer_task->0.task_id) is Some
                    &&& pre.has_pomodoro(i64::MAX)
                }
                ||| {
                    &&& !reliable
                    &&& pre.timer_task is Some
                    &&& pre.task(pre.timer_task->0.task_id) is Some
                    &&& {
                        ||| session_recorded(
                            pre,
                            pre.timer_task->0.task_id,
                            timer.started_at,
                            pre.timer,
                            pre.timer_task,
                            post,
                        )
                        ||| session_recorded(
                            pre,
                            pre.timer_task->0.task_id,
                            timer.started_at,
                            pre.timer,
                            None,
                            post,
                        )
                    }
                }
            },
            Err(_) => false,
        }
    }
}

/// Ends the session of `timer`.
///
/// Fails with `NotFound` where no timer runs, and changes nothing then.
/// For a work session the linked task is looked up and one record is
/// appended to the ledger, with the start of `timer`; a missing link is an
/// `InconsistentState`. For a break no record is written. Then the link and
/// the timer are removed.
pub fn complete<R>(r: &mut R, timer: &Timer) -> (result: Result<(), RepositoryError>) where
    R: Lifecycle + Get + TimerTaskRemove + TimerTaskGet + task::Fetch + pomodoro::Complete,

    ensures
        complete_outcome(R::reliable(), old(r)@, timer@, result, final(r)@),
{
    match r.get() {
        Ok(Some(_)) => {},
        Ok(None) => {
            return Err(RepositoryError::NotFound);
        },
        Err(e) => {
            return Err(e);
        },
    }
    match timer.timer_type {
        TimerType::ShortBreak => {},
        TimerType::LongBreak => {},
        TimerType::Pomodoro => {
            let timer_task = match r.get_timer_task() {
                Ok(Some(timer_task)) => timer_task,
                Ok(None) => {
                    return Err(RepositoryError::InconsistentState);
                },
                Err(e) => {
                    return Err(e);
                },
            };
            let task = match r.fetch_task_by_id(timer_task.task_id) {
                Ok(Some(task)) => task,
                Ok(None) => {
                    return Err(RepositoryError::NotFound);
                },
                Err(e) => {
                    return Err(e);
                },
            };
            proof {
                old(r)@.lemma_task_has_id(timer_task.task_id);
            }
            match r.complete_pomodoro(task.id, timer.started_at) {
                Ok(_) => {},
                Err(e) => {
                    return Err(e);
                },
            }
        },
    }
    match r.remove_timer_task() {
        Ok(_) => {},
        Err(e) => {
            return Err(e);
        },
    }
    r.complete()
}

/// The running timer, if there is one. Never changes the state.
pub fn get_current_timer<R>(r: &mut R) -> (result: Result<Option<Timer>, RepositoryError>) where
    R: Get + task::Fetch,

    ensures
        final(r)@ == old(r)@,
        match result {
            Ok(timer) => view_of(timer) == old(r)@.timer,
            Err(e) => e == RepositoryError::StorageError && !R::reliable(),
        },
{
    r.get()
}

/// The running timer, with the task that it works on where it times a work
/// session.
#[derive(Debug)]
pub struct CurrentTimer {
    pub timer: Timer,
    pub task: Option<task::Task>,
}

/// The mathematical value of a [`CurrentTimer`].
pub struct CurrentTimerView {
    pub timer: TimerView,
    pub task: Option<task::TaskView>,
}

impl View for CurrentTimer {
    type V = CurrentTimerView;

    open spec fn view(&self) -> CurrentTimerView {
        CurrentTimerView { timer: self.timer@, task: view_of(self.task) }
    }
}

/// What [`get_current`] may return.
pub open spec fn get_current_outcome(
    reliable: bool,
    pre: RepositoryView,
    result: Result<Option<CurrentTimerView>, RepositoryError>,
) -> bool {
    let works = pre.timer is Some && pre.timer->0.timer_type == TimerType::Pomodoro;
    match result {
        Ok(None) => pre.timer is None,
        Ok(Some(current)) => {
            &&& pre.timer == Some(current.timer)
            &&& if works {
                &&& pre.timer_task is Some
                &&& current.task is Some
                &&& current.task == pre.task(pre.timer_task->0.task_id)
            } else {
                current.task is None
            }
        },
        Err(RepositoryError::InconsistentState) => works && pre.timer_task is None,
        Err(RepositoryError::NotFound) => {
            &&& works
            &&& pre.timer_task is Some
            &&& pre.task(pre.timer_task->0.task_id) is None
        },
        Err(RepositoryError::StorageError) => !reliable,
        Err(_) => false,
    }
}

/// The running timer, if there is one, joined with the task that it is
/// linked to where it times a work session. Never changes the state.
///
/// A work timer without its link is an `InconsistentState`, a link to a
/// task that does not exist is `NotFound`.
pub fn get_current<R>(r: &mut R) -> (result: Result<Option<CurrentTimer>, RepositoryError>) where
    R: Get + TimerTaskGet + task::Fetch,

    ensures
        final(r)@ == old(r)@,
        get_current_outcome(
            R::reliable(),
            old(r)@,
            match result {
                Ok(Some(current)) => Ok(Some(current@)),
                Ok(None) => Ok(None),
                Err(e) => Err(e),
            },
        ),
{
    let timer = match r.get() {
        Ok(Some(timer)) => timer,
        Ok(None) => {
            return Ok(None);
        },
        Err(e) => {
            return Err(e);
        },
    };
    match timer.timer_type {
        TimerType::Pomodoro => {},
        _ => {
            return Ok(Some(CurrentTimer { timer, task: None }));
        },
    }
    let link = match r.get_timer_task() {
        Ok(Some(link)) => link,
        Ok(None) => {
            return Err(RepositoryError::InconsistentState);
        },
        Err(e) => {
            return Err(e);
        },
    };
    match r.fetch_task_by_id(link.task_id) {
        Ok(Some(task)) => Ok(Some(CurrentTimer { timer, task: Some(task) })),
        Ok(None) => Err(RepositoryError::NotFound),
        Err(e) => Err(e),
    }
}

/// Exclusivity. After a work session was started, a further start of a work
/// session on a known task is refused and changes nothing. The refusal is
/// `AlreadyRunning`, or a storage failure on an engine that is not reliable.
/// As the state stays as it was, this holds of every further attempt until
/// the session is completed.
pub proof fn lemma_second_pomodoro_is_refused(
    reliable: bool,
    idle: RepositoryView,
    task_id: Id,
    duration_min: i64,
    timer: TimerView,
    running: RepositoryView,
    next_task_id: Id,
    next_duration_min: i64,
    second: Result<TimerView, RepositoryError>,
    after: RepositoryView,
)
    requires
        pomodoro_outcome(reliable, idle, task_id, duration_min, Ok(timer), running),
        running.has_task(next_task_id),
        pomodoro_outcome(reliable, running, next_task_id, next_duration_min, second, after),
    ensures
        after == running,
        second == Err::<TimerView, RepositoryError>(RepositoryError::AlreadyRunning) || (!reliable
            && second == Err::<TimerView, RepositoryError>(RepositoryError::StorageError)),
{
}

/// Exclusivity. After a work session was started, a start of a break is
/// refused and changes nothing. The refusal is `AlreadyRunning`, or a
/// storage failure on an engine that is not reliable.
pub proof fn lemma_break_during_pomodoro_is_refused(
    reliable: bool,
    idle: RepositoryView,
    task_id: Id,
    duration_min: i64,
    timer: TimerView,
    running: RepositoryView,
    break_type: TimerType,
    break_duration_min: i64,
    second: Result<TimerView, RepositoryError>,
    after: RepositoryView,
)
    requires
        pomodoro_outcome(reliable, idle, task_id, duration_min, Ok(timer), running),
        break_type.is_break(),
        take_break_outcome(reliable, running, break_type, break_duration_min, second, after),
    ensures
        after == running,
        second == Err::<TimerView, RepositoryError>(RepositoryError::AlreadyRunning) || (!reliable
            && second == Err::<TimerView, RepositoryError>(RepositoryError::StorageError)),
{
}

/// Exclusivity, from any occupied slot: whatever put the timer there, no
/// start succeeds and none changes the state.
pub proof fn lemma_occupied_slot_refuses_start(
    reliable: bool,
    running: RepositoryView,
    task_id: Id,
    timer_type: TimerType,
    duration_min: i64,
    work: Result<TimerView, RepositoryError>,
    after_work: RepositoryView,
    rest: Result<TimerView, RepositoryError>,
    after_rest: RepositoryView,
)
    requires
        running.timer is Some,
        pomodoro_outcome(reliable, running, task_id, duration_min, work, after_work),
        take_break_outcome(reliable, running, timer_type, duration_min, rest, after_rest),
    ensures
        work is Err,
        rest is Err,
        after_work == running,
        after_rest == running,
{
}

/// On a reliable engine a start from the empty slot succeeds: a work session
/// where the task is known and no link is left over, a break always.
pub proof fn lemma_empty_slot_accepts_start(
    pre: RepositoryView,
    task_id: Id,
    timer_type: TimerType,
    duration_min: i64,
    work: Result<TimerView, RepositoryError>,
    after_work: RepositoryView,
    rest: Result<TimerView, RepositoryError>,
    after_rest: RepositoryView,
)
    requires
        pre.idle(),
        pomodoro_outcome(true, pre, task_id, duration_min, work, after_work),
        take_break_outcome(true, pre, timer_type, duration_min, rest, after_rest),
    ensures
        pre.has_task(task_id) ==> work is Ok,
        timer_type.is_break() ==> rest is Ok,
{
}

/// Round trip. A work session on a task is started and then completed with
/// the timer that the start returned. Where the completion succeeds, the
/// ledger has grown by exactly one record, for that task and with the start
/// of that timer; the slot is empty and the link is gone, so that asking for
/// the current timer afterwards gives none. On a reliable engine whose
/// ledger has an identifier left the completion does succeed.
pub proof fn lemma_pomodoro_round_trip(
    reliable: bool,
    idle: RepositoryView,
    task_id: Id,
    duration_min: i64,
    timer: TimerView,
    running: RepositoryView,
    done: Result<(), RepositoryError>,
    after: RepositoryView,
    current: Result<Option<CurrentTimerView>, RepositoryError>,
)
    requires
        pomodoro_outcome(reliable, idle, task_id, duration_min, Ok(timer), running),
        complete_outcome(reliable, running, timer, done, after),
        get_current_outcome(reliable, after, current),
    ensures
        done is Ok && current is Ok ==> current == Ok::<
            Option<CurrentTimerView>,
            RepositoryError,
        >(None),
        done is Ok ==> {
            &&& after.pomodoros.len() == idle.pomodoros.len() + 1
            &&& after.pomodoros.drop_last() == idle.pomodoros
            &&& after.pomodoros.last().task_id == task_id
            &&& after.pomodoros.last().started_at == timer.started_at
            &&& after.timer is None
            &&& after.timer_task is None
            &&& after == (RepositoryView { pomodoros: after.pomodoros, ..idle })
        },
        reliable && !idle.has_pomodoro(i64::MAX) ==> done is Ok,
{
}

/// The timer and its link are created together or not at all. A start of a
/// work session that is refused leaves the state as it was on a reliable
/// engine; on any engine it leaves it as it was or, where the link could not
/// be written and the timer could not be taken back, with the timer in the
/// slot and nothing else changed. A start that succeeds leaves both.
pub proof fn lemma_start_is_all_or_nothing(
    reliable: bool,
    pre: RepositoryView,
    task_id: Id,
    duration_min: i64,
    result: Result<TimerView, RepositoryError>,
    post: RepositoryView,
)
    requires
        pomodoro_outcome(reliable, pre, task_id, duration_min, result, post),
    ensures
        result is Ok ==> post.timer is Some && post.timer_task is Some,
        result is Err && reliable ==> post == pre,
        result is Err ==> post == pre || (!reliable && pre.idle() && post == pre.with_timer(
            post.timer,
        )),
        result is Err && result != Err::<TimerView, RepositoryError>(
            RepositoryError::StorageError,
        ) ==> post == pre,
{
}

/// A start that succeeds leaves the link exactly where a work session runs,
/// whatever the state was before; a start that is refused changes nothing
/// on a reliable engine.
pub proof fn lemma_start_leaves_link_consistent(
    reliable: bool,
    pre: RepositoryView,
    task_id: Id,
    timer_type: TimerType,
    duration_min: i64,
    work: Result<TimerView, RepositoryError>,
    after_work: RepositoryView,
    rest: Result<TimerView, RepositoryError>,
    after_rest: RepositoryView,
)
    requires
        pomodoro_outcome(reliable, pre, task_id, duration_min, work, after_work),
        take_break_outcome(reliable, pre, timer_type, duration_min, rest, after_rest),
    ensures
        work is Ok ==> after_work.timer_link_consistent(),
        rest is Ok ==> after_rest.timer_link_consistent() && after_rest.timer_task is None,
        rest is Err ==> after_rest == pre,
{
}

/// A completion needs a running timer. With an empty slot it fails and
/// changes nothing, whatever timer is handed in: with `NotFound`, or with a
/// storage failure on an engine that is not reliable. It succeeds only where
/// a timer runs.
pub proof fn lemma_complete_needs_a_timer(
    reliable: bool,
    pre: RepositoryView,
    timer: TimerView,
    done: Result<(), RepositoryError>,
    post: RepositoryView,
)
    requires
        complete_outcome(reliable, pre, timer, done, post),
    ensures
        done is Ok ==> pre.timer is Some,
        pre.timer is None ==> done is Err && post == pre,
        pre.timer is None && reliable ==> done == Err::<(), RepositoryError>(
            RepositoryError::NotFound,
        ),
{
}

/// Exclusivity ends with the completion. Once a work session was started
/// and completed, a reliable engine accepts the next start: of a work
/// session on any stored task, and of a break.
pub proof fn lemma_start_succeeds_after_complete(
    idle: RepositoryView,
    task_id: Id,
    duration_min: i64,
    timer: TimerView,
    running: RepositoryView,
    after: RepositoryView,
    next_task_id: Id,
    break_type: TimerType,
    next_duration_min: i64,
    work: Result<TimerView, RepositoryError>,
    after_work: RepositoryView,
    rest: Result<TimerView, RepositoryError>,
    after_rest: RepositoryView,
)
    requires
        pomodoro_outcome(true, idle, task_id, duration_min, Ok(timer), running),
        complete_outcome(true, running, timer, Ok(()), after),
        after.has_task(next_task_id),
        break_type.is_break(),
        pomodoro_outcome(true, after, next_task_id, next_duration_min, work, after_work),
        take_break_outcome(true, after, break_type, next_duration_min, rest, after_rest),
    ensures
        after.idle(),
        work is Ok,
        rest is Ok,
{
}

/// A break has no effect on the ledger. A break is started and then
/// completed with the timer that the start returned. The
/// ledger is the same before, during and after, whatever the completion
/// returns, and at no point is the slot linked to a task. On a reliable
/// engine the completion succeeds and gives back the state from before.
pub proof fn lemma_break_leaves_ledger(
    reliable: bool,
    idle: RepositoryView,
    break_type: TimerType,
    duration_min: i64,
    timer: TimerView,
    running: RepositoryView,
    done: Result<(), RepositoryError>,
    after: RepositoryView,
)
    requires
        take_break_outcome(reliable, idle, break_type, duration_min, Ok(timer), running),
        complete_outcome(reliable, running, timer, done, after),
    ensures
        running.pomodoros == idle.pomodoros,
        after.pomodoros == idle.pomodoros,
        idle.timer_task is None,
        running.timer_task is None,
        after.timer_task is None,
        done is Ok ==> after == idle,
        reliable ==> done is Ok,
{
}

/// The ledger only grows: whatever a completion returns, the records from
/// before are still there, unchanged and in their places.
pub proof fn lemma_complete_keeps_ledger(
    reliable: bool,
    pre: RepositoryView,
    timer: TimerView,
    done: Result<(), RepositoryError>,
    post: RepositoryView,
)
    requires
        complete_outcome(reliable, pre, timer, done, post),
    ensures
        pre.pomodoros.is_prefix_of(post.pomodoros),
        post.pomodoros.len() <= pre.pomodoros.len() + 1,
        post.interruptions == pre.interruptions,
        post.tasks == pre.tasks,
{
    if post.pomodoros.len() == pre.pomodoros.len() + 1 && post.pomodoros.drop_last()
        == pre.pomodoros {
        assert(pre.pomodoros =~= post.pomodoros.subrange(0, pre.pomodoros.len() as int));
    }
}

/// On a reliable engine the link to a task exists exactly while a work
/// session runs: a start and a completion of the running timer keep it so,
/// whatever they return.
pub proof fn lemma_link_stays_consistent(
    pre: RepositoryView,
    task_id: Id,
    timer_type: TimerType,
    duration_min: i64,
    work: Result<TimerView, RepositoryError>,
    after_work: RepositoryView,
    rest: Result<TimerView, RepositoryError>,
    after_rest: RepositoryView,
    done: Result<(), RepositoryError>,
    after_done: RepositoryView,
)
    requires
        pre.timer_link_consistent(),
        pomodoro_outcome(true, pre, task_id, duration_min, work, after_work),
        take_break_outcome(true, pre, timer_type, duration_min, rest, after_rest),
        pre.timer is Some ==> complete_outcome(true, pre, pre.timer->0, done, after_done),
    ensures
        after_work.timer_link_consistent(),
        after_rest.timer_link_consistent(),
        pre.timer is Some ==> after_done.timer_link_consistent(),
{
}

/// A start writes to neither ledger and to no table but the timer slot and
/// its link, whatever it returns.
pub proof fn lemma_start_keeps_ledgers(
    reliable: bool,
    pre: RepositoryView,
    task_id: Id,
    timer_type: TimerType,
    duration_min: i64,
    work: Result<TimerView, RepositoryError>,
    after_work: RepositoryView,
    rest: Result<TimerView, RepositoryError>,
    after_rest: RepositoryView,
)
    requires
        pomodoro_outcome(reliable, pre, task_id, duration_min, work, after_work),
        take_break_outcome(reliable, pre, timer_type, duration_min, rest, after_rest),
    ensures
        after_work == (RepositoryView {
            timer: after_work.timer,
            timer_task: after_work.timer_task,
            ..pre
        }),
        after_rest == (RepositoryView { timer: after_rest.timer, ..pre }),
{
}

} // verus!
