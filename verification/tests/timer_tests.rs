use ly::common::RepositoryError;
use ly::pomodoro::Fetch as PomodoroFetch;
use ly::session::Session;
use ly::task::Add;
use ly::timer::{
    complete, get_current_timer, pomodoro, take_break, Lifecycle, Timer, TimerTaskGet, TimerType,
    TimerTypeFromIntError, TIMER_TYPE_LONG_BREAK, TIMER_TYPE_POMODORO, TIMER_TYPE_SHORT_BREAK,
};

fn session_with_task() -> Session {
    let mut session = Session::new(9 * 3600);
    session.initialize().unwrap();
    session.add_task(1, 0, "write paper", 4).unwrap();
    session
}

#[test]
fn second_start_fails_with_already_running_until_complete() {
    let mut session = session_with_task();
    let timer = pomodoro(&mut session, 1, 25).unwrap();
    assert_eq!(pomodoro(&mut session, 1, 25).err(), Some(RepositoryError::AlreadyRunning));
    assert_eq!(
        take_break(&mut session, &TimerType::ShortBreak, 5).err(),
        Some(RepositoryError::AlreadyRunning)
    );
    assert_eq!(
        take_break(&mut session, &TimerType::LongBreak, 15).err(),
        Some(RepositoryError::AlreadyRunning)
    );
    // Every further attempt fails the same way, and the timer stays the first one.
    assert_eq!(pomodoro(&mut session, 1, 10).err(), Some(RepositoryError::AlreadyRunning));
    let running = get_current_timer(&mut session).unwrap().unwrap();
    assert_eq!(running.started_at, timer.started_at);
    assert_eq!(running.duration_min, 25);
    complete(&mut session, &timer).unwrap();
    assert!(pomodoro(&mut session, 1, 25).is_ok());
}

#[test]
fn break_occupies_the_slot_too() {
    let mut session = session_with_task();
    let timer = take_break(&mut session, &TimerType::LongBreak, 15).unwrap();
    assert_eq!(timer.label, "long break");
    assert_eq!(pomodoro(&mut session, 1, 25).err(), Some(RepositoryError::AlreadyRunning));
    assert_eq!(
        take_break(&mut session, &TimerType::ShortBreak, 5).err(),
        Some(RepositoryError::AlreadyRunning)
    );
}

#[test]
fn unknown_task_is_not_found_even_while_a_timer_runs() {
    let mut session = session_with_task();
    assert_eq!(pomodoro(&mut session, 7, 25).err(), Some(RepositoryError::NotFound));
    assert!(get_current_timer(&mut session).unwrap().is_none());
    pomodoro(&mut session, 1, 25).unwrap();
    assert_eq!(pomodoro(&mut session, 7, 25).err(), Some(RepositoryError::NotFound));
}

#[test]
fn round_trip_appends_one_completion() {
    let mut session = session_with_task();
    let timer = pomodoro(&mut session, 1, 5).unwrap();
    assert_eq!(timer.id, 0);
    assert_eq!(timer.timer_type, TimerType::Pomodoro);
    assert_eq!(timer.label, "write paper");
    assert_eq!(timer.duration_min, 5);
    let link = session.get_timer_task().unwrap().unwrap();
    assert_eq!(link.timer_id, 0);
    assert_eq!(link.task_id, 1);
    complete(&mut session, &timer).unwrap();
    let ledger = session.fetch_by_task_id(1).unwrap();
    assert_eq!(ledger.len(), 1);
    assert_eq!(ledger[0].id, 1);
    assert_eq!(ledger[0].task_id, 1);
    assert_eq!(ledger[0].started_at, timer.started_at);
    assert!(ledger[0].finished_at >= ledger[0].started_at);
    assert!(get_current_timer(&mut session).unwrap().is_none());
    assert_eq!(session.get_timer_task().unwrap(), None);
}

#[test]
fn two_round_trips_append_two_completions() {
    let mut session = session_with_task();
    let first = pomodoro(&mut session, 1, 5).unwrap();
    complete(&mut session, &first).unwrap();
    let second = pomodoro(&mut session, 1, 5).unwrap();
    complete(&mut session, &second).unwrap();
    let ledger = session.fetch_by_task_id(1).unwrap();
    assert_eq!(ledger.len(), 2);
    assert_eq!(ledger[0].id, 1);
    assert_eq!(ledger[1].id, 2);
}

#[test]
fn break_has_no_ledger_effect() {
    let mut session = session_with_task();
    let timer = take_break(&mut session, &TimerType::ShortBreak, 5).unwrap();
    assert_eq!(timer.timer_type, TimerType::ShortBreak);
    assert_eq!(timer.label, "short break");
    assert_eq!(session.get_timer_task().unwrap(), None);
    assert_eq!(session.fetch_by_task_id(1).unwrap().len(), 0);
    complete(&mut session, &timer).unwrap();
    assert_eq!(session.get_timer_task().unwrap(), None);
    assert_eq!(session.fetch_by_task_id(1).unwrap().len(), 0);
    assert!(get_current_timer(&mut session).unwrap().is_none());
}

#[test]
fn a_break_of_the_kind_of_a_work_session_is_illegal() {
    let mut session = session_with_task();
    assert_eq!(
        take_break(&mut session, &TimerType::Pomodoro, 5).err(),
        Some(RepositoryError::IllegalTimerType)
    );
    assert!(get_current_timer(&mut session).unwrap().is_none());
}

#[test]
fn completing_a_work_timer_that_has_no_link_is_inconsistent() {
    let mut session = session_with_task();
    let timer = session.start_at(&TimerType::Pomodoro, "write paper", 25, 1_000).unwrap();
    assert_eq!(complete(&mut session, &timer), Err(RepositoryError::InconsistentState));
    assert_eq!(session.fetch_by_task_id(1).unwrap().len(), 0);
    assert!(get_current_timer(&mut session).unwrap().is_some());
}

#[test]
fn completing_with_an_empty_slot_is_not_found() {
    let mut session = session_with_task();
    for timer_type in [TimerType::ShortBreak, TimerType::LongBreak, TimerType::Pomodoro] {
        let stale = Timer {
            id: 0,
            timer_type,
            label: String::from("stale"),
            started_at: 1_000,
            duration_min: 5,
        };
        assert_eq!(complete(&mut session, &stale), Err(RepositoryError::NotFound));
    }
    assert!(get_current_timer(&mut session).unwrap().is_none());
    assert_eq!(session.get_timer_task().unwrap(), None);
    assert_eq!(session.fetch_by_task_id(1).unwrap().len(), 0);
}

#[test]
fn completing_twice_is_not_found_the_second_time() {
    let mut session = session_with_task();
    let timer = pomodoro(&mut session, 1, 25).unwrap();
    assert_eq!(complete(&mut session, &timer), Ok(()));
    assert_eq!(complete(&mut session, &timer), Err(RepositoryError::NotFound));
    assert_eq!(session.fetch_by_task_id(1).unwrap().len(), 1);
    let rest = take_break(&mut session, &TimerType::ShortBreak, 5).unwrap();
    assert_eq!(complete(&mut session, &rest), Ok(()));
    assert_eq!(complete(&mut session, &rest), Err(RepositoryError::NotFound));
}

#[test]
fn a_link_left_over_refuses_the_start_and_nothing_is_started() {
    let mut session = session_with_task();
    ly::timer::TimerTaskAdd::add_timer_task(&mut session, &1).unwrap();
    assert_eq!(pomodoro(&mut session, 1, 25).err(), Some(RepositoryError::InconsistentState));
    assert!(get_current_timer(&mut session).unwrap().is_none());
    assert_eq!(session.get_timer_task().unwrap().map(|link| link.task_id), Some(1));
    assert_eq!(pomodoro(&mut session, 7, 25).err(), Some(RepositoryError::NotFound));
}

#[test]
fn completion_uses_the_start_of_the_timer_handed_in() {
    let mut session = session_with_task();
    let timer = pomodoro(&mut session, 1, 25).unwrap();
    let earlier = Timer { started_at: timer.started_at - 60_000, ..timer.clone() };
    complete(&mut session, &earlier).unwrap();
    let ledger = session.fetch_by_task_id(1).unwrap();
    assert_eq!(ledger[0].started_at, timer.started_at - 60_000);
}

#[test]
fn start_at_stamps_the_timer() {
    let mut session = session_with_task();
    let timer = session.start_at(&TimerType::LongBreak, "long break", 15, 42).unwrap();
    assert_eq!(timer.started_at, 42);
    assert_eq!(
        session.start_at(&TimerType::LongBreak, "long break", 15, 43).err(),
        Some(RepositoryError::AlreadyRunning)
    );
    assert_eq!(get_current_timer(&mut session).unwrap().unwrap().started_at, 42);
    Lifecycle::complete(&mut session).unwrap();
    assert!(get_current_timer(&mut session).unwrap().is_none());
}

#[test]
fn timer_type_numbers() {
    assert_eq!(u8::from(TimerType::Pomodoro), 0);
    assert_eq!(u8::from(TimerType::ShortBreak), 1);
    assert_eq!(u8::from(TimerType::LongBreak), 2);
    let n: u8 = TimerType::LongBreak.into();
    assert_eq!(n, TIMER_TYPE_LONG_BREAK);
    assert_eq!(TimerType::try_from(TIMER_TYPE_POMODORO), Ok(TimerType::Pomodoro));
    assert_eq!(TimerType::try_from(TIMER_TYPE_SHORT_BREAK), Ok(TimerType::ShortBreak));
    assert_eq!(TimerType::try_from(2), Ok(TimerType::LongBreak));
    assert_eq!(TimerType::try_from(3), Err(TimerTypeFromIntError { value: 3 }));
    assert_eq!(TimerType::try_from(255), Err(TimerTypeFromIntError { value: 255 }));
    for code in 0..=2u8 {
        assert_eq!(u8::from(TimerType::try_from(code).unwrap()), code);
    }
}

#[test]
fn error_messages() {
    assert_eq!(RepositoryError::NotFound.message(), "Entity not found");
    assert_eq!(RepositoryError::AlreadyRunning.message(), "Timer is already running");
    assert_eq!(RepositoryError::InconsistentState.message(), "timer_task was not found");
    assert_eq!(RepositoryError::IllegalTimerType.message(), "illegal timer type");
    assert_eq!(RepositoryError::StorageError.message(), "Storage failure");
    assert_eq!(
        TimerTypeFromIntError { value: 9 }.message(),
        "Failed to convert TimerType from"
    );
}

#[test]
fn the_current_timer_comes_with_its_task() {
    let mut session = session_with_task();
    assert!(ly::timer::get_current(&mut session).unwrap().is_none());
    let timer = pomodoro(&mut session, 1, 25).unwrap();
    let current = ly::timer::get_current(&mut session).unwrap().unwrap();
    assert_eq!(current.timer.started_at, timer.started_at);
    assert_eq!(current.timer.timer_type, TimerType::Pomodoro);
    let task = current.task.expect("a work session has its task");
    assert_eq!(task.id, 1);
    assert_eq!(task.summary, "write paper");
    complete(&mut session, &timer).unwrap();
    assert!(ly::timer::get_current(&mut session).unwrap().is_none());
}

#[test]
fn the_current_break_comes_without_a_task() {
    let mut session = session_with_task();
    take_break(&mut session, &TimerType::ShortBreak, 5).unwrap();
    let current = ly::timer::get_current(&mut session).unwrap().unwrap();
    assert_eq!(current.timer.label, "short break");
    assert!(current.task.is_none());
}

#[test]
fn a_work_timer_without_its_link_is_reported() {
    let mut session = session_with_task();
    session.start_at(&TimerType::Pomodoro, "write paper", 25, 7).unwrap();
    assert_eq!(
        ly::timer::get_current(&mut session).err(),
        Some(RepositoryError::InconsistentState)
    );
    ly::timer::TimerTaskAdd::add_timer_task(&mut session, &9).unwrap();
    assert_eq!(ly::timer::get_current(&mut session).err(), Some(RepositoryError::NotFound));
    assert_eq!(
        ly::timer::TimerTaskAdd::add_timer_task(&mut session, &1).err(),
        Some(RepositoryError::InconsistentState)
    );
    let stale = Timer {
        id: 0,
        timer_type: TimerType::Pomodoro,
        label: String::from("write paper"),
        started_at: 7,
        duration_min: 25,
    };
    assert_eq!(complete(&mut session, &stale), Err(RepositoryError::NotFound));
    assert!(get_current_timer(&mut session).unwrap().is_some());
}

#[test]
fn a_link_left_over_refuses_a_break_too() {
    let mut session = session_with_task();
    ly::timer::TimerTaskAdd::add_timer_task(&mut session, &1).unwrap();
    assert_eq!(
        take_break(&mut session, &TimerType::ShortBreak, 5).err(),
        Some(RepositoryError::InconsistentState)
    );
    assert!(get_current_timer(&mut session).unwrap().is_none());
    assert_eq!(
        take_break(&mut session, &TimerType::Pomodoro, 5).err(),
        Some(RepositoryError::IllegalTimerType)
    );
    ly::timer::TimerTaskRemove::remove_timer_task(&mut session).unwrap();
    assert!(take_break(&mut session, &TimerType::ShortBreak, 5).is_ok());
}
