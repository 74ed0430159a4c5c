use chrono::{TimeZone, Utc};
use ly::common::{Id, RepositoryError, Timestamp};
use ly::lane::Fetch as LaneFetch;
use ly::pomodoro;
use ly::priority::Fetch as PriorityFetch;
use ly::session::Session;
use ly::stats;
use ly::stats::Fetch;
use ly::task::{Add, Fetch as TaskFetch, Mod as TaskMod, Task};
use ly::timer;
use ly::todo;

const TASK_SUMMARY: &str = "test1";

const JST: i32 = 9 * 3600;

fn get_initialized_session() -> Session {
    let mut session = Session::new(JST);
    session.initialize().expect("failed to initialize session");
    session
}

fn fetch_first_created_task(session: &mut Session) -> Task {
    session
        .fetch_task_by_id(1)
        .expect("fetch failed")
        .expect("Could not found task by id 1")
}

fn add_test_task(session: &mut Session) {
    session.add_task(1, 0, TASK_SUMMARY, 3).expect("add failed");
}

fn at(year: i32, month: u32, day: u32, hour: u32, min: u32, sec: u32) -> Timestamp {
    Utc.with_ymd_and_hms(year, month, day, hour, min, sec)
        .unwrap()
        .timestamp_millis()
}

#[test]
fn test_fetch_lane() {
    let mut session = get_initialized_session();
    let l = session
        .fetch_lane_by_name("backlog")
        .unwrap()
        .expect("returned value should be Some");
    assert_eq!(l.name, "backlog");
}

#[test]
fn test_insert_fetch_task_by_id() {
    let mut session = get_initialized_session();
    add_test_task(&mut session);
    let t = fetch_first_created_task(&mut session);
    assert_eq!(t.lane_id, 1);
    assert_eq!(t.priority, 0);
    assert_eq!(t.summary, TASK_SUMMARY);
    assert_eq!(t.estimate, 3);
}

#[test]
fn test_insert_fetch_all_tasks() {
    let mut session = get_initialized_session();
    add_test_task(&mut session);
    session.add_task(1, 1, "test2", 3).unwrap();
    let backlog = session.fetch_all_tasks("backlog").unwrap();

    assert_eq!(backlog.len(), 2);
    assert_eq!(backlog[0].lane_id, 1);
    assert_eq!(backlog[0].priority, 1);
    assert_eq!(backlog[0].summary, "test2");
    assert_eq!(backlog[0].estimate, 3);
    assert_eq!(backlog[1].lane_id, 1);
    assert_eq!(backlog[1].priority, 0);
    assert_eq!(backlog[1].summary, TASK_SUMMARY);
    assert_eq!(backlog[1].estimate, 3);
    let todo = session.fetch_all_tasks("todo").unwrap();
    assert_eq!(todo.len(), 0);
}

#[test]
fn test_fetch_priority() {
    let mut session = get_initialized_session();
    let h = session.fetch_priority_by_name("h").unwrap();
    assert_eq!(h.name, "h");
}

#[test]
fn test_mod_task_move_lane() {
    let mut session = get_initialized_session();
    add_test_task(&mut session);
    let _ = session.mod_task(1, Some(&2), None, None, None);
    let t = fetch_first_created_task(&mut session);
    assert_eq!(t.lane_id, 2);
}

#[test]
fn test_mod_task_higher_priority_and_new_summary() {
    let mut session = get_initialized_session();
    add_test_task(&mut session);
    session
        .mod_task(1, None, Some(&3), Some("test1 new"), None)
        .unwrap();
    let t = fetch_first_created_task(&mut session);
    assert_eq!(t.priority, 3);
    assert_eq!(t.summary, "test1 new");
}

#[test]
fn test_mod_plan_add_task() {
    let first_task_id = 1;
    let mut session = get_initialized_session();
    add_test_task(&mut session);
    let d = at(2015, 3, 14, 0, 0, 0);
    let a = vec![first_task_id];
    let r = Vec::new();
    todo::mod_todo(&mut session, &d, &a, &r).unwrap();
    let ts = todo::list_todo_tasks(&mut session, &d).unwrap();
    assert_eq!(ts[0].priority, 0);
    assert_eq!(ts[0].estimate, 3);
    assert_eq!(ts[0].actual, 0);
    assert_eq!(ts[0].summary, TASK_SUMMARY);
}

#[test]
fn test_mod_plan_remove_task() {
    let first_task_id = 1;
    let mut session = get_initialized_session();
    add_test_task(&mut session);
    let d = at(2015, 3, 14, 0, 0, 0);
    let include_task = vec![first_task_id];
    let empty = Vec::new();
    todo::mod_todo(&mut session, &d, &include_task, &empty).unwrap();
    todo::mod_todo(&mut session, &d, &empty, &include_task).unwrap();
    let ts = todo::list_todo_tasks(&mut session, &d).unwrap();
    assert_eq!(ts.len(), 0);
}

fn complete_pomodoro<R>(r: &mut R, task_id: Id, started_at: Timestamp) -> Result<(), RepositoryError>
where
    R: pomodoro::Complete,
{
    r.complete_pomodoro(task_id, started_at)
}

fn fetch_by_task_id<R>(r: &mut R, task_id: Id) -> Result<Vec<pomodoro::Pomodoro>, RepositoryError>
where
    R: pomodoro::Fetch,
{
    r.fetch_by_task_id(task_id)
}

#[test]
fn test_fetch_pomodoro_by_task_id() {
    let first_task_id = 1;
    let mut session = get_initialized_session();
    add_test_task(&mut session);
    let now = Utc::now().timestamp_millis();
    complete_pomodoro(&mut session, first_task_id, now).unwrap();
    let pomodoros = fetch_by_task_id(&mut session, first_task_id).unwrap();
    assert_eq!(pomodoros.len(), 1, "count of pomodoro");
    assert_eq!(pomodoros[0].task_id, first_task_id, "task_od");
    assert_eq!(pomodoros[0].started_at, now, "started_at");
}

#[test]
fn test_fetch_todo_task_with_pomodoro() {
    let first_task_id = 1;
    let mut session = get_initialized_session();
    add_test_task(&mut session);
    let d = at(2015, 3, 14, 0, 0, 0);
    let a = vec![first_task_id];
    let r = Vec::new();
    todo::mod_todo(&mut session, &d, &a, &r).unwrap();

    let started = at(2015, 3, 14, 1, 0, 0);
    complete_pomodoro(&mut session, first_task_id, started).unwrap();

    let ts = todo::list_todo_tasks(&mut session, &d).unwrap();
    assert_eq!(ts.len(), 1);
    assert_eq!(ts[0].priority, 0, "priority");
    assert_eq!(ts[0].estimate, 3, "estimate");
    assert_eq!(ts[0].summary, TASK_SUMMARY, "summary");
    assert_eq!(ts[0].actual, 1, "actual");
}

#[test]
fn test_take_break() {
    let duration_min = 5;
    let mut session = get_initialized_session();
    timer::take_break(&mut session, &timer::TimerType::ShortBreak, duration_min).unwrap();
    let created_timer = timer::get_current_timer(&mut session)
        .unwrap()
        .expect("short break timer not found");
    assert_eq!(created_timer.id, 0);
    assert_eq!(created_timer.timer_type, timer::TimerType::ShortBreak);
    assert_eq!(created_timer.duration_min, duration_min);
    assert_eq!(created_timer.label, "short break");
}

#[test]
fn test_start_pomodoro() {
    let duration_min = 5;
    let first_task_id = 1;
    let mut session = get_initialized_session();
    add_test_task(&mut session);
    timer::pomodoro(&mut session, first_task_id, duration_min).unwrap();
    let created_timer = timer::get_current_timer(&mut session)
        .unwrap()
        .expect("pomodoro timer not found");
    assert_eq!(created_timer.id, 0);
    assert_eq!(created_timer.timer_type, timer::TimerType::Pomodoro);
    assert_eq!(created_timer.duration_min, duration_min);
    assert_eq!(created_timer.label, TASK_SUMMARY);
}

#[test]
fn test_fetch_daily_summary() {
    let first_task_id = 1;
    let mut session = get_initialized_session();
    add_test_task(&mut session);
    let started = at(2015, 3, 14, 1, 0, 0);
    complete_pomodoro(&mut session, first_task_id, started).unwrap();
    let range = stats::SummaryRange {
        start: at(2015, 3, 14, 1, 0, 0),
        end: at(2015, 3, 15, 1, 0, 0),
    };
    let summaries = session.fetch_daily_summary(&range).unwrap();
    assert_eq!(summaries.len(), 1);
    assert_eq!(summaries[0].date, at(2015, 3, 14, 0, 0, 0), "date");
    assert_eq!(summaries[0].task_id, first_task_id, "task_id");
    assert_eq!(summaries[0].pomodoro_count, 1, "pomodoro_count");
    assert_eq!(summaries[0].interruption_count, 0, "interruption_count");
}
