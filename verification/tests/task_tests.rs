use ly::command::{session_seconds, start_break, start_pomodoro, BreakType};
use ly::common::RepositoryError;
use ly::config::Config;
use ly::lane::{fetch_all_lanes, Fetch as LaneFetch, Lane};
use ly::meter::Instrument;
use ly::pomodoro::{sessions_on, Complete, Fetch as PomodoroFetch, Pomodoro};
use ly::priority::fetch_all_priority;
use ly::public::index_html;
use ly::session::Session;
use ly::task::{add_task, list_all_tasks, list_lane, mod_task, Add, Fetch, Mod, Task};
use ly::timer::{get_current_timer, TimerType};

fn initialized() -> Session {
    let mut session = Session::new(9 * 3600);
    session.initialize_at(1_000).unwrap();
    session
}

#[test]
fn a_fresh_repository_has_its_lanes_and_priorities() {
    let mut session = initialized();
    let lanes = fetch_all_lanes(&mut session).unwrap();
    let names: Vec<(i64, &str)> = lanes.iter().map(|l| (l.id, l.name.as_str())).collect();
    assert_eq!(names, vec![(1, "backlog"), (2, "todo"), (3, "done")]);
    assert_eq!(lanes[0].created_at, 1_000);
    let priorities = fetch_all_priority(&mut session).unwrap();
    let names: Vec<(i64, &str)> = priorities.iter().map(|p| (p.id, p.name.as_str())).collect();
    assert_eq!(names, vec![(0, "n"), (1, "l"), (2, "m"), (3, "h")]);
}

#[test]
fn initializing_twice_fails_and_changes_nothing() {
    let mut session = initialized();
    assert_eq!(session.initialize(), Err(RepositoryError::StorageError));
    assert_eq!(fetch_all_lanes(&mut session).unwrap().len(), 3);
    assert_eq!(fetch_all_priority(&mut session).unwrap().len(), 4);
}

#[test]
fn an_empty_repository_knows_no_lane() {
    let mut session = Session::new(0);
    assert!(session.fetch_lane_by_name("backlog").unwrap().is_none());
    assert_eq!(
        add_task(&mut session, "backlog", "n", "x", 1),
        Err(RepositoryError::NotFound)
    );
}

#[test]
fn add_task_needs_a_known_lane_and_priority() {
    let mut session = initialized();
    assert_eq!(add_task(&mut session, "nowhere", "n", "x", 1), Err(RepositoryError::NotFound));
    assert_eq!(add_task(&mut session, "todo", "urgent", "x", 1), Err(RepositoryError::NotFound));
    assert!(session.fetch_task_by_id(1).unwrap().is_none());
    assert_eq!(add_task(&mut session, "todo", "h", "x", 1), Ok(()));
    let task = session.fetch_task_by_id(1).unwrap().unwrap();
    assert_eq!((task.lane_id, task.priority), (2, 3));
}

#[test]
fn tasks_get_the_ids_that_follow() {
    let mut session = initialized();
    session.add_task_at(1, 0, "a", 1, 50).unwrap();
    session.add_task_at(1, 0, "b", 1, 60).unwrap();
    session.add_task_at(2, 3, "c", 1, 70).unwrap();
    let third = session.fetch_task_by_id(3).unwrap().unwrap();
    assert_eq!(third.summary, "c");
    assert_eq!(third.created_at, 70);
    assert_eq!(third.updated_at, 70);
    assert!(session.fetch_task_by_id(4).unwrap().is_none());
    assert!(session.fetch_task_by_id(0).unwrap().is_none());
}

#[test]
fn tasks_are_listed_most_urgent_first() {
    let mut session = initialized();
    add_task(&mut session, "backlog", "l", "low", 1).unwrap();
    add_task(&mut session, "todo", "h", "elsewhere", 1).unwrap();
    add_task(&mut session, "backlog", "h", "high", 1).unwrap();
    add_task(&mut session, "backlog", "l", "low too", 1).unwrap();
    add_task(&mut session, "backlog", "m", "middle", 1).unwrap();
    let tasks = list_all_tasks(&mut session, "backlog").unwrap();
    let summaries: Vec<&str> = tasks.iter().map(|t| t.summary.as_str()).collect();
    assert_eq!(summaries, vec!["high", "middle", "low", "low too"]);
    assert_eq!(list_all_tasks(&mut session, "done").unwrap().len(), 0);
    assert_eq!(list_all_tasks(&mut session, "nowhere").unwrap().len(), 0);
}

#[test]
fn a_revision_replaces_what_is_given_and_keeps_the_rest() {
    let mut session = initialized();
    session.add_task_at(1, 0, "draft", 2, 50).unwrap();
    mod_task(&mut session, 1, Some("todo"), None, None, Some(5)).unwrap();
    let task = session.fetch_task_by_id(1).unwrap().unwrap();
    assert_eq!(task.lane_id, 2);
    assert_eq!(task.priority, 0);
    assert_eq!(task.summary, "draft");
    assert_eq!(task.estimate, 5);
    assert_eq!(task.created_at, 50);
    mod_task(&mut session, 1, None, Some("h"), Some("final"), None).unwrap();
    let task = session.fetch_task_by_id(1).unwrap().unwrap();
    assert_eq!((task.lane_id, task.priority, task.estimate), (2, 3, 5));
    assert_eq!(task.summary, "final");
}

#[test]
fn a_revision_with_an_unknown_name_is_not_found_and_revises_nothing() {
    let mut session = initialized();
    session.add_task(1, 2, "draft", 2).unwrap();
    assert_eq!(
        mod_task(&mut session, 1, Some("nowhere"), None, Some("final"), Some(3)),
        Err(RepositoryError::NotFound)
    );
    assert_eq!(
        mod_task(&mut session, 1, None, Some("urgent"), Some("final"), Some(3)),
        Err(RepositoryError::NotFound)
    );
    assert_eq!(
        mod_task(&mut session, 1, Some("todo"), Some("urgent"), None, None),
        Err(RepositoryError::NotFound)
    );
    let task = session.fetch_task_by_id(1).unwrap().unwrap();
    assert_eq!((task.lane_id, task.priority, task.estimate), (1, 2, 2));
    assert_eq!(task.summary, "draft");
    assert_eq!(mod_task(&mut session, 1, Some("todo"), Some("h"), None, None), Ok(()));
    let task = session.fetch_task_by_id(1).unwrap().unwrap();
    assert_eq!((task.lane_id, task.priority, task.estimate), (2, 3, 2));
}

#[test]
fn a_revision_of_an_unknown_task_is_not_found() {
    let mut session = initialized();
    assert_eq!(
        mod_task(&mut session, 1, None, None, Some("x"), None),
        Err(RepositoryError::NotFound)
    );
    assert_eq!(session.mod_task(9, Some(&2), None, None, None), Err(RepositoryError::NotFound));
}

#[test]
fn a_revision_is_stamped() {
    let mut session = initialized();
    session.add_task_at(1, 0, "draft", 2, 50).unwrap();
    session.add_task_at(1, 0, "other", 2, 60).unwrap();
    session.mod_task_at(1, None, None, None, None, 99).unwrap();
    let task = session.fetch_task_by_id(1).unwrap().unwrap();
    assert_eq!((task.created_at, task.updated_at), (50, 99));
    assert_eq!(task.summary, "draft");
    let other = session.fetch_task_by_id(2).unwrap().unwrap();
    assert_eq!((other.created_at, other.updated_at), (60, 60));
}

#[test]
fn the_ledger_is_read_in_the_order_of_the_starts() {
    let mut session = initialized();
    session.complete_pomodoro_at(1, 300, 310).unwrap();
    session.complete_pomodoro_at(2, 100, 110).unwrap();
    session.complete_pomodoro_at(1, 100, 120).unwrap();
    session.complete_pomodoro_at(1, 100, 130).unwrap();
    session.complete_pomodoro(1, 200).unwrap();
    let ledger = session.fetch_by_task_id(1).unwrap();
    let rows: Vec<(i64, i64)> = ledger.iter().map(|p| (p.id, p.started_at)).collect();
    assert_eq!(rows, vec![(3, 100), (4, 100), (5, 200), (1, 300)]);
    assert_eq!(ledger[0].finished_at, 120);
    assert_eq!(session.fetch_by_task_id(3).unwrap().len(), 0);
}

#[test]
fn the_configuration_of_a_home() {
    let conf = Config::for_home("/home/me");
    assert_eq!(conf.database, "/home/me/.ly.db");
    assert_eq!(conf.short_break, 5);
    assert_eq!(conf.long_break, 15);
    assert_eq!(conf.timezone, 9 * 3600);
    let copy = conf.clone();
    assert_eq!(copy.database, conf.database);
}

#[test]
fn the_length_of_a_session_in_seconds() {
    assert_eq!(session_seconds(25), Some(1_500));
    assert_eq!(session_seconds(0), Some(0));
    assert_eq!(session_seconds(-1), None);
    assert_eq!(session_seconds(i64::MAX / 60), Some((i64::MAX / 60 * 60) as u64));
    assert_eq!(session_seconds(i64::MAX / 60 + 1), None);
}

#[test]
fn a_break_takes_its_length_from_the_configuration() {
    let conf = Config::for_home("/home/me");
    let mut session = initialized();
    let short = start_break(&mut session, &conf, BreakType::Short).unwrap();
    assert_eq!(short.seconds, 300);
    assert_eq!(short.timer.timer_type, TimerType::ShortBreak);
    assert_eq!(short.timer.duration_min, 5);
    assert_eq!(
        start_break(&mut session, &conf, BreakType::Long).err(),
        Some(RepositoryError::AlreadyRunning)
    );
    ly::timer::complete(&mut session, &short.timer).unwrap();
    let long = start_break(&mut session, &conf, BreakType::Long).unwrap();
    assert_eq!(long.seconds, 900);
    assert_eq!(long.timer.timer_type, TimerType::LongBreak);
    assert_eq!(long.timer.label, "long break");
}

#[test]
fn a_work_session_says_how_long_to_wait() {
    let mut session = initialized();
    session.add_task(1, 0, "write paper", 4).unwrap();
    let running = start_pomodoro(&mut session, 1, 25).unwrap();
    assert_eq!(running.seconds, 1_500);
    assert_eq!(running.timer.label, "write paper");
    assert_eq!(start_pomodoro(&mut session, 2, 25).err(), Some(RepositoryError::NotFound));
    assert!(get_current_timer(&mut session).unwrap().is_some());
}

#[test]
fn break_types_are_ordered() {
    assert!(BreakType::Short < BreakType::Long);
    assert_eq!(BreakType::Short, BreakType::Short);
}

#[test]
fn the_instrument_has_its_name() {
    assert_eq!(Instrument::PomodoroDaily.name(), "pomodoro.daily");
}

#[test]
fn the_page_loads_the_client() {
    let page = index_html();
    assert!(page.starts_with("<!DOCTYPE html>"));
    assert!(page.contains("<script src=\"/index.js\"></script>"));
}

#[test]
fn the_tasks_of_a_lane_from_the_tables() {
    let lane = |id: i64, name: &str| Lane { id, name: String::from(name), created_at: 0, updated_at: 0 };
    let task = |id: i64, lane_id: i64, priority: i64| Task {
        id,
        lane_id,
        priority,
        summary: String::new(),
        estimate: 1,
        created_at: 0,
        updated_at: 0,
    };
    let lanes = vec![lane(1, "backlog"), lane(2, "todo"), lane(3, "backlog")];
    let tasks = vec![
        task(1, 1, i64::MIN),
        task(2, 3, i64::MAX),
        task(3, 2, 5),
        task(4, 1, 0),
        task(5, 3, 0),
        task(6, 4, 9),
    ];
    let ids: Vec<i64> = list_lane(&tasks, &lanes, "backlog").iter().map(|t| t.id).collect();
    assert_eq!(ids, vec![2, 4, 5, 1]);
    let ids: Vec<i64> = list_lane(&tasks, &lanes, "todo").iter().map(|t| t.id).collect();
    assert_eq!(ids, vec![3]);
    assert!(list_lane(&tasks, &lanes, "done").is_empty());
    let work = |id: i64, task_id: i64, started_at: i64| Pomodoro { id, task_id, started_at, finished_at: 0 };
    let ledger = vec![work(1, 1, 9), work(2, 2, 1), work(3, 1, -4), work(4, 1, 9)];
    let ids: Vec<i64> = sessions_on(&ledger, 1).iter().map(|p| p.id).collect();
    assert_eq!(ids, vec![3, 1, 4]);
}

#[test]
fn a_session_takes_its_time_zone_from_the_configuration() {
    let conf = Config::for_home("/home/me");
    let mut session = Session::connect(&conf);
    assert!(fetch_all_lanes(&mut session).unwrap().is_empty());
    // 1970-01-01T20:00Z is on the 2nd in the configured zone, nine hours east.
    session.complete_pomodoro_at(1, 20 * 3_600_000, 21 * 3_600_000).unwrap();
    let range = ly::stats::SummaryRange { start: 0, end: 86_400_000 };
    let summary = ly::stats::Fetch::fetch_daily_summary(&mut session, &range).unwrap();
    assert_eq!(summary.len(), 1);
    assert_eq!(summary[0].date, 86_400_000);
}
