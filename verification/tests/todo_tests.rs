use chrono::{TimeZone, Utc};
use ly::pomodoro::{Complete, Pomodoro};
use ly::session::Session;
use ly::task::{Add, Task};
use ly::todo::{
    count_actual, list_day, list_todo_tasks, mod_todo, summarize, Fetch, Mod, TodoSummary,
    TodoTask, TodoTaskAssignment,
};

fn session_with_tasks(n: i64) -> Session {
    let mut session = Session::new(9 * 3600);
    session.initialize().unwrap();
    for i in 1..=n {
        session.add_task(1, 0, &format!("task {}", i), i).unwrap();
    }
    session
}

fn local_day(year: i32, month: u32, day: u32) -> i64 {
    // Midnight of the date in UTC+9, as an instant.
    Utc.with_ymd_and_hms(year, month, day, 0, 0, 0).unwrap().timestamp_millis() - 9 * 3_600_000
}

#[test]
fn day_boundary_is_taken_in_the_time_zone() {
    let mut session = session_with_tasks(1);
    let date = local_day(2021, 3, 7);
    mod_todo(&mut session, &date, &[1], &[]).unwrap();
    let started = Utc.with_ymd_and_hms(2021, 3, 6, 23, 10, 33).unwrap().timestamp_millis();
    session.complete_pomodoro(1, started).unwrap();
    let tasks = list_todo_tasks(&mut session, &date).unwrap();
    assert_eq!(tasks.len(), 1);
    assert_eq!(tasks[0].actual, 1);
    // The day before in the same zone does not count it.
    let before = local_day(2021, 3, 6);
    mod_todo(&mut session, &before, &[1], &[]).unwrap();
    let tasks = list_todo_tasks(&mut session, &before).unwrap();
    assert_eq!(tasks[0].actual, 0);
}

#[test]
fn the_window_of_a_day_is_half_open() {
    let mut session = session_with_tasks(1);
    let date = local_day(2021, 3, 7);
    mod_todo(&mut session, &date, &[1], &[]).unwrap();
    session.complete_pomodoro(1, date - 1).unwrap();
    assert_eq!(list_todo_tasks(&mut session, &date).unwrap()[0].actual, 0);
    session.complete_pomodoro(1, date).unwrap();
    assert_eq!(list_todo_tasks(&mut session, &date).unwrap()[0].actual, 1);
    session.complete_pomodoro(1, date + 86_399_999).unwrap();
    assert_eq!(list_todo_tasks(&mut session, &date).unwrap()[0].actual, 2);
    session.complete_pomodoro(1, date + 86_400_000).unwrap();
    assert_eq!(list_todo_tasks(&mut session, &date).unwrap()[0].actual, 2);
}

#[test]
fn work_on_another_task_is_not_counted() {
    let mut session = session_with_tasks(2);
    let date = local_day(2021, 3, 7);
    mod_todo(&mut session, &date, &[1, 2], &[]).unwrap();
    session.complete_pomodoro(2, date + 1).unwrap();
    session.complete_pomodoro(2, date + 2).unwrap();
    let tasks = list_todo_tasks(&mut session, &date).unwrap();
    assert_eq!(tasks[0].task_id, 1);
    assert_eq!(tasks[0].actual, 0);
    assert_eq!(tasks[1].task_id, 2);
    assert_eq!(tasks[1].actual, 2);
}

#[test]
fn tasks_are_listed_in_the_order_in_which_they_were_added() {
    let mut session = session_with_tasks(9);
    let date = local_day(2021, 3, 7);
    mod_todo(&mut session, &date, &[5, 3, 9], &[]).unwrap();
    let tasks = list_todo_tasks(&mut session, &date).unwrap();
    let ids: Vec<i64> = tasks.iter().map(|t| t.task_id).collect();
    assert_eq!(ids, vec![5, 3, 9]);
    assert_eq!(tasks[0].estimate, 5);
    assert_eq!(tasks[0].summary, "task 5");
    assert_eq!(tasks[0].date, date);
}

#[test]
fn the_place_decides_the_order_not_the_time_of_adding() {
    let mut session = session_with_tasks(3);
    let date = local_day(2021, 3, 7);
    session.add_todo_task(&date, &1, 7).unwrap();
    session.add_todo_task(&date, &2, 2).unwrap();
    session.add_todo_task(&date, &3, 2).unwrap();
    let tasks = session.fetch_todo_tasks(&date).unwrap();
    let ids: Vec<i64> = tasks.iter().map(|t| t.task_id).collect();
    // Ascending by place; the two at place 2 in the order in which they were added.
    assert_eq!(ids, vec![2, 3, 1]);
}

#[test]
fn listing_twice_returns_the_same() {
    let mut session = session_with_tasks(3);
    let date = local_day(2021, 3, 7);
    mod_todo(&mut session, &date, &[2, 1, 3], &[]).unwrap();
    session.complete_pomodoro(2, date + 10).unwrap();
    let first = list_todo_tasks(&mut session, &date).unwrap();
    let second = list_todo_tasks(&mut session, &date).unwrap();
    assert_eq!(summarize(&first), summarize(&second));
    assert_eq!(
        summarize(&first),
        Some(TodoSummary { estimate: 6, actual: 1, remaining: 5 })
    );
    for (a, b) in first.iter().zip(second.iter()) {
        assert_eq!((a.task_id, a.estimate, a.actual), (b.task_id, b.estimate, b.actual));
    }
    assert_eq!(first.len(), second.len());
}

#[test]
fn adding_a_task_again_does_not_list_it_twice() {
    let mut session = session_with_tasks(3);
    let date = local_day(2021, 3, 7);
    mod_todo(&mut session, &date, &[1, 2], &[]).unwrap();
    mod_todo(&mut session, &date, &[2, 1], &[]).unwrap();
    let tasks = list_todo_tasks(&mut session, &date).unwrap();
    let ids: Vec<i64> = tasks.iter().map(|t| t.task_id).collect();
    assert_eq!(ids, vec![1, 2]);
    mod_todo(&mut session, &date, &[3, 3], &[]).unwrap();
    assert_eq!(list_todo_tasks(&mut session, &date).unwrap().len(), 3);
}

#[test]
fn removing_happens_after_adding() {
    let mut session = session_with_tasks(3);
    let date = local_day(2021, 3, 7);
    mod_todo(&mut session, &date, &[1, 2, 3], &[2, 7]).unwrap();
    let tasks = list_todo_tasks(&mut session, &date).unwrap();
    let ids: Vec<i64> = tasks.iter().map(|t| t.task_id).collect();
    assert_eq!(ids, vec![1, 3]);
}

#[test]
fn days_are_kept_apart() {
    let mut session = session_with_tasks(3);
    let one = local_day(2021, 3, 7);
    let other = local_day(2021, 3, 8);
    mod_todo(&mut session, &one, &[1, 2], &[]).unwrap();
    mod_todo(&mut session, &other, &[3], &[]).unwrap();
    mod_todo(&mut session, &other, &[], &[1]).unwrap();
    assert_eq!(list_todo_tasks(&mut session, &one).unwrap().len(), 2);
    assert_eq!(list_todo_tasks(&mut session, &other).unwrap().len(), 1);
    assert_eq!(list_todo_tasks(&mut session, &local_day(2021, 3, 9)).unwrap().len(), 0);
}

#[test]
fn mod_todo_creates_the_list_of_the_day_once() {
    let mut session = session_with_tasks(1);
    let date = local_day(2021, 3, 7);
    assert!(session.fetch_by_date(&date).unwrap().is_none());
    mod_todo(&mut session, &date, &[], &[]).unwrap();
    let todo = session.fetch_by_date(&date).unwrap().unwrap();
    assert_eq!(todo.date, date);
    assert_eq!(todo.note, "");
    mod_todo(&mut session, &date, &[1], &[]).unwrap();
    let again = session.fetch_by_date(&date).unwrap().unwrap();
    assert_eq!(again.created_at, todo.created_at);
}

#[test]
fn an_assignment_to_no_task_gives_no_line() {
    let mut session = session_with_tasks(2);
    let date = local_day(2021, 3, 7);
    mod_todo(&mut session, &date, &[1, 42, 2], &[]).unwrap();
    let tasks = list_todo_tasks(&mut session, &date).unwrap();
    let ids: Vec<i64> = tasks.iter().map(|t| t.task_id).collect();
    assert_eq!(ids, vec![1, 2]);
}

fn line(estimate: i64, actual: i64) -> TodoTask {
    TodoTask {
        date: 0,
        task_id: 1,
        lane_id: 1,
        priority: 0,
        summary: String::new(),
        estimate,
        actual,
    }
}

#[test]
fn the_report_line_sums_up() {
    assert_eq!(
        summarize(&Vec::new()),
        Some(TodoSummary { estimate: 0, actual: 0, remaining: 0 })
    );
    assert_eq!(
        summarize(&vec![line(4, 1), line(3, 0), line(2, 2)]),
        Some(TodoSummary { estimate: 9, actual: 3, remaining: 6 })
    );
}

#[test]
fn remaining_is_negative_when_overworked() {
    assert_eq!(
        summarize(&vec![line(1, 3), line(2, 4)]),
        Some(TodoSummary { estimate: 3, actual: 7, remaining: -4 })
    );
}

#[test]
fn a_report_line_that_does_not_fit_is_none() {
    assert_eq!(summarize(&vec![line(i64::MAX, 0), line(1, 0)]), None);
    assert_eq!(summarize(&vec![line(0, i64::MIN), line(0, -1)]), None);
    // Each sum fits, their difference does not.
    assert_eq!(summarize(&vec![line(i64::MAX, -1)]), None);
    assert_eq!(
        summarize(&vec![line(i64::MAX, 0)]),
        Some(TodoSummary { estimate: i64::MAX, actual: 0, remaining: i64::MAX })
    );
    // A sum that leaves the range on the way and comes back fits.
    assert_eq!(
        summarize(&vec![line(i64::MAX, 0), line(5, 0), line(-5, 0)]),
        Some(TodoSummary { estimate: i64::MAX, actual: 0, remaining: i64::MAX })
    );
}

#[test]
fn the_list_of_a_day_comes_with_its_report_line() {
    let mut session = session_with_tasks(3);
    let date = local_day(2021, 3, 7);
    mod_todo(&mut session, &date, &[3, 1], &[]).unwrap();
    session.complete_pomodoro(3, date + 5).unwrap();
    session.complete_pomodoro(3, date + 6).unwrap();
    let list = ly::todo::list_todo(&mut session, &date).unwrap();
    assert_eq!(list.summary, Some(TodoSummary { estimate: 4, actual: 2, remaining: 2 }));
    let rows: Vec<(i64, i64, i64)> =
        list.tasks.iter().map(|t| (t.task_id, t.estimate, t.actual)).collect();
    assert_eq!(rows, vec![(3, 3, 2), (1, 1, 0)]);
    let again = ly::todo::list_todo(&mut session, &date).unwrap();
    assert_eq!(again.summary, list.summary);
    let empty = ly::todo::list_todo(&mut session, &local_day(2021, 3, 8)).unwrap();
    assert_eq!(empty.summary, Some(TodoSummary { estimate: 0, actual: 0, remaining: 0 }));
    assert!(empty.tasks.is_empty());
}

#[test]
fn the_list_of_a_day_from_its_tables() {
    let task = |id: i64, estimate: i64| Task {
        id,
        lane_id: 1,
        priority: 0,
        summary: format!("task {}", id),
        estimate,
        created_at: 0,
        updated_at: 0,
    };
    let row = |date: i64, task_id: i64, todo_order: usize| TodoTaskAssignment { date, task_id, todo_order };
    let work = |id: i64, task_id: i64, started_at: i64| Pomodoro {
        id,
        task_id,
        started_at,
        finished_at: started_at + 1,
    };
    let tasks = vec![task(1, 2), task(2, 4), task(2, 8)];
    let rows = vec![row(100, 2, 1), row(200, 1, 0), row(100, 1, 0), row(100, 5, 2)];
    let ledger = vec![work(1, 2, 100), work(2, 2, 99), work(3, 1, 100 + 86_399_999), work(4, 2, 150)];
    let list = list_day(&tasks, &rows, &ledger, 100);
    let shown: Vec<(i64, i64, i64, i64)> =
        list.iter().map(|t| (t.date, t.task_id, t.estimate, t.actual)).collect();
    // A task that is stored twice is taken as it is stored first.
    assert_eq!(shown, vec![(100, 1, 2, 1), (100, 2, 4, 2)]);
    assert_eq!(count_actual(&ledger, 2, 100), 2);
    assert_eq!(count_actual(&ledger, 2, i64::MAX), 0);
    assert_eq!(count_actual(&ledger, 2, i64::MIN), 0);
    assert_eq!(count_actual(&ledger, 1, 86_400_000), 1);
}

fn places(session: &mut Session, date: i64) -> Vec<(i64, usize)> {
    session
        .fetch_assignments(&date)
        .unwrap()
        .iter()
        .map(|row| (row.task_id, row.todo_order))
        .collect()
}

#[test]
fn what_is_added_takes_the_next_places_of_the_day() {
    let mut session = session_with_tasks(9);
    let date = local_day(2021, 3, 7);
    mod_todo(&mut session, &date, &[5, 3], &[]).unwrap();
    assert_eq!(places(&mut session, date), vec![(5, 0), (3, 1)]);
    mod_todo(&mut session, &date, &[9, 1], &[]).unwrap();
    assert_eq!(places(&mut session, date), vec![(5, 0), (3, 1), (9, 2), (1, 3)]);
    let ids: Vec<i64> =
        list_todo_tasks(&mut session, &date).unwrap().iter().map(|t| t.task_id).collect();
    assert_eq!(ids, vec![5, 3, 9, 1]);
}

#[test]
fn a_task_that_is_on_the_list_takes_no_place() {
    let mut session = session_with_tasks(9);
    let date = local_day(2021, 3, 7);
    mod_todo(&mut session, &date, &[5, 3], &[]).unwrap();
    mod_todo(&mut session, &date, &[3, 7, 5, 7, 2], &[]).unwrap();
    assert_eq!(places(&mut session, date), vec![(5, 0), (3, 1), (7, 2), (2, 3)]);
}

#[test]
fn the_next_place_follows_the_greatest_place_of_the_day() {
    let mut session = session_with_tasks(9);
    let date = local_day(2021, 3, 7);
    let other = local_day(2021, 3, 8);
    session.add_todo_task(&date, &1, 7).unwrap();
    session.add_todo_task(&date, &2, 2).unwrap();
    session.add_todo_task(&other, &3, 40).unwrap();
    mod_todo(&mut session, &date, &[4, 5], &[]).unwrap();
    assert_eq!(places(&mut session, date), vec![(1, 7), (2, 2), (4, 8), (5, 9)]);
    // A place that was given up is not given again while a greater one is held.
    mod_todo(&mut session, &date, &[6], &[2, 5]).unwrap();
    assert_eq!(places(&mut session, date), vec![(1, 7), (4, 8), (6, 10)]);
    mod_todo(&mut session, &other, &[1], &[]).unwrap();
    assert_eq!(places(&mut session, other), vec![(3, 40), (1, 41)]);
    let ids: Vec<i64> =
        list_todo_tasks(&mut session, &date).unwrap().iter().map(|t| t.task_id).collect();
    assert_eq!(ids, vec![1, 4, 6]);
}

#[test]
fn a_day_whose_last_place_is_taken_takes_no_new_task() {
    let mut session = session_with_tasks(3);
    let date = local_day(2021, 3, 7);
    session.add_todo_task(&date, &1, usize::MAX).unwrap();
    assert_eq!(
        mod_todo(&mut session, &date, &[1, 2], &[]),
        Err(ly::common::RepositoryError::StorageError)
    );
    assert_eq!(places(&mut session, date), vec![(1, usize::MAX)]);
    // What is on the list needs no place, and what is taken off needs none.
    assert_eq!(mod_todo(&mut session, &date, &[1], &[1]), Ok(()));
    assert_eq!(places(&mut session, date), vec![]);
    assert_eq!(mod_todo(&mut session, &date, &[2], &[]), Ok(()));
    assert_eq!(places(&mut session, date), vec![(2, 0)]);
}
