use chrono::{TimeZone, Utc};
use ly::calendar::start_of_day_in_tz;
use ly::pomodoro::Pomodoro;
use ly::session::Session;
use ly::stats::{daily_summary, day_of, DailySummary, Fetch, Interrupt, Interruption, SummaryRange};
use ly::task::{add_task, Fetch as TaskFetch};
use ly::timer::{complete, pomodoro};

const HOUR: i64 = 3_600_000;
const DAY: i64 = 86_400_000;

fn utc(year: i32, month: u32, day: u32, hour: u32) -> i64 {
    Utc.with_ymd_and_hms(year, month, day, hour, 0, 0).unwrap().timestamp_millis()
}

fn work(id: i64, task_id: i64, started_at: i64) -> Pomodoro {
    Pomodoro { id, task_id, started_at, finished_at: started_at + 25 * 60_000 }
}

#[test]
fn end_to_end() {
    let mut session = Session::new(9 * 3600);
    session.initialize().unwrap();
    add_task(&mut session, "backlog", "n", "write paper", 4).unwrap();
    let task = session.fetch_task_by_id(1).unwrap().unwrap();
    assert_eq!(task.summary, "write paper");
    assert_eq!(task.estimate, 4);
    assert_eq!(task.lane_id, 1);
    assert_eq!(task.priority, 0);
    let timer = pomodoro(&mut session, task.id, 25).unwrap();
    complete(&mut session, &timer).unwrap();
    let today = start_of_day_in_tz(timer.started_at, 9 * 3600);
    let range = SummaryRange { start: today, end: today + DAY };
    let summary = session.fetch_daily_summary(&range).unwrap();
    assert_eq!(summary.len(), 1);
    assert_eq!(summary[0].task_id, task.id);
    assert_eq!(summary[0].pomodoro_count, 1);
    assert_eq!(summary[0].interruption_count, 0);
    assert_eq!(summary[0].date, today + 9 * HOUR);
}

#[test]
fn the_day_of_an_instant() {
    // 2015-03-14T01:00Z is 10:00 on the 14th in UTC+9.
    assert_eq!(day_of(utc(2015, 3, 14, 1), 9 * 3600), utc(2015, 3, 14, 0));
    // 2015-03-14T15:00Z is midnight of the 15th in UTC+9.
    assert_eq!(day_of(utc(2015, 3, 14, 15), 9 * 3600), utc(2015, 3, 15, 0));
    assert_eq!(day_of(utc(2015, 3, 14, 15) - 1, 9 * 3600), utc(2015, 3, 14, 0));
    // West of UTC the early hours belong to the day before.
    assert_eq!(day_of(utc(2015, 3, 14, 1), -5 * 3600), utc(2015, 3, 13, 0));
    assert_eq!(day_of(-1, 0), -DAY);
    assert_eq!(day_of(0, 0), 0);
    assert_eq!(day_of(DAY - 1, 0), 0);
}

#[test]
fn the_day_of_an_instant_at_the_ends_of_the_range() {
    assert_eq!(day_of(i64::MAX, 86_399), i64::MAX);
    assert_eq!(day_of(i64::MIN, 0), i64::MIN);
    assert_eq!(day_of(i64::MAX, 0), i64::MAX - i64::MAX.rem_euclid(DAY));
}

#[test]
fn groups_by_day_and_task() {
    let pomodoros = vec![
        work(1, 2, utc(2015, 3, 14, 1)),
        work(2, 1, utc(2015, 3, 14, 2)),
        work(3, 2, utc(2015, 3, 14, 3)),
        work(4, 2, utc(2015, 3, 14, 16)),
        work(5, 1, utc(2015, 3, 13, 20)),
    ];
    let interruptions = vec![
        Interruption { task_id: 2, created_at: utc(2015, 3, 14, 2) },
        Interruption { task_id: 3, created_at: utc(2015, 3, 14, 2) },
    ];
    let range = SummaryRange { start: utc(2015, 3, 13, 0), end: utc(2015, 3, 16, 0) };
    let summary = daily_summary(&pomodoros, &interruptions, &range, 9 * 3600);
    assert_eq!(
        summary,
        vec![
            DailySummary {
                date: utc(2015, 3, 14, 0),
                task_id: 1,
                pomodoro_count: 2,
                interruption_count: 0
            },
            DailySummary {
                date: utc(2015, 3, 14, 0),
                task_id: 2,
                pomodoro_count: 2,
                interruption_count: 1
            },
            DailySummary {
                date: utc(2015, 3, 14, 0),
                task_id: 3,
                pomodoro_count: 0,
                interruption_count: 1
            },
            DailySummary {
                date: utc(2015, 3, 15, 0),
                task_id: 2,
                pomodoro_count: 1,
                interruption_count: 0
            },
        ]
    );
}

#[test]
fn the_range_is_half_open() {
    let start = utc(2015, 3, 14, 1);
    let end = utc(2015, 3, 15, 1);
    let pomodoros = vec![
        work(1, 1, start - 1),
        work(2, 1, start),
        work(3, 1, end - 1),
        work(4, 1, end),
    ];
    let range = SummaryRange { start, end };
    let summary = daily_summary(&pomodoros, &Vec::new(), &range, 0);
    assert_eq!(
        summary,
        vec![
            DailySummary { date: utc(2015, 3, 14, 0), task_id: 1, pomodoro_count: 1, interruption_count: 0 },
            DailySummary { date: utc(2015, 3, 15, 0), task_id: 1, pomodoro_count: 1, interruption_count: 0 },
        ]
    );
}

#[test]
fn an_empty_or_reversed_range_gives_nothing() {
    let pomodoros = vec![work(1, 1, 5)];
    let interruptions = vec![Interruption { task_id: 1, created_at: 5 }];
    assert!(daily_summary(&pomodoros, &interruptions, &SummaryRange { start: 5, end: 5 }, 0).is_empty());
    assert!(daily_summary(&pomodoros, &interruptions, &SummaryRange { start: 9, end: 1 }, 0).is_empty());
    assert!(daily_summary(&Vec::new(), &Vec::new(), &SummaryRange { start: 0, end: 9 }, 0).is_empty());
}

#[test]
fn records_come_in_the_order_of_day_and_task() {
    let pomodoros = vec![
        work(1, 9, 3 * DAY),
        work(2, -4, 3 * DAY),
        work(3, 5, -2 * DAY),
        work(4, 5, 0),
    ];
    let range = SummaryRange { start: i64::MIN, end: i64::MAX };
    let summary = daily_summary(&pomodoros, &Vec::new(), &range, 0);
    let keys: Vec<(i64, i64)> = summary.iter().map(|s| (s.date, s.task_id)).collect();
    assert_eq!(keys, vec![(-2 * DAY, 5), (0, 5), (3 * DAY, -4), (3 * DAY, 9)]);
}

#[test]
fn interruptions_are_counted_by_the_session() {
    let mut session = Session::new(0);
    session.add_interruption(1, 10).unwrap();
    session.add_interruption(1, 20).unwrap();
    session.add_interruption(2, DAY + 5).unwrap();
    let summary = session
        .fetch_daily_summary(&SummaryRange { start: 0, end: 2 * DAY })
        .unwrap();
    assert_eq!(
        summary,
        vec![
            DailySummary { date: 0, task_id: 1, pomodoro_count: 0, interruption_count: 2 },
            DailySummary { date: DAY, task_id: 2, pomodoro_count: 0, interruption_count: 1 },
        ]
    );
}

#[test]
fn the_daily_list_and_the_statistics_agree_on_the_day() {
    let offset = 9 * 3600;
    let completion = Utc.with_ymd_and_hms(2021, 3, 6, 23, 10, 33).unwrap().timestamp_millis();
    let date = start_of_day_in_tz(completion, offset);
    assert!(date <= completion && completion < date + DAY);
    assert_eq!(day_of(completion, offset), date + offset as i64 * 1000);
    assert_eq!(day_of(date, offset), day_of(completion, offset));
    assert_eq!(day_of(date - 1, offset), day_of(completion, offset) - DAY);
    assert_eq!(day_of(date + DAY, offset), day_of(completion, offset) + DAY);
}
