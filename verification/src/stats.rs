//! Daily statistics over the two ledgers.

use crate::common::{
    count_as_i64, count_one_more, nearest_instant, Id, RepositoryError, Timestamp, MILLIS_PER_DAY,
    MILLIS_PER_SECOND,
};
use crate::order::{precedes, sort_positions};
use crate::pomodoro::Pomodoro;
use crate::repository::{Repository, RepositoryView};
use vstd::prelude::*;

verus! {

/// A work session was broken from outside. Records are appended and never
/// changed.
#[derive(Debug, Clone, Copy, PartialEq, Eq, Structural)]
pub struct Interruption {
    pub task_id: Id,
    pub created_at: Timestamp,
}

/// The instants `start <= t < end`.
#[derive(Debug, Clone, Copy, PartialEq, Eq, Structural)]
pub struct SummaryRange {
    pub start: Timestamp,
    pub end: Timestamp,
}

/// What happened on one task on one calendar day.
#[derive(Debug, Clone, Copy, PartialEq, Eq, Structural)]
pub struct DailySummary {
    /// The calendar day, written as the instant at which that date begins in UTC.
    pub date: Timestamp,
    pub task_id: Id,
    pub pomodoro_count: i64,
    pub interruption_count: i64,
}

/// The calendar day on which `instant` falls in the time zone `timezone`
/// seconds east of UTC, written as the instant at which that date begins in
/// UTC.
pub open spec fn local_day(instant: Timestamp, timezone: i32) -> int {
    let local = instant + timezone * MILLIS_PER_SECOND;
    local - local % (MILLIS_PER_DAY as int)
}

/// The calendar day of `instant` as it is reported.
pub open spec fn day_label(instant: Timestamp, timezone: i32) -> Timestamp {
    nearest_instant(local_day(instant, timezone))
}

/// The calendar day on which `instant` falls in the time zone `timezone`
/// seconds east of UTC.
pub fn day_of(instant: Timestamp, timezone: i32) -> (date: Timestamp)
    ensures
        date == day_label(instant, timezone),
{
    let local: i128 = instant as i128 + (timezone as i128) * 1000;
    let into_day: i128 = match local.checked_rem_euclid(86_400_000) {
        Some(into_day) => into_day,
        None => 0,
    };
    let day: i128 = local - into_day;
    if day < i64::MIN as i128 {
        i64::MIN
    } else if day > i64::MAX as i128 {
        i64::MAX
    } else {
        day as i64
    }
}

impl SummaryRange {
    /// Whether `instant` lies in the range: at its start or later, and
    /// before its end.
    pub open spec fn contains(self, instant: Timestamp) -> bool {
        self.start <= instant < self.end
    }

    /// Whether `instant` lies in the range.
    pub fn holds(&self, instant: Timestamp) -> (inside: bool)
        ensures
            inside == self.contains(instant),
    {
        self.start <= instant && instant < self.end
    }
}

/// Selects the completed work sessions that count for the task `task_id` on
/// the day `date`: those that began in the range, on that day.
pub open spec fn work_counted(
    range: SummaryRange,
    timezone: i32,
    date: Timestamp,
    task_id: Id,
) -> spec_fn(Pomodoro) -> bool {
    |p: Pomodoro|
        range.contains(p.started_at) && p.task_id == task_id && day_label(p.started_at, timezone)
            == date
}

/// Selects the interruptions that count for the task `task_id` on the day
/// `date`: those that happened in the range, on that day.
pub open spec fn interruption_counted(
    range: SummaryRange,
    timezone: i32,
    date: Timestamp,
    task_id: Id,
) -> spec_fn(Interruption) -> bool {
    |e: Interruption|
        range.contains(e.created_at) && e.task_id == task_id && day_label(e.created_at, timezone)
            == date
}

/// Whether the summary has a record for the task `task_id` on the day `date`.
pub open spec fn has_group(summary: Seq<DailySummary>, date: Timestamp, task_id: Id) -> bool {
    exists|i: int|
        0 <= i < summary.len() && (#[trigger] summary[i]).date == date && summary[i].task_id
            == task_id
}

/// Whether the record holds the counts of its day and task, and stands for
/// at least one event.
pub open spec fn group_counted(
    group: DailySummary,
    pomodoros: Seq<Pomodoro>,
    interruptions: Seq<Interruption>,
    range: SummaryRange,
    timezone: i32,
) -> bool {
    &&& group.pomodoro_count == count_as_i64(
        pomodoros.filter(work_counted(range, timezone, group.date, group.task_id)).len(),
    )
    &&& group.interruption_count == count_as_i64(
        interruptions.filter(
            interruption_counted(range, timezone, group.date, group.task_id),
        ).len(),
    )
    &&& group.pomodoro_count > 0 || group.interruption_count > 0
}

/// The order of the records: by day, and within a day by task.
pub open spec fn comes_before(a: DailySummary, b: DailySummary) -> bool {
    a.date < b.date || (a.date == b.date && a.task_id < b.task_id)
}

/// Whether every completed work session in the range has its record.
pub open spec fn work_covered(
    pomodoros: Seq<Pomodoro>,
    range: SummaryRange,
    timezone: i32,
    summary: Seq<DailySummary>,
) -> bool {
    forall|k: int|
        0 <= k < pomodoros.len() && range.contains((#[trigger] pomodoros[k]).started_at)
            ==> has_group(
            summary,
            day_label(pomodoros[k].started_at, timezone),
            pomodoros[k].task_id,
        )
}

/// Whether every interruption in the range has its record.
pub open spec fn interruptions_covered(
    interruptions: Seq<Interruption>,
    range: SummaryRange,
    timezone: i32,
    summary: Seq<DailySummary>,
) -> bool {
    forall|k: int|
        0 <= k < interruptions.len() && range.contains((#[trigger] interruptions[k]).created_at)
            ==> has_group(
            summary,
            day_label(interruptions[k].created_at, timezone),
            interruptions[k].task_id,
        )
}

/// Whether every record holds the counts of its day and task.
pub open spec fn all_counted(
    summary: Seq<DailySummary>,
    pomodoros: Seq<Pomodoro>,
    interruptions: Seq<Interruption>,
    range: SummaryRange,
    timezone: i32,
) -> bool {
    forall|i: int|
        0 <= i < summary.len() ==> group_counted(
            #[trigger] summary[i],
            pomodoros,
            interruptions,
            range,
            timezone,
        )
}

/// Whether `summary` is the daily summary of the two ledgers over `range`:
/// one record for each day and task with an event in the range, with the
/// number of work sessions and of interruptions, in the order of day and
/// task.
pub open spec fn is_daily_summary(
    pomodoros: Seq<Pomodoro>,
    interruptions: Seq<Interruption>,
    range: SummaryRange,
    timezone: i32,
    summary: Seq<DailySummary>,
) -> bool {
    &&& forall|a: int, b: int|
        0 <= a < b < summary.len() ==> comes_before(#[trigger] summary[a], #[trigger] summary[b])
    &&& all_counted(summary, pomodoros, interruptions, range, timezone)
    &&& work_covered(pomodoros, range, timezone, summary)
    &&& interruptions_covered(interruptions, range, timezone, summary)
}

/// No two records are for the same day and task.
spec fn distinct_groups(groups: Seq<DailySummary>) -> bool {
    forall|a: int, b: int|
        0 <= a < groups.len() && 0 <= b < groups.len() && a != b ==> !((#[trigger] groups[a]).date
            == (#[trigger] groups[b]).date && groups[a].task_id == groups[b].task_id)
}

proof fn lemma_uncounted_work(
    pomodoros: Seq<Pomodoro>,
    range: SummaryRange,
    timezone: i32,
    groups: Seq<DailySummary>,
    date: Timestamp,
    task_id: Id,
)
    requires
        work_covered(pomodoros, range, timezone, groups),
        !has_group(groups, date, task_id),
    ensures
        pomodoros.filter(work_counted(range, timezone, date, task_id)).len() == 0,
{
    let pred = work_counted(range, timezone, date, task_id);
    let selected = pomodoros.filter(pred);
    if selected.len() > 0 {
        pomodoros.lemma_filter_pred(pred, 0);
        assert(selected.contains(selected[0]));
        pomodoros.lemma_filter_contains_rev(pred, selected[0]);
        let k = choose|k: int| 0 <= k < pomodoros.len() && pomodoros[k] == selected[0];
        assert(range.contains(pomodoros[k].started_at));
    }
}

proof fn lemma_uncounted_interruptions(
    interruptions: Seq<Interruption>,
    range: SummaryRange,
    timezone: i32,
    groups: Seq<DailySummary>,
    date: Timestamp,
    task_id: Id,
)
    requires
        interruptions_covered(interruptions, range, timezone, groups),
        !has_group(groups, date, task_id),
    ensures
        interruptions.filter(interruption_counted(range, timezone, date, task_id)).len() == 0,
{
    let pred = interruption_counted(range, timezone, date, task_id);
    let selected = interruptions.filter(pred);
    if selected.len() > 0 {
        interruptions.lemma_filter_pred(pred, 0);
        assert(selected.contains(selected[0]));
        interruptions.lemma_filter_contains_rev(pred, selected[0]);
        let k = choose|k: int| 0 <= k < interruptions.len() && interruptions[k] == selected[0];
        assert(range.contains(interruptions[k].created_at));
    }
}

/// The place of the record for the task `task_id` on the day `date`.
fn find_group(groups: &Vec<DailySummary>, date: Timestamp, task_id: Id) -> (at: Option<usize>)
    ensures
        match at {
            Some(i) => i < groups@.len() && groups@[i as int].date == date
                && groups@[i as int].task_id == task_id,
            None => !has_group(groups@, date, task_id),
        },
{
    let mut i: usize = 0;
    while i < groups.len()
        invariant
            i <= groups@.len(),
            forall|j: int|
                0 <= j < i ==> !((#[trigger] groups@[j]).date == date && groups@[j].task_id
                    == task_id),
        decreases groups.len() - i,
    {
        if groups[i].date == date && groups[i].task_id == task_id {
            return Some(i);
        }
        i = i + 1;
    }
    None
}

/// Counts one completed work session into its record.
fn count_work(
    groups: &mut Vec<DailySummary>,
    pomodoros: &Vec<Pomodoro>,
    k: usize,
    range: &SummaryRange,
    timezone: i32,
)
    requires
        k < pomodoros@.len(),
        distinct_groups(old(groups)@),
        all_counted(
            old(groups)@,
            pomodoros@.take(k as int),
            Seq::<Interruption>::empty(),
            *range,
            timezone,
        ),
        work_covered(pomodoros@.take(k as int), *range, timezone, old(groups)@),
    ensures
        distinct_groups(final(groups)@),
        all_counted(
            final(groups)@,
            pomodoros@.take(k as int + 1),
            Seq::<Interruption>::empty(),
            *range,
            timezone,
        ),
        work_covered(pomodoros@.take(k as int + 1), *range, timezone, final(groups)@),
{
    let ghost before = pomodoros@.take(k as int);
    let ghost after = pomodoros@.take(k as int + 1);
    let ghost none = Seq::<Interruption>::empty();
    let ghost old_groups = groups@;
    let p = pomodoros[k];
    proof {
        assert(after == before.push(p));
        assert forall|date: Timestamp, task_id: Id|
            #[trigger] after.filter(work_counted(*range, timezone, date, task_id)).len()
                == before.filter(work_counted(*range, timezone, date, task_id)).len() + (if (
            work_counted(*range, timezone, date, task_id))(p) {
                1int
            } else {
                0int
            }) by {
            before.lemma_filter_len_push(work_counted(*range, timezone, date, task_id), p);
        }
    }
    if range.holds(p.started_at) {
        let date = day_of(p.started_at, timezone);
        match find_group(groups, date, p.task_id) {
            Some(i) => {
                let group = groups[i];
                let ghost counted = before.filter(
                    work_counted(*range, timezone, date, p.task_id),
                ).len();
                let pomodoro_count = count_one_more(group.pomodoro_count, Ghost(counted));
                groups[i] = DailySummary {
                    date: group.date,
                    task_id: group.task_id,
                    pomodoro_count,
                    interruption_count: group.interruption_count,
                };
                proof {
                    assert forall|j: int| 0 <= j < groups@.len() implies group_counted(
                        #[trigger] groups@[j],
                        after,
                        none,
                        *range,
                        timezone,
                    ) by {
                        assert(group_counted(old_groups[j], before, none, *range, timezone));
                    }
                    assert forall|j: int|
                        0 <= j < after.len() && range.contains(
                            (#[trigger] after[j]).started_at,
                        ) implies has_group(
                        groups@,
                        day_label(after[j].started_at, timezone),
                        after[j].task_id,
                    ) by {
                        if j < k {
                            assert(before[j] == after[j]);
                            let w = choose|w: int|
                                0 <= w < old_groups.len() && (#[trigger] old_groups[w]).date
                                    == day_label(after[j].started_at, timezone)
                                    && old_groups[w].task_id == after[j].task_id;
                            assert(groups@[w].date == old_groups[w].date);
                        } else {
                            assert(groups@[i as int].date == date);
                        }
                    }
                }
            },
            None => {
                groups.push(
                    DailySummary { date, task_id: p.task_id, pomodoro_count: 1, interruption_count: 0 },
                );
                proof {
                    lemma_uncounted_work(before, *range, timezone, old_groups, date, p.task_id);
                    assert(none.filter(interruption_counted(*range, timezone, date, p.task_id)).len()
                        == 0) by {
                        none.lemma_filter_len(interruption_counted(*range, timezone, date, p.task_id));
                    }
                    assert forall|j: int| 0 <= j < groups@.len() implies group_counted(
                        #[trigger] groups@[j],
                        after,
                        none,
                        *range,
                        timezone,
                    ) by {
                        if j < old_groups.len() {
                            assert(group_counted(old_groups[j], before, none, *range, timezone));
                            assert(groups@[j] == old_groups[j]);
                        }
                    }
                    assert forall|j: int|
                        0 <= j < after.len() && range.contains(
                            (#[trigger] after[j]).started_at,
                        ) implies has_group(
                        groups@,
                        day_label(after[j].started_at, timezone),
                        after[j].task_id,
                    ) by {
                        if j < k {
                            assert(before[j] == after[j]);
                            let w = choose|w: int|
                                0 <= w < old_groups.len() && (#[trigger] old_groups[w]).date
                                    == day_label(after[j].started_at, timezone)
                                    && old_groups[w].task_id == after[j].task_id;
                            assert(groups@[w] == old_groups[w]);
                        } else {
                            assert(groups@[old_groups.len() as int].date == date);
                        }
                    }
                }
            },
        }
    } else {
        proof {
            assert forall|j: int| 0 <= j < groups@.len() implies group_counted(
                #[trigger] groups@[j],
                after,
                none,
                *range,
                timezone,
            ) by {
                assert(group_counted(old_groups[j], before, none, *range, timezone));
            }
            assert forall|j: int|
                0 <= j < after.len() && range.contains(
                    (#[trigger] after[j]).started_at,
                ) implies has_group(
                groups@,
                day_label(after[j].started_at, timezone),
                after[j].task_id,
            ) by {
                assert(before[j] == after[j]);
            }
        }
    }
}

/// Counts one interruption into its record.
fn count_interruption(
    groups: &mut Vec<DailySummary>,
    pomodoros: &Vec<Pomodoro>,
    interruptions: &Vec<Interruption>,
    k: usize,
    range: &SummaryRange,
    timezone: i32,
)
    requires
        k < interruptions@.len(),
        distinct_groups(old(groups)@),
        all_counted(old(groups)@, pomodoros@, interruptions@.take(k as int), *range, timezone),
        work_covered(pomodoros@, *range, timezone, old(groups)@),
        interruptions_covered(interruptions@.take(k as int), *range, timezone, old(groups)@),
    ensures
        distinct_groups(final(groups)@),
        all_counted(
            final(groups)@,
            pomodoros@,
            interruptions@.take(k as int + 1),
            *range,
            timezone,
        ),
        work_covered(pomodoros@, *range, timezone, final(groups)@),
        interruptions_covered(
            interruptions@.take(k as int + 1),
            *range,
            timezone,
            final(groups)@,
        ),
{
    let ghost before = interruptions@.take(k as int);
    let ghost after = interruptions@.take(k as int + 1);
    let ghost old_groups = groups@;
    let e = interruptions[k];
    proof {
        assert(after == before.push(e));
        assert forall|date: Timestamp, task_id: Id|
            #[trigger] after.filter(interruption_counted(*range, timezone, date, task_id)).len()
                == before.filter(interruption_counted(*range, timezone, date, task_id)).len() + (if (
            interruption_counted(*range, timezone, date, task_id))(e) {
                1int
            } else {
                0int
            }) by {
            before.lemma_filter_len_push(interruption_counted(*range, timezone, date, task_id), e);
        }
    }
    if range.holds(e.created_at) {
        let date = day_of(e.created_at, timezone);
        match find_group(groups, date, e.task_id) {
            Some(i) => {
                let group = groups[i];
                let ghost counted = before.filter(
                    interruption_counted(*range, timezone, date, e.task_id),
                ).len();
                let interruption_count = count_one_more(group.interruption_count, Ghost(counted));
                groups[i] = DailySummary {
                    date: group.date,
                    task_id: group.task_id,
                    pomodoro_count: group.pomodoro_count,
                    interruption_count,
                };
                proof {
                    assert forall|j: int| 0 <= j < groups@.len() implies group_counted(
                        #[trigger] groups@[j],
                        pomodoros@,
                        after,
                        *range,
                        timezone,
                    ) by {
                        assert(group_counted(old_groups[j], pomodoros@, before, *range, timezone));
                    }
                    assert forall|j: int|
                        0 <= j < pomodoros@.len() && range.contains(
                            (#[trigger] pomodoros@[j]).started_at,
                        ) implies has_group(
                        groups@,
                        day_label(pomodoros@[j].started_at, timezone),
                        pomodoros@[j].task_id,
                    ) by {
                        let w = choose|w: int|
                            0 <= w < old_groups.len() && (#[trigger] old_groups[w]).date
                                == day_label(pomodoros@[j].started_at, timezone)
                                && old_groups[w].task_id == pomodoros@[j].task_id;
                        assert(groups@[w].date == old_groups[w].date);
                    }
                    assert forall|j: int|
                        0 <= j < after.len() && range.contains(
                            (#[trigger] after[j]).created_at,
                        ) implies has_group(
                        groups@,
                        day_label(after[j].created_at, timezone),
                        after[j].task_id,
                    ) by {
                        if j < k {
                            assert(before[j] == after[j]);
                            let w = choose|w: int|
                                0 <= w < old_groups.len() && (#[trigger] old_groups[w]).date
                                    == day_label(after[j].created_at, timezone)
                                    && old_groups[w].task_id == after[j].task_id;
                            assert(groups@[w].date == old_groups[w].date);
                        } else {
                            assert(groups@[i as int].date == date);
                        }
                    }
                }
            },
            None => {
                groups.push(
                    DailySummary { date, task_id: e.task_id, pomodoro_count: 0, interruption_count: 1 },
                );
                proof {
                    lemma_uncounted_work(pomodoros@, *range, timezone, old_groups, date, e.task_id);
                    lemma_uncounted_interruptions(
                        before,
                        *range,
                        timezone,
                        old_groups,
                        date,
                        e.task_id,
                    );
                    assert forall|j: int| 0 <= j < groups@.len() implies group_counted(
                        #[trigger] groups@[j],
                        pomodoros@,
                        after,
                        *range,
                        timezone,
                    ) by {
                        if j < old_groups.len() {
                            assert(group_counted(
                                old_groups[j],
                                pomodoros@,
                                before,
                                *range,
                                timezone,
                            ));
                            assert(groups@[j] == old_groups[j]);
                        }
                    }
                    assert forall|j: int|
                        0 <= j < pomodoros@.len() && range.contains(
                            (#[trigger] pomodoros@[j]).started_at,
                        ) implies has_group(
                        groups@,
                        day_label(pomodoros@[j].started_at, timezone),
                        pomodoros@[j].task_id,
                    ) by {
                        let w = choose|w: int|
                            0 <= w < old_groups.len() && (#[trigger] old_groups[w]).date
                                == day_label(pomodoros@[j].started_at, timezone)
                                && old_groups[w].task_id == pomodoros@[j].task_id;
                        assert(groups@[w] == old_groups[w]);
                    }
                    assert forall|j: int|
                        0 <= j < after.len() && range.contains(
                            (#[trigger] after[j]).created_at,
                        ) implies has_group(
                        groups@,
                        day_label(after[j].created_at, timezone),
                        after[j].task_id,
                    ) by {
                        if j < k {
                            assert(before[j] == after[j]);
                            let w = choose|w: int|
                                0 <= w < old_groups.len() && (#[trigger] old_groups[w]).date
                                    == day_label(after[j].created_at, timezone)
                                    && old_groups[w].task_id == after[j].task_id;
                            assert(groups@[w] == old_groups[w]);
                        } else {
                            assert(groups@[old_groups.len() as int].date == date);
                        }
                    }
                }
            },
        }
    } else {
        proof {
            assert forall|j: int| 0 <= j < groups@.len() implies group_counted(
                #[trigger] groups@[j],
                pomodoros@,
                after,
                *range,
                timezone,
            ) by {
                assert(group_counted(old_groups[j], pomodoros@, before, *range, timezone));
            }
            assert forall|j: int|
                0 <= j < after.len() && range.contains(
                    (#[trigger] after[j]).created_at,
                ) implies has_group(
                groups@,
                day_label(after[j].created_at, timezone),
                after[j].task_id,
            ) by {
                assert(before[j] == after[j]);
            }
        }
    }
}

/// The key that orders the records by day and, within a day, by task.
spec fn group_key(group: DailySummary) -> i128 {
    (group.date * 0x1_0000_0000_0000_0000 + (group.task_id - i64::MIN)) as i128
}

/// The daily summary of the two ledgers over `range`.
///
/// The completed work sessions that began in the range and the
/// interruptions that happened in it are grouped by the calendar day on
/// which they fall in the time zone `timezone` seconds east of UTC, and by
/// task. Each group gives one record with its two counts; the records come
/// in the order of day and task.
pub fn daily_summary(
    pomodoros: &Vec<Pomodoro>,
    interruptions: &Vec<Interruption>,
    range: &SummaryRange,
    timezone: i32,
) -> (summary: Vec<DailySummary>)
    ensures
        is_daily_summary(pomodoros@, interruptions@, *range, timezone, summary@),
{
    let mut groups: Vec<DailySummary> = Vec::new();
    let mut k: usize = 0;
    while k < pomodoros.len()
        invariant
            k <= pomodoros@.len(),
            distinct_groups(groups@),
            all_counted(
                groups@,
                pomodoros@.take(k as int),
                Seq::<Interruption>::empty(),
                *range,
                timezone,
            ),
            work_covered(pomodoros@.take(k as int), *range, timezone, groups@),
        decreases pomodoros.len() - k,
    {
        count_work(&mut groups, pomodoros, k, range, timezone);
        k = k + 1;
    }
    proof {
        assert(pomodoros@.take(k as int) == pomodoros@);
        assert(interruptions@.take(0) == Seq::<Interruption>::empty());
    }
    let mut k: usize = 0;
    while k < interruptions.len()
        invariant
            k <= interruptions@.len(),
            distinct_groups(groups@),
            all_counted(groups@, pomodoros@, interruptions@.take(k as int), *range, timezone),
            work_covered(pomodoros@, *range, timezone, groups@),
            interruptions_covered(interruptions@.take(k as int), *range, timezone, groups@),
        decreases interruptions.len() - k,
    {
        count_interruption(&mut groups, pomodoros, interruptions, k, range, timezone);
        k = k + 1;
    }
    proof {
        assert(interruptions@.take(k as int) == interruptions@);
    }
    let mut keys: Vec<i128> = Vec::new();
    let mut i: usize = 0;
    while i < groups.len()
        invariant
            i <= groups@.len(),
            keys@.len() == i,
            forall|j: int| 0 <= j < i ==> keys@[j] == group_key(#[trigger] groups@[j]),
        decreases groups.len() - i,
    {
        let group = groups[i];
        keys.push(
            (group.date as i128) * 0x1_0000_0000_0000_0000 + (group.task_id as i128
                - i64::MIN as i128),
        );
        i = i + 1;
    }
    let order = sort_positions(&keys);
    let mut summary: Vec<DailySummary> = Vec::new();
    let mut i: usize = 0;
    while i < order.len()
        invariant
            i <= order@.len(),
            order@.len() == groups@.len(),
            summary@.len() == i,
            forall|j: int| 0 <= j < order@.len() ==> (#[trigger] order@[j]) < groups@.len(),
            forall|j: int| 0 <= j < i ==> (#[trigger] summary@[j]) == groups@[order@[j] as int],
        decreases order.len() - i,
    {
        summary.push(groups[order[i]]);
        i = i + 1;
    }
    proof {
        assert forall|a: int, b: int| 0 <= a < b < summary@.len() implies comes_before(
            #[trigger] summary@[a],
            #[trigger] summary@[b],
        ) by {
            assert(precedes(keys@, order@[a] as int, order@[b] as int));
            let ga = groups@[order@[a] as int];
            let gb = groups@[order@[b] as int];
            assert(keys@[order@[a] as int] == group_key(ga));
            assert(keys@[order@[b] as int] == group_key(gb));
        }
        assert forall|j: int| 0 <= j < summary@.len() implies group_counted(
            #[trigger] summary@[j],
            pomodoros@,
            interruptions@,
            *range,
            timezone,
        ) by {
            assert(group_counted(
                groups@[order@[j] as int],
                pomodoros@,
                interruptions@,
                *range,
                timezone,
            ));
        }
        assert forall|date: Timestamp, task_id: Id|
            has_group(groups@, date, task_id) implies has_group(summary@, date, task_id) by {
            let w = choose|w: int|
                0 <= w < groups@.len() && (#[trigger] groups@[w]).date == date
                    && groups@[w].task_id == task_id;
            assert(order@.contains(w as usize));
            let at = choose|at: int| 0 <= at < order@.len() && order@[at] == w as usize;
            assert(summary@[at] == groups@[w]);
        }
    }
    summary
}

/// A completed work session is counted. Where a ledger has grown by one
/// session that began in the range, the summary has a record for the day and
/// the task of that session, and the record counts one more session than
/// were counted for that day and task before.
pub proof fn lemma_completed_session_is_counted(
    ledger: Seq<Pomodoro>,
    session: Pomodoro,
    interruptions: Seq<Interruption>,
    range: SummaryRange,
    timezone: i32,
    summary: Seq<DailySummary>,
)
    requires
        range.contains(session.started_at),
        is_daily_summary(ledger.push(session), interruptions, range, timezone, summary),
    ensures
        has_group(summary, day_label(session.started_at, timezone), session.task_id),
        forall|i: int|
            0 <= i < summary.len() && (#[trigger] summary[i]).date == day_label(
                session.started_at,
                timezone,
            ) && summary[i].task_id == session.task_id ==> summary[i].pomodoro_count
                == count_as_i64(
                ledger.filter(
                    work_counted(range, timezone, summary[i].date, summary[i].task_id),
                ).len() + 1,
            ),
{
    let grown = ledger.push(session);
    assert(grown[ledger.len() as int] == session);
    assert forall|i: int|
        0 <= i < summary.len() && (#[trigger] summary[i]).date == day_label(
            session.started_at,
            timezone,
        ) && summary[i].task_id == session.task_id implies summary[i].pomodoro_count
        == count_as_i64(
        ledger.filter(work_counted(range, timezone, summary[i].date, summary[i].task_id)).len()
            + 1,
    ) by {
        assert(group_counted(summary[i], grown, interruptions, range, timezone));
        ledger.lemma_filter_len_push(
            work_counted(range, timezone, summary[i].date, summary[i].task_id),
            session,
        );
    }
}

/// Appending to the ledger of interruptions.
pub trait Interrupt: Repository {
    /// Records that the work on the task `task_id` was interrupted at the
    /// instant `at`. Nothing else changes, and on failure nothing does.
    fn add_interruption(&mut self, task_id: Id, at: Timestamp) -> (done: Result<
        (),
        RepositoryError,
    >)
        ensures
            match done {
                Ok(_) => final(self)@ == (RepositoryView {
                    interruptions: old(self)@.interruptions.push(
                        Interruption { task_id, created_at: at },
                    ),
                    ..old(self)@
                }),
                Err(e) => {
                    &&& final(self)@ == old(self)@
                    &&& e == RepositoryError::StorageError
                    &&& !Self::reliable()
                },
            },
    ;
}

/// Reading the statistics.
pub trait Fetch: Repository {
    /// The daily summary of the two ledgers over `range`, with days taken in
    /// the repository's time zone. The state is left as it was.
    fn fetch_daily_summary(&mut self, range: &SummaryRange) -> (found: Result<
        Vec<DailySummary>,
        RepositoryError,
    >)
        ensures
            final(self)@ == old(self)@,
            match found {
                Ok(summary) => is_daily_summary(
                    old(self)@.pomodoros,
                    old(self)@.interruptions,
                    *range,
                    old(self)@.timezone,
                    summary@,
                ),
                Err(e) => e == RepositoryError::StorageError && !Self::reliable(),
            },
    ;
}

} // verus!
