//! A repository held in memory.
//!
//! It keeps every table as a list of rows in the order in which they were
//! stored, and implements every capability. It never fails for reasons of
//! its own.

use crate::clock;
use crate::common::{Id, RepositoryError, Timestamp};
use crate::config::Config;
use crate::lane;
use crate::lane::{lane_has_name, Lane, LaneView};
use crate::order::{lemma_next_id, next_id};
use crate::pomodoro;
use crate::pomodoro::Pomodoro;
use crate::priority;
use crate::priority::{priority_has_name, Priority, PriorityView};
use crate::repository::{
    lemma_first_selected, lemma_none_selected, lemma_some_selected, lemma_views_push,
    lemma_views_take, task_has_id, view_of, views_of, Repository, RepositoryView,
};
use crate::stats;
use crate::stats::{DailySummary, Interruption, SummaryRange};
use crate::task;
use crate::task::{Task, TaskView};
use crate::timer;
use crate::timer::{Timer, TimerTask, TimerType, TimerView, TIMER_SLOT};
use crate::todo;
use crate::todo::{Todo, TodoDate, TodoTask, TodoTaskAssignment, TodoView};
use vstd::prelude::*;
use vstd::string::StringExecFns;

verus! {

/// A repository held in memory.
pub struct Session {
    timezone: i32,
    lanes: Vec<Lane>,
    priorities: Vec<Priority>,
    tasks: Vec<Task>,
    timer: Option<Timer>,
    timer_task: Option<TimerTask>,
    pomodoros: Vec<Pomodoro>,
    interruptions: Vec<Interruption>,
    todos: Vec<Todo>,
    todo_tasks: Vec<TodoTaskAssignment>,
}

impl Repository for Session {
    closed spec fn view(&self) -> RepositoryView {
        RepositoryView {
            timezone: self.timezone,
            lanes: views_of(self.lanes@),
            priorities: views_of(self.priorities@),
            tasks: views_of(self.tasks@),
            timer: view_of(self.timer),
            timer_task: self.timer_task,
            pomodoros: self.pomodoros@,
            interruptions: self.interruptions@,
            todos: views_of(self.todos@),
            todo_tasks: self.todo_tasks@,
        }
    }

    open spec fn reliable() -> bool {
        true
    }
}

/// The lanes that a fresh repository is given: backlog, todo and done.
pub open spec fn initial_lanes(lanes: Seq<LaneView>) -> bool {
    &&& lanes.len() == 3
    &&& lanes[0].id == 1 && lanes[0].name == "backlog"@
    &&& lanes[1].id == 2 && lanes[1].name == "todo"@
    &&& lanes[2].id == 3 && lanes[2].name == "done"@
}

/// The priority levels that a fresh repository is given: n, l, m and h, from
/// the least urgent to the most.
pub open spec fn initial_priorities(priorities: Seq<PriorityView>) -> bool {
    &&& priorities.len() == 4
    &&& priorities[0].id == 0 && priorities[0].name == "n"@
    &&& priorities[1].id == 1 && priorities[1].name == "l"@
    &&& priorities[2].id == 2 && priorities[2].name == "m"@
    &&& priorities[3].id == 3 && priorities[3].name == "h"@
}

/// A repository that holds nothing, with days taken `timezone` seconds east
/// of UTC.
pub open spec fn empty_repository(timezone: i32) -> RepositoryView {
    RepositoryView {
        timezone,
        lanes: Seq::empty(),
        priorities: Seq::empty(),
        tasks: Seq::empty(),
        timer: None,
        timer_task: None,
        pomodoros: Seq::empty(),
        interruptions: Seq::empty(),
        todos: Seq::empty(),
        todo_tasks: Seq::empty(),
    }
}

impl Session {
    /// A repository that holds nothing, with days taken `timezone` seconds
    /// east of UTC.
    pub fn new(timezone: i32) -> (session: Session)
        ensures
            session@ == empty_repository(timezone),
    {
        let session = Session {
            timezone,
            lanes: Vec::new(),
            priorities: Vec::new(),
            tasks: Vec::new(),
            timer: None,
            timer_task: None,
            pomodoros: Vec::new(),
            interruptions: Vec::new(),
            todos: Vec::new(),
            todo_tasks: Vec::new(),
        };
        assert(session@.lanes =~= Seq::empty());
        assert(session@.priorities =~= Seq::empty());
        assert(session@.tasks =~= Seq::empty());
        assert(session@.todos =~= Seq::empty());
        session
    }

    /// A repository for the configuration `config`: it holds nothing, and
    /// takes its days in the configured time zone.
    pub fn connect(config: &Config) -> (session: Session)
        ensures
            session@ == empty_repository(config.timezone),
    {
        Session::new(config.timezone)
    }

    /// Gives a repository without lanes and priority levels its initial
    /// ones, stamped with the instant `now`. A repository that has some
    /// already is left as it is, with a `StorageError`.
    pub fn initialize_at(&mut self, now: Timestamp) -> (done: Result<(), RepositoryError>)
        ensures
            match done {
                Ok(_) => {
                    &&& old(self)@.lanes.len() == 0
                    &&& old(self)@.priorities.len() == 0
                    &&& initial_lanes(final(self)@.lanes)
                    &&& initial_priorities(final(self)@.priorities)
                    &&& forall|i: int|
                        0 <= i < 3 ==> (#[trigger] final(self)@.lanes[i]).created_at == now
                            && final(self)@.lanes[i].updated_at == now
                    &&& forall|i: int|
                        0 <= i < 4 ==> (#[trigger] final(self)@.priorities[i]).created_at == now
                            && final(self)@.priorities[i].updated_at == now
                    &&& final(self)@ == (RepositoryView {
                        lanes: final(self)@.lanes,
                        priorities: final(self)@.priorities,
                        ..old(self)@
                    })
                },
                Err(e) => {
                    &&& e == RepositoryError::StorageError
                    &&& old(self)@.lanes.len() > 0 || old(self)@.priorities.len() > 0
                    &&& final(self)@ == old(self)@
                },
            },
    {
        if self.lanes.len() > 0 || self.priorities.len() > 0 {
            return Err(RepositoryError::StorageError);
        }
        self.lanes.push(
            Lane { id: 1, name: String::from_str("backlog"), created_at: now, updated_at: now },
        );
        self.lanes.push(
            Lane { id: 2, name: String::from_str("todo"), created_at: now, updated_at: now },
        );
        self.lanes.push(
            Lane { id: 3, name: String::from_str("done"), created_at: now, updated_at: now },
        );
        self.priorities.push(
            Priority { id: 0, name: String::from_str("n"), created_at: now, updated_at: now },
        );
        self.priorities.push(
            Priority { id: 1, name: String::from_str("l"), created_at: now, updated_at: now },
        );
        self.priorities.push(
            Priority { id: 2, name: String::from_str("m"), created_at: now, updated_at: now },
        );
        self.priorities.push(
            Priority { id: 3, name: String::from_str("h"), created_at: now, updated_at: now },
        );
        Ok(())
    }

    /// Gives a repository without lanes and priority levels its initial
    /// ones. A repository that has some already is left as it is, with a
    /// `StorageError`.
    pub fn initialize(&mut self) -> (done: Result<(), RepositoryError>)
        ensures
            match done {
                Ok(_) => {
                    &&& old(self)@.lanes.len() == 0
                    &&& old(self)@.priorities.len() == 0
                    &&& initial_lanes(final(self)@.lanes)
                    &&& initial_priorities(final(self)@.priorities)
                    &&& final(self)@ == (RepositoryView {
                        lanes: final(self)@.lanes,
                        priorities: final(self)@.priorities,
                        ..old(self)@
                    })
                },
                Err(e) => {
                    &&& e == RepositoryError::StorageError
                    &&& old(self)@.lanes.len() > 0 || old(self)@.priorities.len() > 0
                    &&& final(self)@ == old(self)@
                },
            },
    {
        let now = clock::now();
        self.initialize_at(now)
    }
}

impl lane::Fetch for Session {
    fn fetch_lane_by_name(&mut self, name: &str) -> (found: Result<Option<Lane>, RepositoryError>) {
        let wanted = String::from_str(name);
        let mut i: usize = 0;
        while i < self.lanes.len()
            invariant
                i <= self.lanes@.len(),
                wanted@ == name@,
                forall|j: int|
                    0 <= j < i ==> !(lane_has_name(name@))(#[trigger] views_of(self.lanes@)[j]),
            decreases self.lanes.len() - i,
        {
            if self.lanes[i].name == wanted {
                proof {
                    lemma_first_selected(views_of(self.lanes@), lane_has_name(name@), i as int);
                }
                return Ok(Some(self.lanes[i].clone()));
            }
            i = i + 1;
        }
        proof {
            lemma_none_selected(views_of(self.lanes@), lane_has_name(name@));
        }
        Ok(None)
    }

    fn fetch_all_lanes(&mut self) -> (found: Result<Vec<Lane>, RepositoryError>) {
        let mut lanes: Vec<Lane> = Vec::new();
        let mut i: usize = 0;
        while i < self.lanes.len()
            invariant
                i <= self.lanes@.len(),
                views_of(lanes@) == views_of(self.lanes@).take(i as int),
            decreases self.lanes.len() - i,
        {
            let lane = self.lanes[i].clone();
            proof {
                lemma_views_push(lanes@, lane);
                lemma_views_take(self.lanes@, i as int);
            }
            lanes.push(lane);
            i = i + 1;
        }
        proof {
            assert(views_of(lanes@) =~= views_of(self.lanes@));
        }
        Ok(lanes)
    }
}

impl priority::Fetch for Session {
    fn fetch_priority_by_name(&mut self, name: &str) -> (found: Result<
        Priority,
        RepositoryError,
    >) {
        let wanted = String::from_str(name);
        let mut i: usize = 0;
        while i < self.priorities.len()
            invariant
                i <= self.priorities@.len(),
                wanted@ == name@,
                forall|j: int|
                    0 <= j < i ==> !(priority_has_name(name@))(
                        #[trigger] views_of(self.priorities@)[j],
                    ),
            decreases self.priorities.len() - i,
        {
            if self.priorities[i].name == wanted {
                proof {
                    lemma_first_selected(
                        views_of(self.priorities@),
                        priority_has_name(name@),
                        i as int,
                    );
                }
                return Ok(self.priorities[i].clone());
            }
            i = i + 1;
        }
        proof {
            lemma_none_selected(views_of(self.priorities@), priority_has_name(name@));
        }
        Err(RepositoryError::NotFound)
    }

    fn fetch_all_priority(&mut self) -> (found: Result<Vec<Priority>, RepositoryError>) {
        let mut priorities: Vec<Priority> = Vec::new();
        let mut i: usize = 0;
        while i < self.priorities.len()
            invariant
                i <= self.priorities@.len(),
                views_of(priorities@) == views_of(self.priorities@).take(i as int),
            decreases self.priorities.len() - i,
        {
            let priority = self.priorities[i].clone();
            proof {
                lemma_views_push(priorities@, priority);
                lemma_views_take(self.priorities@, i as int);
            }
            priorities.push(priority);
            i = i + 1;
        }
        proof {
            assert(views_of(priorities@) =~= views_of(self.priorities@));
        }
        Ok(priorities)
    }
}

/// The ids of the tasks, in the order of the table.
pub open spec fn task_ids(tasks: Seq<TaskView>) -> Seq<Id> {
    tasks.map_values(|t: TaskView| t.id)
}

impl Session {
    /// The id that the next task is given, where there is one left.
    fn next_task_id(&self) -> (id: Option<Id>)
        ensures
            match id {
                Some(id) => id == next_id(task_ids(self@.tasks)) && !self@.has_task(id),
                None => self@.has_task(i64::MAX),
            },
    {
        let ghost ids = task_ids(self@.tasks);
        let mut next: i64 = 1;
        let mut full = false;
        let mut i: usize = 0;
        while i < self.tasks.len()
            invariant
                i <= self.tasks@.len(),
                ids == task_ids(self@.tasks),
                ids.len() == self.tasks@.len(),
                !full ==> next == next_id(ids.take(i as int)),
                full ==> next_id(ids.take(i as int)) == i64::MAX + 1,
            decreases self.tasks.len() - i,
        {
            proof {
                assert(ids.take(i as int + 1).drop_last() == ids.take(i as int));
                assert(ids.take(i as int + 1).last() == self.tasks@[i as int].id);
                lemma_next_id(ids.take(i as int));
                lemma_next_id(ids.take(i as int + 1));
            }
            let id = self.tasks[i].id;
            if id == i64::MAX {
                full = true;
            } else if !full && id + 1 > next {
                next = id + 1;
            }
            i = i + 1;
        }
        proof {
            assert(ids.take(i as int) == ids);
            lemma_next_id(ids);
            if full {
                let at = choose|at: int| 0 <= at < ids.len() && #[trigger] ids[at] == i64::MAX;
                assert((task_has_id(i64::MAX))(self@.tasks[at]));
                lemma_some_selected(self@.tasks, task_has_id(i64::MAX), at);
            } else {
                assert forall|j: int| 0 <= j < self@.tasks.len() implies !(task_has_id(next))(
                    #[trigger] self@.tasks[j],
                ) by {
                    assert(ids[j] == self@.tasks[j].id);
                }
                lemma_none_selected(self@.tasks, task_has_id(next));
            }
        }
        if full {
            None
        } else {
            Some(next)
        }
    }

    /// Stores a new task, stamped with the instant `now`, under the id that
    /// follows the greatest one in use.
    pub fn add_task_at(
        &mut self,
        lane_id: Id,
        priority: Id,
        summary: &str,
        estimate: i64,
        now: Timestamp,
    ) -> (done: Result<(), RepositoryError>)
        ensures
            match done {
                Ok(_) => final(self)@ == (RepositoryView {
                    tasks: old(self)@.tasks.push(
                        TaskView {
                            id: next_id(task_ids(old(self)@.tasks)) as i64,
                            lane_id,
                            priority,
                            summary: summary@,
                            estimate,
                            created_at: now,
                            updated_at: now,
                        },
                    ),
                    ..old(self)@
                }) && next_id(task_ids(old(self)@.tasks)) <= i64::MAX && !old(self)@.has_task(
                    next_id(task_ids(old(self)@.tasks)) as i64,
                ),
                Err(e) => {
                    &&& final(self)@ == old(self)@
                    &&& e == RepositoryError::StorageError
                    &&& old(self)@.has_task(i64::MAX)
                },
            },
    {
        let id = match self.next_task_id() {
            Some(id) => id,
            None => {
                return Err(RepositoryError::StorageError);
            },
        };
        let task = Task {
            id,
            lane_id,
            priority,
            summary: String::from_str(summary),
            estimate,
            created_at: now,
            updated_at: now,
        };
        proof {
            lemma_views_push(self.tasks@, task);
        }
        self.tasks.push(task);
        Ok(())
    }
}

impl task::Add for Session {
    fn add_task(&mut self, lane_id: Id, priority: Id, summary: &str, estimate: i64) -> (done:
        Result<(), RepositoryError>)
        ensures
            done is Ok ==> final(self)@.tasks.last().id == next_id(task_ids(old(self)@.tasks)),
    {
        let now = clock::now();
        let done = self.add_task_at(lane_id, priority, summary, estimate, now);
        proof {
            if done is Ok {
                assert(final(self)@.tasks.drop_last() =~= old(self)@.tasks);
            }
        }
        done
    }
}

impl task::Fetch for Session {
    fn fetch_task_by_id(&mut self, id: Id) -> (found: Result<Option<Task>, RepositoryError>) {
        let mut i: usize = 0;
        while i < self.tasks.len()
            invariant
                i <= self.tasks@.len(),
                forall|j: int|
                    0 <= j < i ==> !(task_has_id(id))(#[trigger] views_of(self.tasks@)[j]),
            decreases self.tasks.len() - i,
        {
            if self.tasks[i].id == id {
                proof {
                    lemma_first_selected(views_of(self.tasks@), task_has_id(id), i as int);
                }
                return Ok(Some(self.tasks[i].clone()));
            }
            i = i + 1;
        }
        proof {
            lemma_none_selected(views_of(self.tasks@), task_has_id(id));
        }
        Ok(None)
    }

    fn fetch_all_tasks(&mut self, lane_name: &str) -> (found: Result<Vec<Task>, RepositoryError>) {
        Ok(task::list_lane(&self.tasks, &self.lanes, lane_name))
    }
}

impl Session {
    /// Replaces the fields that are given on the tasks of the id `id` and
    /// stamps them with the instant `now`; an unknown id is `NotFound`.
    pub fn mod_task_at(
        &mut self,
        id: Id,
        lane_id: Option<&Id>,
        priority: Option<&Id>,
        summary: Option<&str>,
        estimate: Option<i64>,
        now: Timestamp,
    ) -> (done: Result<(), RepositoryError>)
        ensures
            match done {
                Ok(_) => {
                    &&& old(self)@.has_task(id)
                    &&& final(self)@ == (RepositoryView {
                        tasks: old(self)@.tasks.map_values(
                            task::revision(
                                id,
                                task::id_of(lane_id),
                                task::id_of(priority),
                                task::text_of(summary),
                                estimate,
                                now,
                            ),
                        ),
                        ..old(self)@
                    })
                },
                Err(e) => {
                    &&& e == RepositoryError::NotFound
                    &&& !old(self)@.has_task(id)
                    &&& final(self)@ == old(self)@
                },
            },
    {
        let ghost before = self@.tasks;
        let ghost revise = task::revision(
            id,
            task::id_of(lane_id),
            task::id_of(priority),
            task::text_of(summary),
            estimate,
            now,
        );
        let mut known = false;
        let mut i: usize = 0;
        while i < self.tasks.len()
            invariant
                i <= self.tasks@.len(),
                self.tasks@.len() == before.len(),
                before == old(self)@.tasks,
                revise == task::revision(
                    id,
                    task::id_of(lane_id),
                    task::id_of(priority),
                    task::text_of(summary),
                    estimate,
                    now,
                ),
                self@ == (RepositoryView { tasks: self@.tasks, ..old(self)@ }),
                forall|j: int| 0 <= j < i ==> (#[trigger] self@.tasks[j]) == revise(before[j]),
                forall|j: int| i <= j < before.len() ==> (#[trigger] self@.tasks[j]) == before[j],
                known <==> exists|j: int| 0 <= j < i && (task_has_id(id))(#[trigger] before[j]),
            decreases self.tasks.len() - i,
        {
            let ghost rows = self.tasks@;
            let ghost start = self@.tasks;
            proof {
                assert(start[i as int] == before[i as int]);
            }
            if self.tasks[i].id == id {
                known = true;
                let current = &self.tasks[i];
                let revised = Task {
                    id: current.id,
                    lane_id: match lane_id {
                        Some(lane_id) => *lane_id,
                        None => current.lane_id,
                    },
                    priority: match priority {
                        Some(priority) => *priority,
                        None => current.priority,
                    },
                    summary: match summary {
                        Some(summary) => String::from_str(summary),
                        None => current.summary.clone(),
                    },
                    estimate: match estimate {
                        Some(estimate) => estimate,
                        None => current.estimate,
                    },
                    created_at: current.created_at,
                    updated_at: now,
                };
                self.tasks[i] = revised;
                proof {
                    assert(self.tasks@ == rows.update(i as int, revised));
                    assert(revised@ == revise(before[i as int]));
                }
            }
            proof {
                assert forall|j: int| 0 <= j < i + 1 implies (#[trigger] self@.tasks[j]) == revise(
                    before[j],
                ) by {
                    assert(self@.tasks[j] == self.tasks@[j]@);
                    assert(start[j] == rows[j]@);
                    if j < i {
                        assert(self.tasks@[j] == rows[j]);
                        assert(start[j] == revise(before[j]));
                    }
                }
                assert forall|j: int| i + 1 <= j < before.len() implies (
                #[trigger] self@.tasks[j]) == before[j] by {
                    assert(self@.tasks[j] == self.tasks@[j]@);
                    assert(start[j] == rows[j]@);
                    assert(self.tasks@[j] == rows[j]);
                    assert(start[j] == before[j]);
                }
            }
            i = i + 1;
        }
        if known {
            proof {
                let at = choose|j: int| 0 <= j < before.len() && (task_has_id(id))(#[trigger] before[j]);
                lemma_some_selected(before, task_has_id(id), at);
                assert(self@.tasks =~= before.map_values(revise));
            }
            Ok(())
        } else {
            proof {
                lemma_none_selected(before, task_has_id(id));
                assert(self@.tasks =~= before);
            }
            Err(RepositoryError::NotFound)
        }
    }
}

impl task::Mod for Session {
    fn mod_task(
        &mut self,
        id: Id,
        lane_id: Option<&Id>,
        priority: Option<&Id>,
        summary: Option<&str>,
        estimate: Option<i64>,
    ) -> (done: Result<(), RepositoryError>) {
        let now = clock::now();
        self.mod_task_at(id, lane_id, priority, summary, estimate, now)
    }
}

impl timer::TimerTaskAdd for Session {
    fn add_timer_task(&mut self, task_id: &Id) -> (done: Result<(), RepositoryError>) {
        if self.timer_task.is_some() {
            return Err(RepositoryError::InconsistentState);
        }
        self.timer_task = Some(TimerTask { timer_id: TIMER_SLOT, task_id: *task_id });
        Ok(())
    }
}

impl timer::TimerTaskRemove for Session {
    fn remove_timer_task(&mut self) -> (done: Result<(), RepositoryError>) {
        self.timer_task = None;
        Ok(())
    }
}

impl timer::TimerTaskGet for Session {
    fn get_timer_task(&mut self) -> (found: Result<Option<TimerTask>, RepositoryError>) {
        Ok(self.timer_task)
    }
}

impl Session {
    /// Fills the empty slot with a timer that starts at the instant `now`.
    /// An occupied slot is left as it is, with `AlreadyRunning`.
    pub fn start_at(
        &mut self,
        timer_type: &TimerType,
        label: &str,
        duration_min: i64,
        now: Timestamp,
    ) -> (started: Result<Timer, RepositoryError>)
        ensures
            match started {
                Ok(timer) => {
                    &&& old(self)@.timer is None
                    &&& timer@ == (TimerView {
                        id: TIMER_SLOT,
                        timer_type: *timer_type,
                        label: label@,
                        started_at: now,
                        duration_min,
                    })
                    &&& final(self)@ == old(self)@.with_timer(Some(timer@))
                },
                Err(e) => {
                    &&& e == RepositoryError::AlreadyRunning
                    &&& old(self)@.timer is Some
                    &&& final(self)@ == old(self)@
                },
            },
    {
        if self.timer.is_some() {
            return Err(RepositoryError::AlreadyRunning);
        }
        let timer = Timer {
            id: TIMER_SLOT,
            timer_type: *timer_type,
            label: String::from_str(label),
            started_at: now,
            duration_min,
        };
        let started = timer.clone();
        self.timer = Some(timer);
        Ok(started)
    }
}

impl timer::Lifecycle for Session {
    fn start(&mut self, timer_type: &TimerType, label: &str, duration_min: i64) -> (started:
        Result<Timer, RepositoryError>) {
        let now = clock::now();
        self.start_at(timer_type, label, duration_min, now)
    }

    fn complete(&mut self) -> (done: Result<(), RepositoryError>) {
        self.timer = None;
        Ok(())
    }
}

impl timer::Get for Session {
    fn get(&mut self) -> (found: Result<Option<Timer>, RepositoryError>) {
        match &self.timer {
            Some(timer) => Ok(Some(timer.clone())),
            None => Ok(None),
        }
    }
}

/// The ids of the completed work sessions, in the order of the ledger.
pub open spec fn pomodoro_ids(ledger: Seq<Pomodoro>) -> Seq<Id> {
    ledger.map_values(|p: Pomodoro| p.id)
}

impl Session {
    /// The id that the next record of the ledger is given, where there is
    /// one left.
    fn next_pomodoro_id(&self) -> (id: Option<Id>)
        ensures
            match id {
                Some(id) => id == next_id(pomodoro_ids(self@.pomodoros)) && !self@.has_pomodoro(id),
                None => self@.has_pomodoro(i64::MAX),
            },
    {
        let ghost ids = pomodoro_ids(self@.pomodoros);
        let mut next: i64 = 1;
        let mut full = false;
        let mut i: usize = 0;
        while i < self.pomodoros.len()
            invariant
                i <= self.pomodoros@.len(),
                ids == pomodoro_ids(self@.pomodoros),
                ids.len() == self.pomodoros@.len(),
                !full ==> next == next_id(ids.take(i as int)),
                full ==> next_id(ids.take(i as int)) == i64::MAX + 1,
            decreases self.pomodoros.len() - i,
        {
            proof {
                assert(ids.take(i as int + 1).drop_last() == ids.take(i as int));
                assert(ids.take(i as int + 1).last() == self.pomodoros@[i as int].id);
                lemma_next_id(ids.take(i as int));
                lemma_next_id(ids.take(i as int + 1));
            }
            let id = self.pomodoros[i].id;
            if id == i64::MAX {
                full = true;
            } else if !full && id + 1 > next {
                next = id + 1;
            }
            i = i + 1;
        }
        proof {
            assert(ids.take(i as int) == ids);
            lemma_next_id(ids);
            if full {
                let at = choose|at: int| 0 <= at < ids.len() && #[trigger] ids[at] == i64::MAX;
                assert((crate::repository::pomodoro_has_id(i64::MAX))(self@.pomodoros[at]));
                lemma_some_selected(
                    self@.pomodoros,
                    crate::repository::pomodoro_has_id(i64::MAX),
                    at,
                );
            } else {
                assert forall|j: int| 0 <= j < self@.pomodoros.len() implies !(
                crate::repository::pomodoro_has_id(next))(#[trigger] self@.pomodoros[j]) by {
                    assert(ids[j] == self@.pomodoros[j].id);
                }
                lemma_none_selected(self@.pomodoros, crate::repository::pomodoro_has_id(next));
            }
        }
        if full {
            None
        } else {
            Some(next)
        }
    }

    /// Appends one completed work session on `task_id` that began at
    /// `started_at` and ended at the instant `now`, under the id that
    /// follows the greatest one in use.
    pub fn complete_pomodoro_at(&mut self, task_id: Id, started_at: Timestamp, now: Timestamp) -> (done:
        Result<(), RepositoryError>)
        ensures
            match done {
                Ok(_) => {
                    &&& next_id(pomodoro_ids(old(self)@.pomodoros)) <= i64::MAX
                    &&& !old(self)@.has_pomodoro(next_id(pomodoro_ids(old(self)@.pomodoros)) as i64)
                    &&& final(self)@ == old(self)@.with_pomodoro(
                        Pomodoro {
                            id: next_id(pomodoro_ids(old(self)@.pomodoros)) as i64,
                            task_id,
                            started_at,
                            finished_at: now,
                        },
                    )
                },
                Err(e) => {
                    &&& final(self)@ == old(self)@
                    &&& e == RepositoryError::StorageError
                    &&& old(self)@.has_pomodoro(i64::MAX)
                },
            },
    {
        let id = match self.next_pomodoro_id() {
            Some(id) => id,
            None => {
                return Err(RepositoryError::StorageError);
            },
        };
        self.pomodoros.push(Pomodoro { id, task_id, started_at, finished_at: now });
        Ok(())
    }
}

impl pomodoro::Complete for Session {
    fn complete_pomodoro(&mut self, task_id: Id, started_at: Timestamp) -> (done: Result<
        (),
        RepositoryError,
    >) {
        let now = clock::now();
        let done = self.complete_pomodoro_at(task_id, started_at, now);
        proof {
            if done is Ok {
                assert(final(self)@.pomodoros.drop_last() =~= old(self)@.pomodoros);
            }
        }
        done
    }
}

impl pomodoro::Fetch for Session {
    fn fetch_by_task_id(&mut self, task_id: Id) -> (found: Result<Vec<Pomodoro>, RepositoryError>) {
        Ok(pomodoro::sessions_on(&self.pomodoros, task_id))
    }
}

impl stats::Interrupt for Session {
    fn add_interruption(&mut self, task_id: Id, at: Timestamp) -> (done: Result<
        (),
        RepositoryError,
    >) {
        self.interruptions.push(Interruption { task_id, created_at: at });
        Ok(())
    }
}

impl stats::Fetch for Session {
    fn fetch_daily_summary(&mut self, range: &SummaryRange) -> (found: Result<
        Vec<DailySummary>,
        RepositoryError,
    >) {
        Ok(stats::daily_summary(&self.pomodoros, &self.interruptions, range, self.timezone))
    }
}

impl Session {
    /// Stores a list for the day `date`, stamped with the instant `now`.
    pub fn add_todo_at(&mut self, date: &TodoDate, note: &str, now: Timestamp) -> (done: Result<
        (),
        RepositoryError,
    >)
        ensures
            done is Ok,
            final(self)@ == (RepositoryView {
                todos: old(self)@.todos.push(
                    TodoView { date: *date, note: note@, created_at: now, updated_at: now },
                ),
                ..old(self)@
            }),
    {
        let todo = Todo {
            date: *date,
            note: String::from_str(note),
            created_at: now,
            updated_at: now,
        };
        proof {
            lemma_views_push(self.todos@, todo);
        }
        self.todos.push(todo);
        Ok(())
    }

    /// Whether the task `task_id` is on the list of the day `date`.
    fn holds_assignment(&self, date: TodoDate, task_id: Id) -> (found: bool)
        ensures
            found == todo::is_assigned(self@.todo_tasks, date, task_id),
    {
        let mut i: usize = 0;
        while i < self.todo_tasks.len()
            invariant
                i <= self.todo_tasks@.len(),
                forall|j: int|
                    0 <= j < i ==> !(todo::assigned_to(date, task_id))(
                        #[trigger] self.todo_tasks@[j],
                    ),
            decreases self.todo_tasks.len() - i,
        {
            if self.todo_tasks[i].date == date && self.todo_tasks[i].task_id == task_id {
                proof {
                    lemma_some_selected(
                        self.todo_tasks@,
                        todo::assigned_to(date, task_id),
                        i as int,
                    );
                }
                return true;
            }
            i = i + 1;
        }
        proof {
            lemma_none_selected(self.todo_tasks@, todo::assigned_to(date, task_id));
        }
        false
    }
}

impl todo::Add for Session {
    fn add_todo(&mut self, date: &TodoDate, note: &str) -> (done: Result<(), RepositoryError>) {
        let now = clock::now();
        let done = self.add_todo_at(date, note, now);
        proof {
            assert(final(self)@.todos.drop_last() =~= old(self)@.todos);
        }
        done
    }
}

impl todo::Fetch for Session {
    fn fetch_by_date(&mut self, date: &TodoDate) -> (found: Result<Option<Todo>, RepositoryError>) {
        let mut i: usize = 0;
        while i < self.todos.len()
            invariant
                i <= self.todos@.len(),
                forall|j: int|
                    0 <= j < i ==> !(todo::todo_has_date(*date))(
                        #[trigger] views_of(self.todos@)[j],
                    ),
            decreases self.todos.len() - i,
        {
            if self.todos[i].date == *date {
                proof {
                    lemma_first_selected(
                        views_of(self.todos@),
                        todo::todo_has_date(*date),
                        i as int,
                    );
                }
                return Ok(Some(self.todos[i].clone()));
            }
            i = i + 1;
        }
        proof {
            lemma_none_selected(views_of(self.todos@), todo::todo_has_date(*date));
        }
        Ok(None)
    }

    fn fetch_assignments(&mut self, date: &TodoDate) -> (found: Result<
        Vec<TodoTaskAssignment>,
        RepositoryError,
    >) {
        let ghost pred = todo::on_date(*date);
        let mut day: Vec<TodoTaskAssignment> = Vec::new();
        let mut i: usize = 0;
        while i < self.todo_tasks.len()
            invariant
                i <= self.todo_tasks@.len(),
                pred == todo::on_date(*date),
                day@ == self.todo_tasks@.take(i as int).filter(pred),
            decreases self.todo_tasks.len() - i,
        {
            let row = self.todo_tasks[i];
            proof {
                assert(self.todo_tasks@.take(i as int + 1) == self.todo_tasks@.take(i as int).push(
                    row,
                ));
                self.todo_tasks@.take(i as int).lemma_filter_push(row, pred);
            }
            if row.date == *date {
                day.push(row);
            }
            i = i + 1;
        }
        proof {
            assert(self.todo_tasks@.take(i as int) == self.todo_tasks@);
        }
        Ok(day)
    }

    fn fetch_todo_tasks(&mut self, date: &TodoDate) -> (found: Result<
        Vec<TodoTask>,
        RepositoryError,
    >) {
        Ok(todo::list_day(&self.tasks, &self.todo_tasks, &self.pomodoros, *date))
    }
}

impl todo::Mod for Session {
    fn add_todo_task(&mut self, date: &TodoDate, task_id: &Id, todo_order: usize) -> (done:
        Result<(), RepositoryError>) {
        if !self.holds_assignment(*date, *task_id) {
            self.todo_tasks.push(TodoTaskAssignment { date: *date, task_id: *task_id, todo_order });
        }
        Ok(())
    }

    fn remove_todo_task(&mut self, date: &TodoDate, task_id: &Id) -> (done: Result<
        (),
        RepositoryError,
    >) {
        let ghost pred = todo::not_assigned_to(*date, *task_id);
        let mut kept: Vec<TodoTaskAssignment> = Vec::new();
        let mut i: usize = 0;
        while i < self.todo_tasks.len()
            invariant
                i <= self.todo_tasks@.len(),
                pred == todo::not_assigned_to(*date, *task_id),
                self@ == old(self)@,
                kept@ == self.todo_tasks@.take(i as int).filter(pred),
            decreases self.todo_tasks.len() - i,
        {
            let row = self.todo_tasks[i];
            proof {
                assert(self.todo_tasks@.take(i as int + 1) == self.todo_tasks@.take(i as int).push(
                    row,
                ));
                self.todo_tasks@.take(i as int).lemma_filter_push(row, pred);
            }
            if !(row.date == *date && row.task_id == *task_id) {
                kept.push(row);
            }
            i = i + 1;
        }
        proof {
            assert(self.todo_tasks@.take(i as int) == self.todo_tasks@);
        }
        self.todo_tasks = kept;
        Ok(())
    }
}

} // verus!
