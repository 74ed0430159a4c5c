//! The daily task list.

use crate::common::{
    count_as_i64, count_one_more, Id, RepositoryError, Timestamp, MILLIS_PER_DAY,
};
use crate::order::{arrange, arranged, lemma_arranged_push_greatest};
use crate::pomodoro::Pomodoro;
use crate::repository::{
    first_of, lemma_first_selected, lemma_none_selected, lemma_some_selected, lemma_views_push,
    task_has_id, task_with_id, view_of, views_of, Repository, RepositoryView,
};
use crate::task::{Task, TaskView};
use vstd::prelude::*;

verus! {

/// A calendar day, written as the instant at which it begins in the
/// configured time zone.
pub type TodoDate = Timestamp;

/// The list of one day.
#[derive(Debug)]
pub struct Todo {
    pub date: TodoDate,
    pub note: String,
    pub created_at: Timestamp,
    pub updated_at: Timestamp,
}

/// The mathematical value of a [`Todo`].
pub struct TodoView {
    pub date: TodoDate,
    pub note: Seq<char>,
    pub created_at: Timestamp,
    pub updated_at: Timestamp,
}

impl View for Todo {
    type V = TodoView;

    open spec fn view(&self) -> TodoView {
        TodoView {
            date: self.date,
            note: self.note@,
            created_at: self.created_at,
            updated_at: self.updated_at,
        }
    }
}

impl Clone for Todo {
    fn clone(&self) -> (copy: Self)
        ensures
            copy@ == self@,
    {
        Todo {
            date: self.date,
            note: self.note.clone(),
            created_at: self.created_at,
            updated_at: self.updated_at,
        }
    }
}

/// A task put on the list of a day, at a place in the display sequence.
#[derive(Debug, Clone, Copy, PartialEq, Eq, Structural)]
pub struct TodoTaskAssignment {
    pub date: TodoDate,
    pub task_id: Id,
    pub todo_order: usize,
}

/// Task connected to the list of a day, with the work done on it that day.
#[derive(Debug)]
pub struct TodoTask {
    pub date: TodoDate,
    pub task_id: Id,
    pub lane_id: Id,
    pub priority: Id,
    pub summary: String,
    pub estimate: i64,
    pub actual: i64,
}

/// The mathematical value of a [`TodoTask`].
pub struct TodoTaskView {
    pub date: TodoDate,
    pub task_id: Id,
    pub lane_id: Id,
    pub priority: Id,
    pub summary: Seq<char>,
    pub estimate: i64,
    pub actual: i64,
}

impl View for TodoTask {
    type V = TodoTaskView;

    open spec fn view(&self) -> TodoTaskView {
        TodoTaskView {
            date: self.date,
            task_id: self.task_id,
            lane_id: self.lane_id,
            priority: self.priority,
            summary: self.summary@,
            estimate: self.estimate,
            actual: self.actual,
        }
    }
}

/// Selects the lists of the day `date`.
pub open spec fn todo_has_date(date: TodoDate) -> spec_fn(TodoView) -> bool {
    |t: TodoView| t.date == date
}

/// The first list of the day `date`, if there is one.
pub open spec fn todo_on(todos: Seq<TodoView>, date: TodoDate) -> Option<TodoView> {
    first_of(todos.filter(todo_has_date(date)))
}

/// Selects the assignments to the day `date`.
pub open spec fn on_date(date: TodoDate) -> spec_fn(TodoTaskAssignment) -> bool {
    |a: TodoTaskAssignment| a.date == date
}

/// Selects the assignments of the task `task_id` to the day `date`.
pub open spec fn assigned_to(date: TodoDate, task_id: Id) -> spec_fn(TodoTaskAssignment) -> bool {
    |a: TodoTaskAssignment| a.date == date && a.task_id == task_id
}

/// Selects all assignments but those of the task `task_id` to the day `date`.
pub open spec fn not_assigned_to(date: TodoDate, task_id: Id) -> spec_fn(
    TodoTaskAssignment,
) -> bool {
    |a: TodoTaskAssignment| !(a.date == date && a.task_id == task_id)
}

/// Whether the task `task_id` is on the list of the day `date`.
pub open spec fn is_assigned(rows: Seq<TodoTaskAssignment>, date: TodoDate, task_id: Id) -> bool {
    rows.filter(assigned_to(date, task_id)).len() > 0
}

/// The assignments after the task `task_id` was put on the list of the day
/// `date` at the place `todo_order`. A task that is on the list already stays
/// where it is: it is not listed twice.
pub open spec fn assign(
    rows: Seq<TodoTaskAssignment>,
    date: TodoDate,
    task_id: Id,
    todo_order: usize,
) -> Seq<TodoTaskAssignment> {
    if is_assigned(rows, date, task_id) {
        rows
    } else {
        rows.push(TodoTaskAssignment { date, task_id, todo_order })
    }
}

/// The assignments after the task `task_id` was taken off the list of the
/// day `date`.
pub open spec fn unassign(rows: Seq<TodoTaskAssignment>, date: TodoDate, task_id: Id) -> Seq<
    TodoTaskAssignment,
> {
    rows.filter(not_assigned_to(date, task_id))
}

/// The place after the greatest place among the rows: one more than the
/// greatest, and 0 where there are no rows.
pub open spec fn place_after(rows: Seq<TodoTaskAssignment>) -> int
    decreases rows.len(),
{
    if rows.len() == 0 {
        0
    } else {
        let earlier = place_after(rows.drop_last());
        if rows.last().todo_order + 1 > earlier {
            rows.last().todo_order + 1
        } else {
            earlier
        }
    }
}

/// The next place on the list of the day `date`: one more than the greatest
/// place on that day, and 0 on a day without assignments.
pub open spec fn next_place(rows: Seq<TodoTaskAssignment>, date: TodoDate) -> int {
    place_after(rows.filter(on_date(date)))
}

/// Whether the task `task_id` cannot be put on the list of the day `date`
/// because the greatest place there is on that day is taken. A task that is
/// on the list already needs no place.
pub open spec fn place_exhausted(
    rows: Seq<TodoTaskAssignment>,
    date: TodoDate,
    task_id: Id,
) -> bool {
    !is_assigned(rows, date, task_id) && next_place(rows, date) > usize::MAX
}

/// The assignments after the task `task_id` was put on the list of the day
/// `date` at the next place of that day. A task that is on the list already
/// stays where it is.
pub open spec fn assign_next(
    rows: Seq<TodoTaskAssignment>,
    date: TodoDate,
    task_id: Id,
) -> Seq<TodoTaskAssignment> {
    assign(rows, date, task_id, next_place(rows, date) as usize)
}

/// The assignments after the first `n` of the tasks `adds` were put on the
/// list of the day `date`, one after the other, each at the next place of
/// the day: behind everything that is on the list by then.
pub open spec fn assign_first(
    rows: Seq<TodoTaskAssignment>,
    date: TodoDate,
    adds: Seq<Id>,
    n: int,
) -> Seq<TodoTaskAssignment>
    decreases n,
{
    if n <= 0 {
        rows
    } else {
        assign_next(assign_first(rows, date, adds, n - 1), date, adds[n - 1])
    }
}

/// Whether each of the first `n` of the tasks `adds` finds a place on the
/// list of the day `date` when its turn comes.
pub open spec fn places_left(
    rows: Seq<TodoTaskAssignment>,
    date: TodoDate,
    adds: Seq<Id>,
    n: int,
) -> bool {
    forall|k: int|
        0 <= k < n ==> !place_exhausted(
            #[trigger] assign_first(rows, date, adds, k),
            date,
            adds[k],
        )
}

/// The assignments after the first `n` of the tasks `removes` were taken off
/// the list of the day `date`.
pub open spec fn unassign_first(
    rows: Seq<TodoTaskAssignment>,
    date: TodoDate,
    removes: Seq<Id>,
    n: int,
) -> Seq<TodoTaskAssignment>
    decreases n,
{
    if n <= 0 {
        rows
    } else {
        unassign(unassign_first(rows, date, removes, n - 1), date, removes[n - 1])
    }
}

/// The assignments after the first `n` of `adds` were put on the list of the
/// day `date` and then the first `m` of `removes` were taken off it.
pub open spec fn partly_modified(
    rows: Seq<TodoTaskAssignment>,
    date: TodoDate,
    adds: Seq<Id>,
    n: int,
    removes: Seq<Id>,
    m: int,
) -> Seq<TodoTaskAssignment> {
    unassign_first(assign_first(rows, date, adds, n), date, removes, m)
}

/// Selects the completed work sessions on the task `task_id` that began on
/// the day `date`: at the instant `date` or later, and less than 24 hours
/// after it.
pub open spec fn worked_on(task_id: Id, date: TodoDate) -> spec_fn(Pomodoro) -> bool {
    |p: Pomodoro| p.task_id == task_id && date <= p.started_at < date + MILLIS_PER_DAY
}

/// The number of work sessions on the task `task_id` that began on the day
/// `date`.
pub open spec fn actual(ledger: Seq<Pomodoro>, task_id: Id, date: TodoDate) -> i64 {
    count_as_i64(ledger.filter(worked_on(task_id, date)).len())
}

/// The line of the day's list that an assignment stands for: the task it
/// names, with the work done on it that day. An assignment that names no
/// stored task stands for no line.
pub open spec fn todo_task_of(
    tasks: Seq<TaskView>,
    ledger: Seq<Pomodoro>,
    row: TodoTaskAssignment,
) -> Option<TodoTaskView> {
    match task_with_id(tasks, row.task_id) {
        Some(task) => Some(
            TodoTaskView {
                date: row.date,
                task_id: task.id,
                lane_id: task.lane_id,
                priority: task.priority,
                summary: task.summary,
                estimate: task.estimate,
                actual: actual(ledger, task.id, row.date),
            },
        ),
        None => None,
    }
}

/// Gives each assignment the line of the day's list that it stands for.
pub open spec fn line_of(tasks: Seq<TaskView>, ledger: Seq<Pomodoro>) -> spec_fn(
    TodoTaskAssignment,
) -> Option<TodoTaskView> {
    |row: TodoTaskAssignment| todo_task_of(tasks, ledger, row)
}

/// The keys that put assignments in their display sequence.
pub open spec fn order_keys(rows: Seq<TodoTaskAssignment>) -> Seq<i128> {
    rows.map_values(|a: TodoTaskAssignment| a.todo_order as i128)
}

/// The assignments to the day `date` in their display sequence: ascending by
/// their place, assignments with the same place in the order in which they
/// were made.
pub open spec fn assignments_on(rows: Seq<TodoTaskAssignment>, date: TodoDate) -> Seq<
    TodoTaskAssignment,
> {
    let selected = rows.filter(on_date(date));
    arranged(selected, order_keys(selected))
}

/// The list of the day `date`, from the three tables it is made of: the
/// tasks assigned to the day in their display sequence, each with its
/// estimate and with the number of work sessions on it that began on that
/// day.
pub open spec fn day_list_of(
    tasks: Seq<TaskView>,
    rows: Seq<TodoTaskAssignment>,
    ledger: Seq<Pomodoro>,
    date: TodoDate,
) -> Seq<TodoTaskView> {
    assignments_on(rows, date).filter_map(line_of(tasks, ledger))
}

/// The list of the day `date` in a repository.
pub open spec fn day_list(view: RepositoryView, date: TodoDate) -> Seq<TodoTaskView> {
    day_list_of(view.tasks, view.todo_tasks, view.pomodoros, date)
}

/// The number of work sessions on the task `task_id` that began on the day
/// `date`.
pub fn count_actual(ledger: &Vec<Pomodoro>, task_id: Id, date: TodoDate) -> (count: i64)
    ensures
        count == actual(ledger@, task_id, date),
{
    let ghost pred = worked_on(task_id, date);
    let mut count: i64 = 0;
    let mut i: usize = 0;
    while i < ledger.len()
        invariant
            i <= ledger@.len(),
            pred == worked_on(task_id, date),
            count == count_as_i64(ledger@.take(i as int).filter(pred).len()),
        decreases ledger.len() - i,
    {
        let session = ledger[i];
        let ghost counted = ledger@.take(i as int).filter(pred).len();
        proof {
            assert(ledger@.take(i as int + 1) == ledger@.take(i as int).push(session));
            ledger@.take(i as int).lemma_filter_len_push(pred, session);
        }
        if session.task_id == task_id && date <= session.started_at && (session.started_at as i128)
            < date as i128 + 86_400_000 {
            count = count_one_more(count, Ghost(counted));
        }
        i = i + 1;
    }
    proof {
        assert(ledger@.take(i as int) == ledger@);
    }
    count
}

/// The line of the day's list that the assignment `row` stands for.
fn line_for(tasks: &Vec<Task>, ledger: &Vec<Pomodoro>, row: &TodoTaskAssignment) -> (line: Option<
    TodoTask,
>)
    ensures
        view_of(line) == todo_task_of(views_of(tasks@), ledger@, *row),
{
    let mut i: usize = 0;
    while i < tasks.len()
        invariant
            i <= tasks@.len(),
            forall|j: int|
                0 <= j < i ==> !(task_has_id(row.task_id))(#[trigger] views_of(tasks@)[j]),
        decreases tasks.len() - i,
    {
        if tasks[i].id == row.task_id {
            proof {
                lemma_first_selected(views_of(tasks@), task_has_id(row.task_id), i as int);
            }
            let task = &tasks[i];
            return Some(
                TodoTask {
                    date: row.date,
                    task_id: task.id,
                    lane_id: task.lane_id,
                    priority: task.priority,
                    summary: task.summary.clone(),
                    estimate: task.estimate,
                    actual: count_actual(ledger, task.id, row.date),
                },
            );
        }
        i = i + 1;
    }
    proof {
        lemma_none_selected(views_of(tasks@), task_has_id(row.task_id));
    }
    None
}

/// The list of the day `date`, from the three tables it is made of.
///
/// The assignments to the day are put in their display sequence, ascending
/// by their place. Each gives one line: the task it names, with its estimate
/// and with the number of completed work sessions on it that began at the
/// instant `date` or later and less than 24 hours after it. An assignment
/// that names no task of `tasks` gives no line.
pub fn list_day(
    tasks: &Vec<Task>,
    assignments: &Vec<TodoTaskAssignment>,
    ledger: &Vec<Pomodoro>,
    date: TodoDate,
) -> (list: Vec<TodoTask>)
    ensures
        views_of(list@) == day_list_of(views_of(tasks@), assignments@, ledger@, date),
{
    let ghost pred = on_date(date);
    let mut selected: Vec<TodoTaskAssignment> = Vec::new();
    let mut keys: Vec<i128> = Vec::new();
    let mut i: usize = 0;
    while i < assignments.len()
        invariant
            i <= assignments@.len(),
            pred == on_date(date),
            selected@ == assignments@.take(i as int).filter(pred),
            keys@ == order_keys(selected@),
        decreases assignments.len() - i,
    {
        let row = assignments[i];
        proof {
            assert(assignments@.take(i as int + 1) == assignments@.take(i as int).push(row));
            assignments@.take(i as int).lemma_filter_push(row, pred);
        }
        if row.date == date {
            selected.push(row);
            keys.push(row.todo_order as i128);
            proof {
                assert(keys@ =~= order_keys(selected@));
            }
        }
        i = i + 1;
    }
    proof {
        assert(assignments@.take(i as int) == assignments@);
    }
    let sorted = arrange(&selected, &keys);
    let ghost lines = line_of(views_of(tasks@), ledger@);
    let mut list: Vec<TodoTask> = Vec::new();
    let mut k: usize = 0;
    while k < sorted.len()
        invariant
            k <= sorted@.len(),
            lines == line_of(views_of(tasks@), ledger@),
            views_of(list@) == sorted@.take(k as int).filter_map(lines),
        decreases sorted.len() - k,
    {
        proof {
            sorted@.lemma_filter_map_take_succ(lines, k as int);
        }
        match line_for(tasks, ledger, &sorted[k]) {
            Some(line) => {
                proof {
                    lemma_views_push(list@, line);
                    assert(views_of(list@).push(line@) =~= views_of(list@) + seq![line@]);
                }
                list.push(line);
            },
            None => {
                proof {
                    assert(views_of(list@) + Seq::<TodoTaskView>::empty() =~= views_of(list@));
                }
            },
        }
        k = k + 1;
    }
    proof {
        assert(sorted@.take(k as int) == sorted@);
    }
    list
}

/// Whether `todos` is the table `pre` with a list for the day `date` and the
/// note `note` added at its end.
pub open spec fn todo_added(
    pre: Seq<TodoView>,
    date: TodoDate,
    note: Seq<char>,
    todos: Seq<TodoView>,
) -> bool {
    &&& todos.len() == pre.len() + 1
    &&& todos.drop_last() == pre
    &&& todos.last().date == date
    &&& todos.last().note == note
}

/// Creating the list of a day.
pub trait Add: Repository {
    /// Stores a list for the day `date`. Nothing else changes, and on
    /// failure nothing does.
    fn add_todo(&mut self, date: &TodoDate, note: &str) -> (done: Result<(), RepositoryError>)
        ensures
            match done {
                Ok(_) => {
                    &&& todo_added(old(self)@.todos, *date, note@, final(self)@.todos)
                    &&& final(self)@ == (RepositoryView { todos: final(self)@.todos, ..old(self)@ })
                },
                Err(e) => {
                    &&& final(self)@ == old(self)@
                    &&& e == RepositoryError::StorageError
                    &&& !Self::reliable()
                },
            },
    ;
}

/// Reading the list of a day.
pub trait Fetch: Repository {
    /// The list record of the day `date`, if there is one. The state is left
    /// as it was.
    fn fetch_by_date(&mut self, date: &TodoDate) -> (found: Result<Option<Todo>, RepositoryError>)
        ensures
            final(self)@ == old(self)@,
            match found {
                Ok(todo) => view_of(todo) == todo_on(old(self)@.todos, *date),
                Err(e) => e == RepositoryError::StorageError && !Self::reliable(),
            },
    ;

    /// The assignments to the day `date`, in the order in which they were
    /// made. The state is left as it was.
    fn fetch_assignments(&mut self, date: &TodoDate) -> (found: Result<
        Vec<TodoTaskAssignment>,
        RepositoryError,
    >)
        ensures
            final(self)@ == old(self)@,
            match found {
                Ok(rows) => rows@ == old(self)@.todo_tasks.filter(on_date(*date)),
                Err(e) => e == RepositoryError::StorageError && !Self::reliable(),
            },
    ;

    /// The tasks on the list of the day `date` in their display sequence,
    /// each with the number of work sessions on it that began on that day.
    /// The state is left as it was.
    fn fetch_todo_tasks(&mut self, date: &TodoDate) -> (found: Result<
        Vec<TodoTask>,
        RepositoryError,
    >)
        ensures
            final(self)@ == old(self)@,
            match found {
                Ok(tasks) => views_of(tasks@) == day_list(old(self)@, *date),
                Err(e) => e == RepositoryError::StorageError && !Self::reliable(),
            },
    ;
}

/// Changing the list of a day.
pub trait Mod: Repository {
    /// Puts the task `task_id` on the list of the day `date` at the place
    /// `todo_order`; a task that is on the list already stays where it is.
    /// Nothing else changes, and on failure nothing does.
    fn add_todo_task(&mut self, date: &TodoDate, task_id: &Id, todo_order: usize) -> (done:
        Result<(), RepositoryError>)
        ensures
            match done {
                Ok(_) => final(self)@ == (RepositoryView {
                    todo_tasks: assign(old(self)@.todo_tasks, *date, *task_id, todo_order),
                    ..old(self)@
                }),
                Err(e) => {
                    &&& final(self)@ == old(self)@
                    &&& e == RepositoryError::StorageError
                    &&& !Self::reliable()
                },
            },
    ;

    /// Takes the task `task_id` off the list of the day `date`. Nothing else
    /// changes, and on failure nothing does.
    fn remove_todo_task(&mut self, date: &TodoDate, task_id: &Id) -> (done: Result<
        (),
        RepositoryError,
    >)
        ensures
            match done {
                Ok(_) => final(self)@ == (RepositoryView {
                    todo_tasks: unassign(old(self)@.todo_tasks, *date, *task_id),
                    ..old(self)@
                }),
                Err(e) => {
                    &&& final(self)@ == old(self)@
                    &&& e == RepositoryError::StorageError
                    &&& !Self::reliable()
                },
            },
    ;
}

/// What [`list_todo_tasks`] may return, and the state it then leaves.
pub open spec fn list_todo_outcome(
    reliable: bool,
    pre: RepositoryView,
    date: TodoDate,
    result: Result<Seq<TodoTaskView>, RepositoryError>,
    post: RepositoryView,
) -> bool {
    &&& post == pre
    &&& match result {
        Ok(tasks) => tasks == day_list(pre, date),
        Err(e) => e == RepositoryError::StorageError && !reliable,
    }
}

/// The tasks on the list of the day `date` in their display sequence, each
/// with its estimate and the number of work sessions on it that began on
/// that day. Never changes the state.
pub fn list_todo_tasks<R>(r: &mut R, date: &TodoDate) -> (found: Result<
    Vec<TodoTask>,
    RepositoryError,
>) where R: Fetch
    ensures
        list_todo_outcome(
            R::reliable(),
            old(r)@,
            *date,
            match found {
                Ok(tasks) => Ok(views_of(tasks@)),
                Err(e) => Err(e),
            },
            final(r)@,
        ),
{
    r.fetch_todo_tasks(date)
}

/// Whether `todos` is the table `pre` once the day `date` has a list: as it
/// was where the day had one, else with a list with an empty note added.
pub open spec fn todo_ensured(pre: Seq<TodoView>, date: TodoDate, todos: Seq<TodoView>) -> bool {
    if todo_on(pre, date) is Some {
        todos == pre
    } else {
        todo_added(pre, date, Seq::empty(), todos)
    }
}

/// What [`mod_todo`] may return, and the state it then leaves.
///
/// Each task that is added takes the next place of the day, so that what is
/// added comes behind what was there, in the order in which it is given. The
/// changes are written one after the other and are not undone: a failure
/// partway leaves the earlier ones applied. On a reliable engine the only
/// failure is that of a day on which the greatest place there is is taken.
pub open spec fn mod_todo_outcome(
    reliable: bool,
    pre: RepositoryView,
    date: TodoDate,
    adds: Seq<Id>,
    removes: Seq<Id>,
    result: Result<(), RepositoryError>,
    post: RepositoryView,
) -> bool {
    &&& post == (RepositoryView { todos: post.todos, todo_tasks: post.todo_tasks, ..pre })
    &&& match result {
        Ok(_) => {
            &&& todo_ensured(pre.todos, date, post.todos)
            &&& places_left(pre.todo_tasks, date, adds, adds.len() as int)
            &&& post.todo_tasks == partly_modified(
                pre.todo_tasks,
                date,
                adds,
                adds.len() as int,
                removes,
                removes.len() as int,
            )
        },
        Err(RepositoryError::StorageError) => {
            &&& post.todos == pre.todos || todo_ensured(pre.todos, date, post.todos)
            &&& exists|n: int, m: int|
                {
                    &&& 0 <= n <= adds.len()
                    &&& 0 <= m <= removes.len()
                    &&& m > 0 ==> n == adds.len()
                    &&& places_left(pre.todo_tasks, date, adds, n)
                    &&& post.todo_tasks == #[trigger] partly_modified(
                        pre.todo_tasks,
                        date,
                        adds,
                        n,
                        removes,
                        m,
                    )
                    &&& !reliable || {
                        &&& m == 0
                        &&& n < adds.len()
                        &&& todo_ensured(pre.todos, date, post.todos)
                        &&& place_exhausted(post.todo_tasks, date, adds[n])
                    }
                }
        },
        Err(_) => false,
    }
}

/// Whether a task with the id `task_id` is among the rows.
pub open spec fn listed(rows: Seq<TodoTaskAssignment>, task_id: Id) -> bool {
    exists|j: int| 0 <= j < rows.len() && (#[trigger] rows[j]).task_id == task_id
}

/// The place after the greatest is 0 where there are no rows, and else one
/// more than the place of a row that no other row exceeds. It can be written
/// as a `usize` unless the greatest `usize` is taken.
pub proof fn lemma_place_after(rows: Seq<TodoTaskAssignment>)
    ensures
        0 <= place_after(rows) <= usize::MAX + 1,
        forall|i: int| 0 <= i < rows.len() ==> (#[trigger] rows[i]).todo_order < place_after(rows),
        rows.len() == 0 ==> place_after(rows) == 0,
        rows.len() > 0 ==> exists|i: int|
            0 <= i < rows.len() && (#[trigger] rows[i]).todo_order + 1 == place_after(rows),
    decreases rows.len(),
{
    if rows.len() > 0 {
        let earlier = rows.drop_last();
        lemma_place_after(earlier);
        assert forall|i: int| 0 <= i < rows.len() implies (#[trigger] rows[i]).todo_order
            < place_after(rows) by {
            if i < earlier.len() {
                assert(earlier[i] == rows[i]);
            }
        }
        if rows.last().todo_order + 1 > place_after(earlier) {
            assert(rows[rows.len() - 1].todo_order + 1 == place_after(rows));
        } else {
            assert(earlier.len() > 0);
            let i = choose|i: int|
                0 <= i < earlier.len() && (#[trigger] earlier[i]).todo_order + 1 == place_after(
                    earlier,
                );
            assert(rows[i].todo_order + 1 == place_after(rows));
        }
    }
}

/// A task is on the list of a day exactly if it is among the assignments to
/// that day.
pub proof fn lemma_assigned_iff_listed(rows: Seq<TodoTaskAssignment>, date: TodoDate, task_id: Id)
    ensures
        is_assigned(rows, date, task_id) <==> listed(rows.filter(on_date(date)), task_id),
{
    let day = rows.filter(on_date(date));
    let mine = rows.filter(assigned_to(date, task_id));
    if mine.len() > 0 {
        rows.lemma_filter_pred(assigned_to(date, task_id), 0);
        assert(mine.contains(mine[0]));
        rows.lemma_filter_contains_rev(assigned_to(date, task_id), mine[0]);
        let at = choose|at: int| 0 <= at < rows.len() && rows[at] == mine[0];
        rows.lemma_filter_contains(on_date(date), at);
        let j = choose|j: int| 0 <= j < day.len() && day[j] == rows[at];
        assert(day[j].task_id == task_id);
    }
    if listed(day, task_id) {
        let j = choose|j: int| 0 <= j < day.len() && (#[trigger] day[j]).task_id == task_id;
        rows.lemma_filter_pred(on_date(date), j);
        assert(day.contains(day[j]));
        rows.lemma_filter_contains_rev(on_date(date), day[j]);
        let at = choose|at: int| 0 <= at < rows.len() && rows[at] == day[j];
        lemma_some_selected(rows, assigned_to(date, task_id), at);
    }
}

/// The place for the task `task_id` on the day whose assignments are `day`:
/// the next place, where the task is not among them and there is a place
/// left. For a task that is among them any place will do, as it stays where
/// it is.
fn place_for(day: &Vec<TodoTaskAssignment>, task_id: Id) -> (place: Option<usize>)
    ensures
        match place {
            Some(place) => listed(day@, task_id) || place == place_after(day@),
            None => !listed(day@, task_id) && place_after(day@) > usize::MAX,
        },
{
    let mut next: usize = 0;
    let mut full = false;
    let mut found = false;
    let mut i: usize = 0;
    while i < day.len()
        invariant
            i <= day@.len(),
            found <==> listed(day@.take(i as int), task_id),
            !full ==> next == place_after(day@.take(i as int)),
            full ==> place_after(day@.take(i as int)) > usize::MAX,
        decreases day.len() - i,
    {
        proof {
            assert(day@.take(i as int + 1).drop_last() == day@.take(i as int));
            assert(day@.take(i as int + 1).last() == day@[i as int]);
            lemma_place_after(day@.take(i as int));
            if listed(day@.take(i as int), task_id) {
                let j = choose|j: int|
                    0 <= j < i && (#[trigger] day@.take(i as int)[j]).task_id == task_id;
                assert(day@.take(i as int + 1)[j].task_id == task_id);
            }
            if listed(day@.take(i as int + 1), task_id) && day@[i as int].task_id != task_id {
                let j = choose|j: int|
                    0 <= j < i + 1 && (#[trigger] day@.take(i as int + 1)[j]).task_id == task_id;
                assert(day@.take(i as int)[j].task_id == task_id);
            }
        }
        let row = day[i];
        if row.task_id == task_id {
            found = true;
            proof {
                assert(day@.take(i as int + 1)[i as int].task_id == task_id);
            }
        }
        if row.todo_order == usize::MAX {
            full = true;
        } else if !full && row.todo_order + 1 > next {
            next = row.todo_order + 1;
        }
        i = i + 1;
    }
    proof {
        assert(day@.take(i as int) == day@);
    }
    if found {
        Some(0)
    } else if full {
        None
    } else {
        Some(next)
    }
}

/// Changes the list of the day `date`.
///
/// A list for the day is created where there is none. Then each task of
/// `add_tasks` is put on the list, behind everything that is on it by then:
/// at the place after the greatest place of the day. A task that is on the
/// list already stays where it is. Then each task of `remove_tasks` is taken
/// off the list.
#[verifier::loop_isolation(false)]
pub fn mod_todo<R>(r: &mut R, date: &TodoDate, add_tasks: &[Id], remove_tasks: &[Id]) -> (result:
    Result<(), RepositoryError>) where R: Fetch + Mod + Add
    ensures
        mod_todo_outcome(
            R::reliable(),
            old(r)@,
            *date,
            add_tasks@,
            remove_tasks@,
            result,
            final(r)@,
        ),
{
    let ghost pre = r@;
    let plan = match r.fetch_by_date(date) {
        Ok(Some(plan)) => plan,
        Ok(None) => {
            match r.add_todo(date, "") {
                Ok(_) => {},
                Err(e) => {
                    assert(partly_modified(pre.todo_tasks, *date, add_tasks@, 0, remove_tasks@, 0)
                        == pre.todo_tasks);
                    return Err(e);
                },
            }
            proof {
                reveal_strlit("");
                assert(""@ == Seq::<char>::empty());
                lemma_added_todo_is_found(pre.todos, *date, r@.todos);
            }
            match r.fetch_by_date(date) {
                Ok(Some(plan)) => plan,
                Ok(None) => {
                    return Err(RepositoryError::InconsistentState);
                },
                Err(e) => {
                    assert(partly_modified(pre.todo_tasks, *date, add_tasks@, 0, remove_tasks@, 0)
                        == pre.todo_tasks);
                    return Err(e);
                },
            }
        },
        Err(e) => {
            assert(partly_modified(pre.todo_tasks, *date, add_tasks@, 0, remove_tasks@, 0)
                == pre.todo_tasks);
            return Err(e);
        },
    };
    proof {
        lemma_found_todo_has_date(r@.todos, *date);
    }
    let ghost created = r@.todos;
    let mut i: usize = 0;
    while i < add_tasks.len()
        invariant
            i <= add_tasks.len(),
            plan.date == *date,
            r@ == (RepositoryView { todos: created, todo_tasks: r@.todo_tasks, ..pre }),
            r@.todo_tasks == assign_first(pre.todo_tasks, *date, add_tasks@, i as int),
            places_left(pre.todo_tasks, *date, add_tasks@, i as int),
        decreases add_tasks.len() - i,
    {
        let ghost rows = r@.todo_tasks;
        proof {
            assert(rows == partly_modified(
                pre.todo_tasks,
                *date,
                add_tasks@,
                i as int,
                remove_tasks@,
                0,
            ));
            lemma_assigned_iff_listed(rows, *date, add_tasks@[i as int]);
        }
        let day = match r.fetch_assignments(&plan.date) {
            Ok(day) => day,
            Err(e) => {
                return Err(e);
            },
        };
        let place = match place_for(&day, add_tasks[i]) {
            Some(place) => place,
            None => {
                return Err(RepositoryError::StorageError);
            },
        };
        match r.add_todo_task(&plan.date, &add_tasks[i], place) {
            Ok(_) => {},
            Err(e) => {
                return Err(e);
            },
        }
        proof {
            assert(r@.todo_tasks == assign_next(rows, *date, add_tasks@[i as int]));
            assert forall|k: int| 0 <= k < i + 1 implies !place_exhausted(
                #[trigger] assign_first(pre.todo_tasks, *date, add_tasks@, k),
                *date,
                add_tasks@[k],
            ) by {}
        }
        i = i + 1;
    }
    let ghost added = r@.todo_tasks;
    let mut j: usize = 0;
    while j < remove_tasks.len()
        invariant
            j <= remove_tasks.len(),
            plan.date == *date,
            added == assign_first(pre.todo_tasks, *date, add_tasks@, add_tasks@.len() as int),
            r@ == (RepositoryView { todos: created, todo_tasks: r@.todo_tasks, ..pre }),
            r@.todo_tasks == unassign_first(added, *date, remove_tasks@, j as int),
        decreases remove_tasks.len() - j,
    {
        match r.remove_todo_task(&plan.date, &remove_tasks[j]) {
            Ok(_) => {},
            Err(e) => {
                assert(r@.todo_tasks == partly_modified(
                    pre.todo_tasks,
                    *date,
                    add_tasks@,
                    add_tasks@.len() as int,
                    remove_tasks@,
                    j as int,
                ));
                return Err(e);
            },
        }
        j = j + 1;
    }
    Ok(())
}

/// A list that is found for a day is a list of that day.
pub proof fn lemma_found_todo_has_date(todos: Seq<TodoView>, date: TodoDate)
    ensures
        todo_on(todos, date) is Some ==> todo_on(todos, date)->0.date == date,
{
    if todo_on(todos, date) is Some {
        todos.lemma_filter_pred(todo_has_date(date), 0);
    }
}

/// Once a list was added for a day, a list is found for that day.
pub proof fn lemma_added_todo_is_found(pre: Seq<TodoView>, date: TodoDate, todos: Seq<TodoView>)
    requires
        todos.len() == pre.len() + 1,
        todos.drop_last() == pre,
        todos.last().date == date,
    ensures
        todo_on(todos, date) is Some,
{
    assert(todos == pre.push(todos.last()));
    pre.lemma_filter_push(todos.last(), todo_has_date(date));
}

/// The report line of a day: what was estimated, what was done, and what
/// is left. `remaining` is negative where more was done than estimated.
#[derive(Debug, Clone, Copy, PartialEq, Eq, Structural)]
pub struct TodoSummary {
    pub estimate: i64,
    pub actual: i64,
    pub remaining: i64,
}

/// The sum of the estimates.
pub open spec fn estimate_sum(tasks: Seq<TodoTaskView>) -> int
    decreases tasks.len(),
{
    if tasks.len() == 0 {
        0
    } else {
        estimate_sum(tasks.drop_last()) + tasks.last().estimate
    }
}

/// The sum of the numbers of work sessions done.
pub open spec fn actual_sum(tasks: Seq<TodoTaskView>) -> int
    decreases tasks.len(),
{
    if tasks.len() == 0 {
        0
    } else {
        actual_sum(tasks.drop_last()) + tasks.last().actual
    }
}

/// The report line over the tasks of a list, where its three numbers can be
/// written as `i64`.
pub open spec fn summary_of(tasks: Seq<TodoTaskView>) -> Option<TodoSummary> {
    let estimate = estimate_sum(tasks);
    let actual = actual_sum(tasks);
    let remaining = estimate - actual;
    if i64::MIN <= estimate <= i64::MAX && i64::MIN <= actual <= i64::MAX && i64::MIN
        <= remaining <= i64::MAX {
        Some(
            TodoSummary {
                estimate: estimate as i64,
                actual: actual as i64,
                remaining: remaining as i64,
            },
        )
    } else {
        None
    }
}

/// The report line over the tasks of a list: the sum of the estimates, the
/// sum of the work done, and their difference. `None` where one of the three
/// does not fit an `i64`.
pub fn summarize(tasks: &Vec<TodoTask>) -> (summary: Option<TodoSummary>)
    ensures
        summary == summary_of(views_of(tasks@)),
{
    let ghost views = views_of(tasks@);
    let mut estimate: i128 = 0;
    let mut actual: i128 = 0;
    let mut i: usize = 0;
    while i < tasks.len()
        invariant
            i <= tasks.len(),
            views == views_of(tasks@),
            estimate == estimate_sum(views.take(i as int)),
            actual == actual_sum(views.take(i as int)),
            -(i * 0x8000_0000_0000_0000) <= estimate <= i * 0x8000_0000_0000_0000,
            -(i * 0x8000_0000_0000_0000) <= actual <= i * 0x8000_0000_0000_0000,
        decreases tasks.len() - i,
    {
        proof {
            assert(views.take(i as int + 1).drop_last() == views.take(i as int));
            assert(views.take(i as int + 1).last() == tasks@[i as int]@);
        }
        estimate = estimate + tasks[i].estimate as i128;
        actual = actual + tasks[i].actual as i128;
        i = i + 1;
    }
    proof {
        assert(views.take(tasks.len() as int) == views);
    }
    if estimate < i64::MIN as i128 || estimate > i64::MAX as i128 || actual < i64::MIN as i128
        || actual > i64::MAX as i128 {
        return None;
    }
    let remaining: i128 = estimate - actual;
    if remaining < i64::MIN as i128 || remaining > i64::MAX as i128 {
        None
    } else {
        Some(
            TodoSummary {
                estimate: estimate as i64,
                actual: actual as i64,
                remaining: remaining as i64,
            },
        )
    }
}

/// The list of a day: its report line, where the sums fit, and its tasks.
#[derive(Debug)]
pub struct TodoList {
    pub summary: Option<TodoSummary>,
    pub tasks: Vec<TodoTask>,
}

/// The list of the day `date`: the tasks in their display sequence, each
/// with its estimate and the number of work sessions on it that began on
/// that day, and the report line over them. Never changes the state.
pub fn list_todo<R>(r: &mut R, date: &TodoDate) -> (found: Result<TodoList, RepositoryError>) where
    R: Fetch,

    ensures
        list_todo_outcome(
            R::reliable(),
            old(r)@,
            *date,
            match found {
                Ok(list) => Ok(views_of(list.tasks@)),
                Err(e) => Err(e),
            },
            final(r)@,
        ),
        found is Ok ==> found->Ok_0.summary == summary_of(day_list(old(r)@, *date)),
{
    match r.fetch_todo_tasks(date) {
        Ok(tasks) => {
            let summary = summarize(&tasks);
            Ok(TodoList { summary, tasks })
        },
        Err(e) => Err(e),
    }
}

/// Listing is repeatable. Two listings of the same day with no write in
/// between return the same tasks with the same estimates and counts, and so
/// the same report line; neither changes the state.
pub proof fn lemma_list_todo_is_repeatable(
    reliable: bool,
    pre: RepositoryView,
    date: TodoDate,
    first: Seq<TodoTaskView>,
    between: RepositoryView,
    second: Seq<TodoTaskView>,
    post: RepositoryView,
)
    requires
        list_todo_outcome(reliable, pre, date, Ok(first), between),
        list_todo_outcome(reliable, between, date, Ok(second), post),
    ensures
        second == first,
        summary_of(second) == summary_of(first),
        post == pre,
{
}

/// The assignments that put the first `n` of the tasks `adds` on the list of
/// the day `date`, at the places from `base` on, in the order of `adds`.
pub open spec fn assignments_of(date: TodoDate, adds: Seq<Id>, base: int, n: int) -> Seq<
    TodoTaskAssignment,
> {
    Seq::new(
        n as nat,
        |i: int| TodoTaskAssignment { date, task_id: adds[i], todo_order: (base + i) as usize },
    )
}

/// No task is named twice.
pub open spec fn no_task_twice(adds: Seq<Id>) -> bool {
    forall|a: int, b: int| 0 <= a < b < adds.len() ==> adds[a] != adds[b]
}

/// What is added is listed last. Distinct tasks, none of them on the list
/// of the day, are put on it. Each takes the place that is the greatest
/// place of the day plus one, 0 on a day without assignments, plus the
/// number of tasks added before it; the list of the day then shows what was
/// on it, as it was, and behind that the new tasks in the order in which
/// they were given.
pub proof fn lemma_added_tasks_are_listed_last(
    rows: Seq<TodoTaskAssignment>,
    date: TodoDate,
    adds: Seq<Id>,
    n: int,
)
    requires
        0 <= n <= adds.len(),
        no_task_twice(adds),
        forall|k: int| 0 <= k < adds.len() ==> !is_assigned(rows, date, #[trigger] adds[k]),
        next_place(rows, date) + n <= usize::MAX + 1,
        rows.len() + n <= usize::MAX,
    ensures
        places_left(rows, date, adds, n),
        assign_first(rows, date, adds, n).len() == rows.len() + n,
        next_place(assign_first(rows, date, adds, n), date) == next_place(rows, date) + n,
        assign_first(rows, date, adds, n).filter(on_date(date)) == rows.filter(on_date(date))
            + assignments_of(date, adds, next_place(rows, date), n),
        assignments_on(assign_first(rows, date, adds, n), date) == assignments_on(rows, date)
            + assignments_of(date, adds, next_place(rows, date), n),
        forall|k: int|
            n <= k < adds.len() ==> !is_assigned(
                assign_first(rows, date, adds, n),
                date,
                #[trigger] adds[k],
            ),
    decreases n,
{
    let base = next_place(rows, date);
    let day = rows.filter(on_date(date));
    if n == 0 {
        assert(day + assignments_of(date, adds, base, 0) =~= day);
        assert(assignments_on(rows, date) + assignments_of(date, adds, base, 0) =~= assignments_on(
            rows,
            date,
        ));
    } else {
        lemma_added_tasks_are_listed_last(rows, date, adds, n - 1);
        let earlier = assign_first(rows, date, adds, n - 1);
        let earlier_day = earlier.filter(on_date(date));
        let task_id = adds[n - 1];
        let row = TodoTaskAssignment { date, task_id, todo_order: (base + n - 1) as usize };
        let after = assign_first(rows, date, adds, n);
        assert(!is_assigned(earlier, date, adds[n - 1]));
        assert(after == earlier.push(row));
        earlier.lemma_filter_push(row, on_date(date));
        let after_day = after.filter(on_date(date));
        assert(after_day == earlier_day.push(row));
        assert(after_day =~= day + assignments_of(date, adds, base, n));
        // The next place moves on by one.
        assert(after_day.drop_last() == earlier_day);
        assert(after_day.last() == row);
        // The new row is listed last.
        lemma_place_after(earlier_day);
        earlier.lemma_filter_len(on_date(date));
        assert(order_keys(after_day) =~= order_keys(earlier_day).push(row.todo_order as i128));
        assert forall|i: int| 0 <= i < order_keys(earlier_day).len() implies order_keys(
            earlier_day,
        )[i] <= row.todo_order as i128 by {
            assert(earlier_day[i].todo_order < place_after(earlier_day));
        }
        lemma_arranged_push_greatest(
            earlier_day,
            order_keys(earlier_day),
            row,
            row.todo_order as i128,
        );
        assert(assignments_on(after, date) == assignments_on(earlier, date).push(row));
        assert(assignments_on(after, date) =~= assignments_on(rows, date) + assignments_of(
            date,
            adds,
            base,
            n,
        ));
        assert forall|k: int| n <= k < adds.len() implies !is_assigned(
            after,
            date,
            #[trigger] adds[k],
        ) by {
            assert(!is_assigned(earlier, date, adds[k]));
            earlier.lemma_filter_len_push(assigned_to(date, adds[k]), row);
        }
        assert forall|k: int| 0 <= k < n implies !place_exhausted(
            #[trigger] assign_first(rows, date, adds, k),
            date,
            adds[k],
        ) by {
            if k == n - 1 {
                assert(next_place(earlier, date) == base + n - 1);
            }
        }
    }
}

/// Where every one of the first `n` rows names a task, the lines of those
/// rows are as many, and each is the line of the task that its row names.
proof fn lemma_lines_of_known_tasks(
    tasks: Seq<TaskView>,
    ledger: Seq<Pomodoro>,
    rows: Seq<TodoTaskAssignment>,
    n: int,
)
    requires
        0 <= n <= rows.len(),
        forall|i: int| 0 <= i < n ==> task_with_id(tasks, (#[trigger] rows[i]).task_id) is Some,
    ensures
        rows.take(n).filter_map(line_of(tasks, ledger)).len() == n,
        forall|i: int|
            0 <= i < n ==> Some(#[trigger] rows.take(n).filter_map(line_of(tasks, ledger))[i])
                == todo_task_of(tasks, ledger, rows[i]),
    decreases n,
{
    let lines = line_of(tasks, ledger);
    if n > 0 {
        lemma_lines_of_known_tasks(tasks, ledger, rows, n - 1);
        rows.lemma_filter_map_take_succ(lines, n - 1);
        assert(lines(rows[n - 1]) == todo_task_of(tasks, ledger, rows[n - 1]));
    } else {
        assert(rows.take(0).filter_map(lines).len() == 0);
    }
}

/// Ordering. Distinct tasks, each of them stored, are put on the list of a
/// day that had no assignments, and none is taken off. Then the list of the
/// day shows exactly these tasks, in the order in which they were given,
/// whatever their ids, at the places from 0 on.
pub proof fn lemma_added_tasks_are_listed_in_order(
    reliable: bool,
    pre: RepositoryView,
    date: TodoDate,
    adds: Seq<Id>,
    post: RepositoryView,
)
    requires
        mod_todo_outcome(reliable, pre, date, adds, Seq::empty(), Ok(()), post),
        pre.todo_tasks.filter(on_date(date)).len() == 0,
        no_task_twice(adds),
        forall|i: int| 0 <= i < adds.len() ==> pre.has_task(#[trigger] adds[i]),
        pre.todo_tasks.len() + adds.len() <= usize::MAX,
    ensures
        assignments_on(post.todo_tasks, date) == assignments_of(date, adds, 0, adds.len() as int),
        day_list(post, date).len() == adds.len(),
        forall|i: int| 0 <= i < adds.len() ==> (#[trigger] day_list(post, date)[i]).task_id == adds[i],
{
    let n = adds.len() as int;
    let rows = assignments_of(date, adds, 0, n);
    let day = pre.todo_tasks.filter(on_date(date));
    assert(day =~= Seq::<TodoTaskAssignment>::empty());
    assert forall|k: int| 0 <= k < adds.len() implies !is_assigned(
        pre.todo_tasks,
        date,
        #[trigger] adds[k],
    ) by {
        lemma_assigned_iff_listed(pre.todo_tasks, date, adds[k]);
    }
    lemma_added_tasks_are_listed_last(pre.todo_tasks, date, adds, n);
    assert(crate::order::stable_order(order_keys(day)) =~= Seq::<usize>::empty());
    assert(assignments_on(pre.todo_tasks, date) =~= Seq::<TodoTaskAssignment>::empty());
    assert(assignments_on(post.todo_tasks, date) =~= rows);
    assert forall|i: int| 0 <= i < n implies task_with_id(
        post.tasks,
        (#[trigger] rows[i]).task_id,
    ) is Some by {
        assert(pre.has_task(adds[i]));
    }
    lemma_lines_of_known_tasks(post.tasks, post.pomodoros, rows, n);
    assert(rows.take(n) == rows);
    assert forall|i: int| 0 <= i < adds.len() implies (#[trigger] day_list(post, date)[i]).task_id
        == adds[i] by {
        post.lemma_task_has_id(adds[i]);
        assert(rows[i].task_id == adds[i]);
    }
}

/// On a reliable engine a change of the list of a day succeeds where every
/// task that is added finds a place when its turn comes.
pub proof fn lemma_mod_todo_succeeds_with_places_left(
    pre: RepositoryView,
    date: TodoDate,
    adds: Seq<Id>,
    removes: Seq<Id>,
    result: Result<(), RepositoryError>,
    post: RepositoryView,
)
    requires
        mod_todo_outcome(true, pre, date, adds, removes, result, post),
        places_left(pre.todo_tasks, date, adds, adds.len() as int),
    ensures
        result is Ok,
{
    if result is Err {
        let (n, m) = choose|n: int, m: int|
            {
                &&& 0 <= n <= adds.len()
                &&& 0 <= m <= removes.len()
                &&& post.todo_tasks == #[trigger] partly_modified(
                    pre.todo_tasks,
                    date,
                    adds,
                    n,
                    removes,
                    m,
                )
                &&& m == 0
                &&& n < adds.len()
                &&& place_exhausted(post.todo_tasks, date, adds[n])
            };
        assert(!place_exhausted(assign_first(pre.todo_tasks, date, adds, n), date, adds[n]));
    }
}

/// Selects the assignments to the day `date` at the place `place`.
pub open spec fn at_place(date: TodoDate, place: usize) -> spec_fn(TodoTaskAssignment) -> bool {
    |a: TodoTaskAssignment| a.date == date && a.todo_order == place
}

/// Whether the places on the list of the day `date` are pairwise distinct:
/// no place is held by two assignments to that day.
pub open spec fn places_distinct(rows: Seq<TodoTaskAssignment>, date: TodoDate) -> bool {
    forall|place: usize| #[trigger] rows.filter(at_place(date, place)).len() <= 1
}

/// Where the places on a day are pairwise distinct, two assignments to that
/// day have different places.
pub proof fn lemma_distinct_places_differ(
    rows: Seq<TodoTaskAssignment>,
    date: TodoDate,
    i: int,
    j: int,
)
    requires
        places_distinct(rows, date),
        0 <= i < j < rows.len(),
        rows[i].date == date,
        rows[j].date == date,
    ensures
        rows[i].todo_order != rows[j].todo_order,
{
    if rows[i].todo_order == rows[j].todo_order {
        let pred = at_place(date, rows[i].todo_order);
        let head = rows.take(j);
        let tail = rows.skip(j);
        assert(rows == head + tail);
        Seq::filter_distributes_over_add(head, tail, pred);
        assert(head[i] == rows[i]);
        lemma_some_selected(head, pred, i);
        assert(tail[0] == rows[j]);
        lemma_some_selected(tail, pred, 0);
        assert(rows.filter(pred).len() >= 2);
    }
}

/// Two selections, one after the other, take the same rows in either order.
proof fn lemma_filter_commutes(
    rows: Seq<TodoTaskAssignment>,
    a: spec_fn(TodoTaskAssignment) -> bool,
    b: spec_fn(TodoTaskAssignment) -> bool,
)
    ensures
        rows.filter(a).filter(b) == rows.filter(b).filter(a),
    decreases rows.len(),
{
    if rows.len() == 0 {
        rows.lemma_filter_len(a);
        rows.lemma_filter_len(b);
        rows.filter(a).lemma_filter_len(b);
        rows.filter(b).lemma_filter_len(a);
        assert(rows.filter(a).filter(b) =~= rows.filter(b).filter(a));
    } else {
        let shorter = rows.drop_last();
        let x = rows.last();
        lemma_filter_commutes(shorter, a, b);
        assert(rows == shorter.push(x));
        shorter.lemma_filter_push(x, a);
        shorter.lemma_filter_push(x, b);
        shorter.filter(a).lemma_filter_push(x, b);
        shorter.filter(b).lemma_filter_push(x, a);
    }
}

/// Putting a task at the next place of a day keeps the places of every day
/// pairwise distinct.
proof fn lemma_assign_next_keeps_places_distinct(
    rows: Seq<TodoTaskAssignment>,
    date: TodoDate,
    task_id: Id,
    day: TodoDate,
)
    requires
        places_distinct(rows, day),
        !place_exhausted(rows, date, task_id),
    ensures
        places_distinct(assign_next(rows, date, task_id), day),
{
    if !is_assigned(rows, date, task_id) {
        let of_day = rows.filter(on_date(date));
        let next = next_place(rows, date) as usize;
        let row = TodoTaskAssignment { date, task_id, todo_order: next };
        let after = rows.push(row);
        lemma_place_after(of_day);
        assert forall|place: usize| #[trigger] after.filter(at_place(day, place)).len() <= 1 by {
            rows.lemma_filter_len_push(at_place(day, place), row);
            assert(rows.filter(at_place(day, place)).len() <= 1);
            if day == date && place == next {
                assert forall|i: int| 0 <= i < rows.len() implies !(at_place(date, next))(
                    #[trigger] rows[i],
                ) by {
                    if rows[i].date == date {
                        rows.lemma_filter_contains(on_date(date), i);
                        let k = choose|k: int| 0 <= k < of_day.len() && of_day[k] == rows[i];
                        assert(of_day[k].todo_order < place_after(of_day));
                    }
                }
                lemma_none_selected(rows, at_place(date, next));
            }
        }
    }
}

/// Taking a task off the list of a day keeps the places of every day
/// pairwise distinct.
proof fn lemma_unassign_keeps_places_distinct(
    rows: Seq<TodoTaskAssignment>,
    date: TodoDate,
    task_id: Id,
    day: TodoDate,
)
    requires
        places_distinct(rows, day),
    ensures
        places_distinct(unassign(rows, date, task_id), day),
{
    let kept = unassign(rows, date, task_id);
    assert forall|place: usize| #[trigger] kept.filter(at_place(day, place)).len() <= 1 by {
        lemma_filter_commutes(rows, not_assigned_to(date, task_id), at_place(day, place));
        rows.filter(at_place(day, place)).lemma_filter_len(not_assigned_to(date, task_id));
        assert(rows.filter(at_place(day, place)).len() <= 1);
    }
}

/// Places stay pairwise distinct through the changes of a list, however far
/// they got.
proof fn lemma_partly_modified_keeps_places_distinct(
    rows: Seq<TodoTaskAssignment>,
    date: TodoDate,
    adds: Seq<Id>,
    n: int,
    removes: Seq<Id>,
    m: int,
    day: TodoDate,
)
    requires
        places_distinct(rows, day),
        places_left(rows, date, adds, n),
    ensures
        places_distinct(partly_modified(rows, date, adds, n, removes, m), day),
    decreases (if n > 0 { n } else { 0 }) + (if m > 0 { m } else { 0 }),
{
    if m > 0 {
        lemma_partly_modified_keeps_places_distinct(rows, date, adds, n, removes, m - 1, day);
        lemma_unassign_keeps_places_distinct(
            partly_modified(rows, date, adds, n, removes, m - 1),
            date,
            removes[m - 1],
            day,
        );
    } else if n > 0 {
        assert(places_left(rows, date, adds, n - 1));
        lemma_partly_modified_keeps_places_distinct(rows, date, adds, n - 1, removes, 0, day);
        let earlier = assign_first(rows, date, adds, n - 1);
        assert(!place_exhausted(earlier, date, adds[n - 1]));
        lemma_assign_next_keeps_places_distinct(earlier, date, adds[n - 1], day);
    }
}

/// Places on a day stay pairwise distinct. Where no two assignments to a day
/// share a place before the list of some day is changed, none do after,
/// whatever the change returns and however far it got.
pub proof fn lemma_mod_todo_keeps_places_distinct(
    reliable: bool,
    pre: RepositoryView,
    date: TodoDate,
    adds: Seq<Id>,
    removes: Seq<Id>,
    result: Result<(), RepositoryError>,
    post: RepositoryView,
    day: TodoDate,
)
    requires
        mod_todo_outcome(reliable, pre, date, adds, removes, result, post),
        places_distinct(pre.todo_tasks, day),
    ensures
        places_distinct(post.todo_tasks, day),
{
    match result {
        Ok(_) => {
            lemma_partly_modified_keeps_places_distinct(
                pre.todo_tasks,
                date,
                adds,
                adds.len() as int,
                removes,
                removes.len() as int,
                day,
            );
        },
        Err(_) => {
            let (n, m) = choose|n: int, m: int|
                {
                    &&& 0 <= n <= adds.len()
                    &&& 0 <= m <= removes.len()
                    &&& places_left(pre.todo_tasks, date, adds, n)
                    &&& post.todo_tasks == #[trigger] partly_modified(
                        pre.todo_tasks,
                        date,
                        adds,
                        n,
                        removes,
                        m,
                    )
                };
            lemma_partly_modified_keeps_places_distinct(
                pre.todo_tasks,
                date,
                adds,
                n,
                removes,
                m,
                day,
            );
        },
    }
}

/// Putting a task on the list of a day a second time changes nothing,
/// whatever the place it is given the second time: the task is on the list
/// once, at its first place.
pub proof fn lemma_assigning_again_changes_nothing(
    rows: Seq<TodoTaskAssignment>,
    date: TodoDate,
    task_id: Id,
    first: usize,
    second: usize,
)
    ensures
        is_assigned(assign(rows, date, task_id, first), date, task_id),
        assign(assign(rows, date, task_id, first), date, task_id, second) == assign(
            rows,
            date,
            task_id,
            first,
        ),
        is_assigned(rows, date, task_id) ==> assign(rows, date, task_id, first) == rows,
{
    if !is_assigned(rows, date, task_id) {
        let row = TodoTaskAssignment { date, task_id, todo_order: first };
        rows.lemma_filter_len_push(assigned_to(date, task_id), row);
    }
}

/// A task that was taken off the list of a day is not on it, and the other
/// assignments stay, in their order.
pub proof fn lemma_unassigned_is_gone(rows: Seq<TodoTaskAssignment>, date: TodoDate, task_id: Id)
    ensures
        !is_assigned(unassign(rows, date, task_id), date, task_id),
        !is_assigned(rows, date, task_id) ==> unassign(rows, date, task_id) == rows,
{
    let kept = unassign(rows, date, task_id);
    assert forall|j: int| 0 <= j < kept.len() implies !(assigned_to(date, task_id))(
        #[trigger] kept[j],
    ) by {
        rows.lemma_filter_pred(not_assigned_to(date, task_id), j);
    }
    lemma_none_selected(kept, assigned_to(date, task_id));
    if !is_assigned(rows, date, task_id) {
        assert forall|j: int| 0 <= j < rows.len() implies (not_assigned_to(date, task_id))(
            #[trigger] rows[j],
        ) by {
            if (assigned_to(date, task_id))(rows[j]) {
                lemma_some_selected(rows, assigned_to(date, task_id), j);
            }
        }
        lemma_all_selected(rows, not_assigned_to(date, task_id));
    }
}

/// A selection that takes every row is the table itself.
proof fn lemma_all_selected(rows: Seq<TodoTaskAssignment>, pred: spec_fn(TodoTaskAssignment) -> bool)
    requires
        forall|j: int| 0 <= j < rows.len() ==> pred(#[trigger] rows[j]),
    ensures
        rows.filter(pred) == rows,
    decreases rows.len(),
{
    reveal(Seq::filter);
    if rows.len() > 0 {
        let shorter = rows.drop_last();
        assert forall|j: int| 0 <= j < shorter.len() implies pred(#[trigger] shorter[j]) by {
            assert(shorter[j] == rows[j]);
        }
        lemma_all_selected(shorter, pred);
        assert(shorter.push(rows.last()) =~= rows);
    }
}

/// A change of the list of a day writes to neither ledger, to no task and
/// to no timer, whatever it returns.
pub proof fn lemma_mod_todo_keeps_ledgers(
    reliable: bool,
    pre: RepositoryView,
    date: TodoDate,
    adds: Seq<Id>,
    removes: Seq<Id>,
    result: Result<(), RepositoryError>,
    post: RepositoryView,
)
    requires
        mod_todo_outcome(reliable, pre, date, adds, removes, result, post),
    ensures
        post.pomodoros == pre.pomodoros,
        post.interruptions == pre.interruptions,
        post.tasks == pre.tasks,
        post.timer == pre.timer,
        post.timer_task == pre.timer_task,
{
}

} // verus!
