//! The mathematical model of the durable state.
//!
//! Every component works through a repository handle and holds no state of
//! its own. The contracts of the capability traits, and of the operations
//! built on them, are stated over [`RepositoryView`]: the tables as sequences
//! of rows in insertion order, and the timer slot as an `Option`.

use crate::common::Id;
use crate::lane::LaneView;
use crate::pomodoro::Pomodoro;
use crate::priority::PriorityView;
use crate::stats::Interruption;
use crate::task::TaskView;
use crate::timer::{TimerTask, TimerType, TimerView};
use crate::todo::{TodoTaskAssignment, TodoView};
use vstd::prelude::*;

verus! {

/// Everything a repository holds.
pub struct RepositoryView {
    /// Seconds east of UTC of the time zone in which days begin and end.
    pub timezone: i32,
    pub lanes: Seq<LaneView>,
    pub priorities: Seq<PriorityView>,
    pub tasks: Seq<TaskView>,
    /// The single timer slot: empty, or the timer that is running.
    pub timer: Option<TimerView>,
    /// The task the running timer works on.
    pub timer_task: Option<TimerTask>,
    /// The ledger of completed work sessions, oldest first.
    pub pomodoros: Seq<Pomodoro>,
    /// The ledger of interruptions, oldest first.
    pub interruptions: Seq<Interruption>,
    pub todos: Seq<TodoView>,
    pub todo_tasks: Seq<TodoTaskAssignment>,
}

impl RepositoryView {
    /// The first task with this id, if there is one.
    pub open spec fn task(self, id: Id) -> Option<TaskView> {
        task_with_id(self.tasks, id)
    }

    /// Whether a task with this id is stored.
    pub open spec fn has_task(self, id: Id) -> bool {
        self.task(id) is Some
    }

    /// A task that is found under an id has that id.
    pub proof fn lemma_task_has_id(self, id: Id)
        ensures
            self.task(id) is Some ==> self.task(id)->0.id == id,
    {
        if self.task(id) is Some {
            self.tasks.lemma_filter_pred(task_has_id(id), 0);
        }
    }

    /// The link from the timer slot to a task exists exactly while a work
    /// session is running.
    pub open spec fn timer_link_consistent(self) -> bool {
        self.timer_task is Some <==> (self.timer is Some && self.timer->0.timer_type
            == TimerType::Pomodoro)
    }

    /// Neither a timer nor a link is stored.
    pub open spec fn idle(self) -> bool {
        self.timer is None && self.timer_task is None
    }

    /// The same state with another content of the timer slot.
    pub open spec fn with_timer(self, timer: Option<TimerView>) -> RepositoryView {
        RepositoryView { timer, ..self }
    }

    /// The same state with another link from the timer slot to a task.
    pub open spec fn with_timer_task(self, timer_task: Option<TimerTask>) -> RepositoryView {
        RepositoryView { timer_task, ..self }
    }

    /// The same state with one more completed work session at the end of the
    /// ledger.
    pub open spec fn with_pomodoro(self, pomodoro: Pomodoro) -> RepositoryView {
        RepositoryView { pomodoros: self.pomodoros.push(pomodoro), ..self }
    }

    /// Whether a completed work session with this id is in the ledger.
    pub open spec fn has_pomodoro(self, id: Id) -> bool {
        self.pomodoros.filter(pomodoro_has_id(id)).len() > 0
    }
}

/// The first item of a selection, if it has one.
pub open spec fn first_of<T>(rows: Seq<T>) -> Option<T> {
    if rows.len() > 0 {
        Some(rows.first())
    } else {
        None
    }
}

/// Where `rows[i]` is the first row that a selection takes, it is the first
/// of the selection.
pub proof fn lemma_first_selected<T>(rows: Seq<T>, pred: spec_fn(T) -> bool, i: int)
    requires
        0 <= i < rows.len(),
        pred(rows[i]),
        forall|j: int| 0 <= j < i ==> !pred(#[trigger] rows[j]),
    ensures
        first_of(rows.filter(pred)) == Some(rows[i]),
{
    let head = rows.take(i);
    let tail = rows.skip(i);
    assert(rows == head + tail);
    Seq::filter_distributes_over_add(head, tail, pred);
    lemma_none_selected(head, pred);
    assert(tail == seq![rows[i]] + tail.skip(1));
    Seq::filter_distributes_over_add(seq![rows[i]], tail.skip(1), pred);
    assert(seq![rows[i]] == Seq::<T>::empty().push(rows[i]));
    Seq::<T>::empty().lemma_filter_push(rows[i], pred);
    Seq::<T>::empty().lemma_filter_len(pred);
    assert(Seq::<T>::empty().filter(pred) == Seq::<T>::empty());
    assert(seq![rows[i]].filter(pred) == seq![rows[i]]);
    assert(rows.filter(pred) == seq![rows[i]] + tail.skip(1).filter(pred));
}

/// A selection that takes no row is empty.
pub proof fn lemma_none_selected<T>(rows: Seq<T>, pred: spec_fn(T) -> bool)
    requires
        forall|j: int| 0 <= j < rows.len() ==> !pred(#[trigger] rows[j]),
    ensures
        rows.filter(pred).len() == 0,
{
    let selected = rows.filter(pred);
    if selected.len() > 0 {
        rows.lemma_filter_pred(pred, 0);
        assert(selected.contains(selected[0]));
        rows.lemma_filter_contains_rev(pred, selected[0]);
    }
}

/// A selection that takes a row is not empty.
pub proof fn lemma_some_selected<T>(rows: Seq<T>, pred: spec_fn(T) -> bool, i: int)
    requires
        0 <= i < rows.len(),
        pred(rows[i]),
    ensures
        rows.filter(pred).len() > 0,
{
    rows.lemma_filter_contains(pred, i);
}

/// Selects the tasks with the id `id`.
pub open spec fn task_has_id(id: Id) -> spec_fn(TaskView) -> bool {
    |t: TaskView| t.id == id
}

/// The first task of a table with the id `id`, if there is one.
pub open spec fn task_with_id(tasks: Seq<TaskView>, id: Id) -> Option<TaskView> {
    first_of(tasks.filter(task_has_id(id)))
}

/// Selects the completed work sessions with the id `id`.
pub open spec fn pomodoro_has_id(id: Id) -> spec_fn(Pomodoro) -> bool {
    |p: Pomodoro| p.id == id
}

/// The value of an optional record.
pub open spec fn view_of<T: View>(record: Option<T>) -> Option<T::V> {
    match record {
        Some(r) => Some(r@),
        None => None,
    }
}

/// The values of a list of records.
pub open spec fn views_of<T: View>(records: Seq<T>) -> Seq<T::V> {
    records.map_values(|r: T| r@)
}

/// The values of a list with one record more are the values of the list with
/// one value more.
pub proof fn lemma_views_push<T: View>(records: Seq<T>, record: T)
    ensures
        views_of(records.push(record)) == views_of(records).push(record@),
{
    assert(views_of(records.push(record)) =~= views_of(records).push(record@));
}

/// The values of the first `n + 1` records are the values of the first `n`
/// and the value of the next.
pub proof fn lemma_views_take<T: View>(records: Seq<T>, n: int)
    requires
        0 <= n < records.len(),
    ensures
        views_of(records).take(n + 1) == views_of(records).take(n).push(records[n]@),
        views_of(records).take(records.len() as int) == views_of(records),
{
    assert(views_of(records).take(n + 1) =~= views_of(records).take(n).push(records[n]@));
    assert(views_of(records).take(records.len() as int) =~= views_of(records));
}

/// Whether an operation may end in a storage failure: on an engine that is
/// not reliable always, on a reliable one only where the operation has run
/// out of identifiers to give.
pub open spec fn may_fail(reliable: bool, exhausted: bool) -> bool {
    !reliable || exhausted
}

/// The capability every storage engine starts from: it stands for a state.
pub trait Repository {
    /// What the repository holds. An engine that is not verified leaves the
    /// state unsaid.
    open spec fn view(&self) -> RepositoryView {
        arbitrary()
    }

    /// Whether the engine never fails for reasons of its own. An engine that
    /// can lose its disk or its connection is not reliable, and may return
    /// [`crate::common::RepositoryError::StorageError`] from any operation.
    /// An engine is taken to be unreliable unless it says otherwise.
    open spec fn reliable() -> bool {
        false
    }
}

} // verus!
