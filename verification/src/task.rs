//! Tasks and the operations that create, list and revise them.

use crate::common::{Id, RepositoryError, Timestamp};
use crate::lane;
use crate::lane::{lane_named, Lane, LaneView};
use crate::order::{arranged, is_stable_order, sort_positions, stable_order};
use crate::priority;
use crate::priority::priority_named;
use crate::repository::{
    lemma_none_selected, lemma_some_selected, lemma_views_push, lemma_views_take, may_fail,
    task_has_id, task_with_id, view_of, views_of, Repository, RepositoryView,
};
use vstd::prelude::*;
use vstd::string::StringExecFns;

verus! {

/// Task to be done.
#[derive(Debug)]
pub struct Task {
    pub id: Id,
    pub lane_id: Id,
    pub priority: Id,
    pub summary: String,
    pub estimate: i64,
    pub created_at: Timestamp,
    pub updated_at: Timestamp,
}

/// The mathematical value of a [`Task`].
pub struct TaskView {
    pub id: Id,
    pub lane_id: Id,
    pub priority: Id,
    pub summary: Seq<char>,
    pub estimate: i64,
    pub created_at: Timestamp,
    pub updated_at: Timestamp,
}

impl View for Task {
    type V = TaskView;

    open spec fn view(&self) -> TaskView {
        TaskView {
            id: self.id,
            lane_id: self.lane_id,
            priority: self.priority,
            summary: self.summary@,
            estimate: self.estimate,
            created_at: self.created_at,
            updated_at: self.updated_at,
        }
    }
}

impl Clone for Task {
    fn clone(&self) -> (copy: Self)
        ensures
            copy@ == self@,
    {
        Task {
            id: self.id,
            lane_id: self.lane_id,
            priority: self.priority,
            summary: self.summary.clone(),
            estimate: self.estimate,
            created_at: self.created_at,
            updated_at: self.updated_at,
        }
    }
}

/// Selects the lanes that have the name `lane_name` and the id `lane_id`.
pub open spec fn lane_matches(lane_name: Seq<char>, lane_id: Id) -> spec_fn(LaneView) -> bool {
    |l: LaneView| l.name == lane_name && l.id == lane_id
}

/// Selects the tasks that are in a lane with the name `lane_name`.
pub open spec fn in_lane(lanes: Seq<LaneView>, lane_name: Seq<char>) -> spec_fn(TaskView) -> bool {
    |t: TaskView| lanes.filter(lane_matches(lane_name, t.lane_id)).len() > 0
}

/// The keys that put tasks in descending order of priority.
pub open spec fn priority_keys(tasks: Seq<TaskView>) -> Seq<i128> {
    tasks.map_values(|t: TaskView| (-(t.priority as int)) as i128)
}

/// The tasks of a table that are in a lane with the name `lane_name`, the
/// most urgent first; tasks of equal priority in the order of the table.
pub open spec fn lane_tasks(
    tasks: Seq<TaskView>,
    lanes: Seq<LaneView>,
    lane_name: Seq<char>,
) -> Seq<TaskView> {
    let selected = tasks.filter(in_lane(lanes, lane_name));
    arranged(selected, priority_keys(selected))
}

/// The tasks in a lane with the name `lane_name`, the most urgent first;
/// tasks of equal priority in the order in which they were stored.
pub open spec fn tasks_of_lane(view: RepositoryView, lane_name: Seq<char>) -> Seq<TaskView> {
    lane_tasks(view.tasks, view.lanes, lane_name)
}

/// Whether a lane has both the name `name` and the id `lane_id`.
fn lane_is_named(lanes: &Vec<Lane>, name: &String, lane_id: Id) -> (found: bool)
    ensures
        found == (views_of(lanes@).filter(lane_matches(name@, lane_id)).len() > 0),
{
    let mut i: usize = 0;
    while i < lanes.len()
        invariant
            i <= lanes@.len(),
            forall|j: int|
                0 <= j < i ==> !(lane_matches(name@, lane_id))(#[trigger] views_of(lanes@)[j]),
        decreases lanes.len() - i,
    {
        if lanes[i].id == lane_id && lanes[i].name == *name {
            proof {
                lemma_some_selected(views_of(lanes@), lane_matches(name@, lane_id), i as int);
            }
            return true;
        }
        i = i + 1;
    }
    proof {
        lemma_none_selected(views_of(lanes@), lane_matches(name@, lane_id));
    }
    false
}

/// The tasks of a table that are in a lane with the name `lane_name`, the
/// most urgent first; tasks of equal priority in the order of the table.
pub fn list_lane(tasks: &Vec<Task>, lanes: &Vec<Lane>, lane_name: &str) -> (listed: Vec<Task>)
    ensures
        views_of(listed@) == lane_tasks(views_of(tasks@), views_of(lanes@), lane_name@),
{
    let wanted = String::from_str(lane_name);
    let ghost pred = in_lane(views_of(lanes@), lane_name@);
    let ghost views = views_of(tasks@);
    let mut selected: Vec<usize> = Vec::new();
    let mut keys: Vec<i128> = Vec::new();
    let mut i: usize = 0;
    while i < tasks.len()
        invariant
            i <= tasks@.len(),
            wanted@ == lane_name@,
            pred == in_lane(views_of(lanes@), lane_name@),
            views == views_of(tasks@),
            selected@.len() == keys@.len(),
            forall|k: int| 0 <= k < selected@.len() ==> (#[trigger] selected@[k]) < i,
            selected@.map_values(|at: usize| views[at as int]) == views.take(i as int).filter(
                pred,
            ),
            keys@ == priority_keys(views.take(i as int).filter(pred)),
        decreases tasks.len() - i,
    {
        proof {
            lemma_views_take(tasks@, i as int);
            views.take(i as int).lemma_filter_push(views[i as int], pred);
        }
        if lane_is_named(lanes, &wanted, tasks[i].lane_id) {
            selected.push(i);
            keys.push(-(tasks[i].priority as i128));
            proof {
                assert(selected@.map_values(|at: usize| views[at as int]) =~= views.take(
                    i as int + 1,
                ).filter(pred));
                assert(keys@ =~= priority_keys(views.take(i as int + 1).filter(pred)));
            }
        }
        i = i + 1;
    }
    proof {
        assert(views.take(tasks@.len() as int) =~= views);
    }
    let ghost chosen = views.filter(pred);
    let order = sort_positions(&keys);
    let mut listed: Vec<Task> = Vec::new();
    let mut k: usize = 0;
    while k < order.len()
        invariant
            k <= order@.len(),
            views == views_of(tasks@),
            order@ == stable_order(keys@),
            is_stable_order(keys@, order@),
            selected@.len() == keys@.len(),
            chosen == selected@.map_values(|at: usize| views[at as int]),
            forall|j: int| 0 <= j < selected@.len() ==> (#[trigger] selected@[j]) < tasks@.len(),
            views_of(listed@) == arranged(chosen, keys@).take(k as int),
        decreases order.len() - k,
    {
        let task = tasks[selected[order[k]]].clone();
        proof {
            lemma_views_push(listed@, task);
            assert(views_of(listed@).push(task@) =~= arranged(chosen, keys@).take(k as int + 1));
        }
        listed.push(task);
        k = k + 1;
    }
    proof {
        assert(views_of(listed@) =~= arranged(chosen, keys@));
    }
    listed
}

/// Whether `tasks` is the task table of `pre` with one task more at its end,
/// made of the given fields, under an id that no earlier task has.
pub open spec fn task_added(
    pre: RepositoryView,
    lane_id: Id,
    priority: Id,
    summary: Seq<char>,
    estimate: i64,
    tasks: Seq<TaskView>,
) -> bool {
    &&& tasks.len() == pre.tasks.len() + 1
    &&& tasks.drop_last() == pre.tasks
    &&& tasks.last().lane_id == lane_id
    &&& tasks.last().priority == priority
    &&& tasks.last().summary == summary
    &&& tasks.last().estimate == estimate
    &&& !pre.has_task(tasks.last().id)
}

/// The id behind an optional reference.
pub open spec fn id_of(id: Option<&Id>) -> Option<Id> {
    match id {
        Some(id) => Some(*id),
        None => None,
    }
}

/// The characters of an optional text.
pub open spec fn text_of(text: Option<&str>) -> Option<Seq<char>> {
    match text {
        Some(text) => Some(text@),
        None => None,
    }
}

/// The task `old` with each field that is given replaced; a field that is
/// not given keeps its value.
pub open spec fn revised(
    old: TaskView,
    lane_id: Option<Id>,
    priority: Option<Id>,
    summary: Option<Seq<char>>,
    estimate: Option<i64>,
    updated_at: Timestamp,
) -> TaskView {
    TaskView {
        id: old.id,
        lane_id: if lane_id is Some { lane_id->0 } else { old.lane_id },
        priority: if priority is Some { priority->0 } else { old.priority },
        summary: if summary is Some { summary->0 } else { old.summary },
        estimate: if estimate is Some { estimate->0 } else { old.estimate },
        created_at: old.created_at,
        updated_at,
    }
}

/// The revision of the tasks of the id `id` at the instant `now`: such a
/// task has each field that is given replaced, every other task stays as it
/// is.
pub open spec fn revision(
    id: Id,
    lane_id: Option<Id>,
    priority: Option<Id>,
    summary: Option<Seq<char>>,
    estimate: Option<i64>,
    now: Timestamp,
) -> spec_fn(TaskView) -> TaskView {
    |t: TaskView|
        if t.id == id {
            revised(t, lane_id, priority, summary, estimate, now)
        } else {
            t
        }
}

/// Whether `tasks` is the task table of `pre` with the tasks of the id `id`
/// revised, and every other task as it was. The instant of the revision is
/// the repository's to choose.
pub open spec fn tasks_revised(
    pre: RepositoryView,
    id: Id,
    lane_id: Option<Id>,
    priority: Option<Id>,
    summary: Option<Seq<char>>,
    estimate: Option<i64>,
    tasks: Seq<TaskView>,
) -> bool {
    &&& tasks.len() == pre.tasks.len()
    &&& forall|i: int|
        0 <= i < tasks.len() ==> #[trigger] tasks[i] == if pre.tasks[i].id == id {
            revised(pre.tasks[i], lane_id, priority, summary, estimate, tasks[i].updated_at)
        } else {
            pre.tasks[i]
        }
}

/// Creating tasks.
pub trait Add: Repository {
    /// Stores a new task under an id of the repository's choosing. Nothing
    /// else changes, and on failure nothing does.
    fn add_task(&mut self, lane_id: Id, priority: Id, summary: &str, estimate: i64) -> (done:
        Result<(), RepositoryError>)
        ensures
            match done {
                Ok(_) => {
                    &&& task_added(
                        old(self)@,
                        lane_id,
                        priority,
                        summary@,
                        estimate,
                        final(self)@.tasks,
                    )
                    &&& final(self)@ == (RepositoryView { tasks: final(self)@.tasks, ..old(self)@ })
                },
                Err(e) => {
                    &&& final(self)@ == old(self)@
                    &&& e == RepositoryError::StorageError
                    &&& may_fail(Self::reliable(), old(self)@.has_task(i64::MAX))
                },
            },
    ;
}

/// Reading tasks.
pub trait Fetch: Repository {
    /// Looks a task up by its id. The state is left as it was.
    fn fetch_task_by_id(&mut self, id: Id) -> (found: Result<Option<Task>, RepositoryError>)
        ensures
            final(self)@ == old(self)@,
            match found {
                Ok(task) => view_of(task) == old(self)@.task(id),
                Err(e) => e == RepositoryError::StorageError && !Self::reliable(),
            },
    ;

    /// The tasks in the lane named `lane_name`, the most urgent first. The
    /// state is left as it was.
    fn fetch_all_tasks(&mut self, lane_name: &str) -> (found: Result<Vec<Task>, RepositoryError>)
        ensures
            final(self)@ == old(self)@,
            match found {
                Ok(tasks) => views_of(tasks@) == tasks_of_lane(old(self)@, lane_name@),
                Err(e) => e == RepositoryError::StorageError && !Self::reliable(),
            },
    ;
}

/// Revising tasks.
pub trait Mod: Repository {
    /// Replaces the fields that are given on the task `id`; an unknown id is
    /// `NotFound`. Nothing else changes, and on failure nothing does.
    fn mod_task(
        &mut self,
        id: Id,
        lane_id: Option<&Id>,
        priority: Option<&Id>,
        summary: Option<&str>,
        estimate: Option<i64>,
    ) -> (done: Result<(), RepositoryError>)
        ensures
            match done {
                Ok(_) => {
                    &&& old(self)@.has_task(id)
                    &&& tasks_revised(
                        old(self)@,
                        id,
                        id_of(lane_id),
                        id_of(priority),
                        text_of(summary),
                        estimate,
                        final(self)@.tasks,
                    )
                    &&& final(self)@ == (RepositoryView { tasks: final(self)@.tasks, ..old(self)@ })
                },
                Err(e) => {
                    &&& final(self)@ == old(self)@
                    &&& match e {
                        RepositoryError::NotFound => !old(self)@.has_task(id),
                        RepositoryError::StorageError => !Self::reliable(),
                        _ => false,
                    }
                },
            },
    ;
}

/// What [`add_task`] may return, and the state it then leaves.
pub open spec fn add_task_outcome(
    reliable: bool,
    pre: RepositoryView,
    lane_name: Seq<char>,
    priority_name: Seq<char>,
    summary: Seq<char>,
    estimate: i64,
    result: Result<(), RepositoryError>,
    post: RepositoryView,
) -> bool {
    let lane = lane_named(pre.lanes, lane_name);
    let priority = priority_named(pre.priorities, priority_name);
    match result {
        Ok(_) => {
            &&& lane is Some
            &&& priority is Some
            &&& task_added(pre, lane->0.id, priority->0.id, summary, estimate, post.tasks)
            &&& post == (RepositoryView { tasks: post.tasks, ..pre })
        },
        Err(RepositoryError::NotFound) => post == pre && (lane is None || priority is None),
        Err(RepositoryError::StorageError) => {
            &&& post == pre
            &&& may_fail(reliable, lane is Some && priority is Some && pre.has_task(i64::MAX))
        },
        Err(_) => false,
    }
}

/// Creates a task in the lane and at the priority level of the given names.
///
/// Fails with `NotFound` where the lane or the priority level is unknown.
pub fn add_task<R>(
    r: &mut R,
    lane_name: &str,
    priority_name: &str,
    summary: &str,
    estimate: i64,
) -> (result: Result<(), RepositoryError>) where R: Add + lane::Fetch + priority::Fetch
    ensures
        add_task_outcome(
            R::reliable(),
            old(r)@,
            lane_name@,
            priority_name@,
            summary@,
            estimate,
            result,
            final(r)@,
        ),
{
    let lane = match r.fetch_lane_by_name(lane_name) {
        Ok(Some(lane)) => lane,
        Ok(None) => {
            return Err(RepositoryError::NotFound);
        },
        Err(e) => {
            return Err(e);
        },
    };
    let prio = match r.fetch_priority_by_name(priority_name) {
        Ok(prio) => prio,
        Err(e) => {
            return Err(e);
        },
    };
    r.add_task(lane.id, prio.id, summary, estimate)
}

/// The tasks in the lane named `lane_name`, the most urgent first; tasks of
/// equal priority in the order in which they were stored.
pub fn list_all_tasks<R>(r: &mut R, lane_name: &str) -> (found: Result<
    Vec<Task>,
    RepositoryError,
>) where R: Fetch
    ensures
        final(r)@ == old(r)@,
        match found {
            Ok(tasks) => views_of(tasks@) == tasks_of_lane(old(r)@, lane_name@),
            Err(e) => e == RepositoryError::StorageError && !R::reliable(),
        },
{
    r.fetch_all_tasks(lane_name)
}

/// Whether a revision names a lane that does not exist.
pub open spec fn names_unknown_lane(pre: RepositoryView, lane_name: Option<Seq<char>>) -> bool {
    lane_name is Some && lane_named(pre.lanes, lane_name->0) is None
}

/// Whether a revision names a priority level that does not exist.
pub open spec fn names_unknown_priority(
    pre: RepositoryView,
    priority_name: Option<Seq<char>>,
) -> bool {
    priority_name is Some && priority_named(pre.priorities, priority_name->0) is None
}

/// The id of the lane that a revision names, where it names one.
pub open spec fn named_lane_id(pre: RepositoryView, lane_name: Option<Seq<char>>) -> Option<Id> {
    if lane_name is Some && lane_named(pre.lanes, lane_name->0) is Some {
        Some(lane_named(pre.lanes, lane_name->0)->0.id)
    } else {
        None
    }
}

/// The id of the priority level that a revision names, where it names one.
pub open spec fn named_priority_id(
    pre: RepositoryView,
    priority_name: Option<Seq<char>>,
) -> Option<Id> {
    if priority_name is Some && priority_named(pre.priorities, priority_name->0) is Some {
        Some(priority_named(pre.priorities, priority_name->0)->0.id)
    } else {
        None
    }
}

/// What [`mod_task`] may return, and the state it then leaves.
///
/// A revision succeeds only where the task is stored and every name that is
/// given is known. Where it fails, nothing is revised.
pub open spec fn mod_task_outcome(
    reliable: bool,
    pre: RepositoryView,
    id: Id,
    lane_name: Option<Seq<char>>,
    priority_name: Option<Seq<char>>,
    summary: Option<Seq<char>>,
    estimate: Option<i64>,
    result: Result<(), RepositoryError>,
    post: RepositoryView,
) -> bool {
    match result {
        Ok(_) => {
            &&& pre.has_task(id)
            &&& !names_unknown_lane(pre, lane_name)
            &&& !names_unknown_priority(pre, priority_name)
            &&& tasks_revised(
                pre,
                id,
                named_lane_id(pre, lane_name),
                named_priority_id(pre, priority_name),
                summary,
                estimate,
                post.tasks,
            )
            &&& post == (RepositoryView { tasks: post.tasks, ..pre })
        },
        Err(RepositoryError::NotFound) => {
            &&& post == pre
            &&& {
                ||| !pre.has_task(id)
                ||| names_unknown_lane(pre, lane_name)
                ||| names_unknown_priority(pre, priority_name)
            }
        },
        Err(RepositoryError::StorageError) => !reliable && post == pre,
        Err(_) => false,
    }
}

/// Revises the task `id`: each field that is given is replaced, each that is
/// not keeps its value. A lane or a priority level is given by name.
///
/// Fails with `NotFound` where the task does not exist, and where a lane or
/// a priority level is named that does not exist; nothing is revised then.
pub fn mod_task<R>(
    r: &mut R,
    id: Id,
    lane_name: Option<&str>,
    priority_name: Option<&str>,
    summary: Option<&str>,
    estimate: Option<i64>,
) -> (result: Result<(), RepositoryError>) where R: Mod + lane::Fetch + priority::Fetch
    ensures
        mod_task_outcome(
            R::reliable(),
            old(r)@,
            id,
            text_of(lane_name),
            text_of(priority_name),
            text_of(summary),
            estimate,
            result,
            final(r)@,
        ),
{
    let lane: Option<Id> = match lane_name {
        Some(lane_name) => match r.fetch_lane_by_name(lane_name) {
            Ok(Some(lane)) => Some(lane.id),
            Ok(None) => {
                return Err(RepositoryError::NotFound);
            },
            Err(e) => {
                return Err(e);
            },
        },
        None => None,
    };
    let prio: Option<Id> = match priority_name {
        Some(priority_name) => match r.fetch_priority_by_name(priority_name) {
            Ok(prio) => Some(prio.id),
            Err(e) => {
                return Err(e);
            },
        },
        None => None,
    };
    r.mod_task(id, lane.as_ref(), prio.as_ref(), summary, estimate)
}

/// A revision that names a lane or a priority level that does not exist
/// fails and revises nothing: with `NotFound`, or with a storage failure on
/// an engine that is not reliable. On a reliable engine a revision succeeds
/// exactly where the task is stored and every name that is given is known.
pub proof fn lemma_unknown_name_revises_nothing(
    reliable: bool,
    pre: RepositoryView,
    id: Id,
    lane_name: Option<Seq<char>>,
    priority_name: Option<Seq<char>>,
    summary: Option<Seq<char>>,
    estimate: Option<i64>,
    result: Result<(), RepositoryError>,
    post: RepositoryView,
)
    requires
        mod_task_outcome(
            reliable,
            pre,
            id,
            lane_name,
            priority_name,
            summary,
            estimate,
            result,
            post,
        ),
    ensures
        names_unknown_lane(pre, lane_name) || names_unknown_priority(pre, priority_name)
            ==> result is Err && post == pre,
        (names_unknown_lane(pre, lane_name) || names_unknown_priority(pre, priority_name))
            && reliable ==> result == Err::<(), RepositoryError>(RepositoryError::NotFound),
        result is Err ==> post == pre,
        result is Ok ==> pre.has_task(id),
{
}

/// A task that was added is found under its id, and every other id finds
/// what it found before.
pub proof fn lemma_added_task_is_found(
    pre: RepositoryView,
    lane_id: Id,
    priority: Id,
    summary: Seq<char>,
    estimate: i64,
    tasks: Seq<TaskView>,
)
    requires
        task_added(pre, lane_id, priority, summary, estimate, tasks),
    ensures
        task_with_id(tasks, tasks.last().id) == Some(tasks.last()),
        forall|id: Id|
            id != tasks.last().id ==> #[trigger] task_with_id(tasks, id) == task_with_id(
                pre.tasks,
                id,
            ),
{
    let added = tasks.last();
    assert(tasks == pre.tasks.push(added));
    assert forall|id: Id| #[trigger] task_with_id(tasks, id) == if id == added.id {
        Some(added)
    } else {
        task_with_id(pre.tasks, id)
    } by {
        pre.tasks.lemma_filter_push(added, task_has_id(id));
    }
}

/// No two tasks share an id.
pub open spec fn task_ids_unique(tasks: Seq<TaskView>) -> bool {
    forall|i: int, j: int| 0 <= i < j < tasks.len() ==> tasks[i].id != tasks[j].id
}

/// A new task does not take the id of another: where no two tasks shared an
/// id before a task was added, none do after. A revision changes no id.
pub proof fn lemma_task_ids_stay_unique(
    pre: RepositoryView,
    lane_id: Id,
    priority: Id,
    summary: Seq<char>,
    estimate: i64,
    tasks: Seq<TaskView>,
)
    requires
        task_ids_unique(pre.tasks),
        task_added(pre, lane_id, priority, summary, estimate, tasks),
    ensures
        task_ids_unique(tasks),
{
    assert forall|i: int, j: int| 0 <= i < j < tasks.len() implies tasks[i].id != tasks[j].id by {
        assert(tasks.drop_last()[i] == tasks[i]);
        if j < pre.tasks.len() {
            assert(tasks.drop_last()[j] == tasks[j]);
        } else if tasks[i].id == tasks[j].id {
            lemma_some_selected(pre.tasks, task_has_id(tasks[j].id), i);
        }
    }
}

/// A revision keeps the ids, the number and the order of the tasks, and the
/// instant at which each was created.
pub proof fn lemma_revision_keeps_ids(
    pre: RepositoryView,
    id: Id,
    lane_id: Option<Id>,
    priority: Option<Id>,
    summary: Option<Seq<char>>,
    estimate: Option<i64>,
    tasks: Seq<TaskView>,
)
    requires
        tasks_revised(pre, id, lane_id, priority, summary, estimate, tasks),
    ensures
        tasks.len() == pre.tasks.len(),
        forall|i: int|
            0 <= i < tasks.len() ==> (#[trigger] tasks[i]).id == pre.tasks[i].id
                && tasks[i].created_at == pre.tasks[i].created_at,
        task_ids_unique(pre.tasks) ==> task_ids_unique(tasks),
{
    assert forall|i: int| 0 <= i < tasks.len() implies (#[trigger] tasks[i]).id == pre.tasks[i].id
        && tasks[i].created_at == pre.tasks[i].created_at by {}
    if task_ids_unique(pre.tasks) {
        assert forall|i: int, j: int| 0 <= i < j < tasks.len() implies tasks[i].id
            != tasks[j].id by {
            assert(tasks[i].id == pre.tasks[i].id);
            assert(tasks[j].id == pre.tasks[j].id);
        }
    }
}

/// Adding and revising tasks writes to the task table alone: both ledgers,
/// the timer and the lists of the days stay as they are, whatever is
/// returned.
pub proof fn lemma_task_changes_keep_the_rest(
    reliable: bool,
    pre: RepositoryView,
    lane_name: Seq<char>,
    priority_name: Seq<char>,
    summary: Seq<char>,
    estimate: i64,
    added: Result<(), RepositoryError>,
    after_add: RepositoryView,
    id: Id,
    new_lane: Option<Seq<char>>,
    new_priority: Option<Seq<char>>,
    new_summary: Option<Seq<char>>,
    new_estimate: Option<i64>,
    revised: Result<(), RepositoryError>,
    after_mod: RepositoryView,
)
    requires
        add_task_outcome(
            reliable,
            pre,
            lane_name,
            priority_name,
            summary,
            estimate,
            added,
            after_add,
        ),
        mod_task_outcome(
            reliable,
            pre,
            id,
            new_lane,
            new_priority,
            new_summary,
            new_estimate,
            revised,
            after_mod,
        ),
    ensures
        after_add == (RepositoryView { tasks: after_add.tasks, ..pre }),
        after_mod == (RepositoryView { tasks: after_mod.tasks, ..pre }),
        added is Err ==> after_add == pre,
        revised is Err ==> after_mod == pre,
{
}

} // verus!
