//! The ledger of completed work sessions.

use crate::common::{Id, RepositoryError, Timestamp};
use crate::order::{arrange, arranged};
use crate::repository::{may_fail, Repository, RepositoryView};
use vstd::prelude::*;

verus! {

/// One completed work session. Records are appended and never changed.
#[derive(Debug, Clone, Copy, PartialEq, Eq, Structural)]
pub struct Pomodoro {
    pub id: Id,
    pub task_id: Id,
    pub started_at: Timestamp,
    pub finished_at: Timestamp,
}

/// Whether `ledger` is the ledger of `pre` with one record more at its end,
/// for a session on `task_id` begun at `started_at`, under an id that no
/// earlier record has.
pub open spec fn recorded(
    pre: RepositoryView,
    task_id: Id,
    started_at: Timestamp,
    ledger: Seq<Pomodoro>,
) -> bool {
    &&& ledger.len() == pre.pomodoros.len() + 1
    &&& ledger.drop_last() == pre.pomodoros
    &&& ledger.last().task_id == task_id
    &&& ledger.last().started_at == started_at
    &&& !pre.has_pomodoro(ledger.last().id)
}

/// Appending to the ledger.
pub trait Complete: Repository {
    /// Appends one completed work session on `task_id` that began at
    /// `started_at`. Nothing else changes, and on failure nothing does.
    fn complete_pomodoro(&mut self, task_id: Id, started_at: Timestamp) -> (done: Result<
        (),
        RepositoryError,
    >)
        ensures
            match done {
                Ok(_) => {
                    &&& recorded(old(self)@, task_id, started_at, final(self)@.pomodoros)
                    &&& final(self)@ == (RepositoryView {
                        pomodoros: final(self)@.pomodoros,
                        ..old(self)@
                    })
                },
                Err(e) => {
                    &&& final(self)@ == old(self)@
                    &&& e == RepositoryError::StorageError
                    &&& may_fail(Self::reliable(), old(self)@.has_pomodoro(i64::MAX))
                },
            },
    ;
}

/// Selects the completed work sessions on the task `task_id`.
pub open spec fn on_task(task_id: Id) -> spec_fn(Pomodoro) -> bool {
    |p: Pomodoro| p.task_id == task_id
}

/// The keys that put completed work sessions in the order of their starts.
pub open spec fn start_keys(sessions: Seq<Pomodoro>) -> Seq<i128> {
    sessions.map_values(|p: Pomodoro| p.started_at as i128)
}

/// The completed work sessions on the task `task_id`, the earliest start
/// first; sessions with the same start in the order in which they were
/// recorded.
pub open spec fn sessions_of_task(ledger: Seq<Pomodoro>, task_id: Id) -> Seq<Pomodoro> {
    let selected = ledger.filter(on_task(task_id));
    arranged(selected, start_keys(selected))
}

/// The completed work sessions of a ledger on the task `task_id`, the
/// earliest start first; sessions with the same start in the order of the
/// ledger.
pub fn sessions_on(ledger: &Vec<Pomodoro>, task_id: Id) -> (sessions: Vec<Pomodoro>)
    ensures
        sessions@ == sessions_of_task(ledger@, task_id),
{
    let ghost pred = on_task(task_id);
    let mut selected: Vec<Pomodoro> = Vec::new();
    let mut keys: Vec<i128> = Vec::new();
    let mut i: usize = 0;
    while i < ledger.len()
        invariant
            i <= ledger@.len(),
            pred == on_task(task_id),
            selected@ == ledger@.take(i as int).filter(pred),
            keys@ == start_keys(selected@),
        decreases ledger.len() - i,
    {
        let session = ledger[i];
        proof {
            assert(ledger@.take(i as int + 1) == ledger@.take(i as int).push(session));
            ledger@.take(i as int).lemma_filter_push(session, pred);
        }
        if session.task_id == task_id {
            selected.push(session);
            keys.push(session.started_at as i128);
            proof {
                assert(keys@ =~= start_keys(selected@));
            }
        }
        i = i + 1;
    }
    proof {
        assert(ledger@.take(i as int) == ledger@);
    }
    arrange(&selected, &keys)
}

/// Reading the ledger.
pub trait Fetch: Repository {
    /// The completed work sessions on the task `task_id`, the earliest start
    /// first. The state is left as it was.
    fn fetch_by_task_id(&mut self, task_id: Id) -> (found: Result<Vec<Pomodoro>, RepositoryError>)
        ensures
            final(self)@ == old(self)@,
            match found {
                Ok(sessions) => sessions@ == sessions_of_task(old(self)@.pomodoros, task_id),
                Err(e) => e == RepositoryError::StorageError && !Self::reliable(),
            },
    ;
}

} // verus!
