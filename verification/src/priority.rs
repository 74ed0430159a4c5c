//! Priority levels of tasks.

use crate::common::{Id, RepositoryError, Timestamp};
use crate::repository::{first_of, views_of, Repository};
use vstd::prelude::*;

verus! {

/// A named priority level. A larger id means more urgent.
#[derive(Debug)]
pub struct Priority {
    pub id: Id,
    pub name: String,
    pub created_at: Timestamp,
    pub updated_at: Timestamp,
}

/// The mathematical value of a [`Priority`].
pub struct PriorityView {
    pub id: Id,
    pub name: Seq<char>,
    pub created_at: Timestamp,
    pub updated_at: Timestamp,
}

impl View for Priority {
    type V = PriorityView;

    open spec fn view(&self) -> PriorityView {
        PriorityView {
            id: self.id,
            name: self.name@,
            created_at: self.created_at,
            updated_at: self.updated_at,
        }
    }
}

impl Clone for Priority {
    fn clone(&self) -> (copy: Self)
        ensures
            copy@ == self@,
    {
        Priority {
            id: self.id,
            name: self.name.clone(),
            created_at: self.created_at,
            updated_at: self.updated_at,
        }
    }
}

/// Selects the priority levels with the name `name`.
pub open spec fn priority_has_name(name: Seq<char>) -> spec_fn(PriorityView) -> bool {
    |p: PriorityView| p.name == name
}

/// The first priority level with the name `name`, if there is one.
pub open spec fn priority_named(priorities: Seq<PriorityView>, name: Seq<char>) -> Option<
    PriorityView,
> {
    first_of(priorities.filter(priority_has_name(name)))
}

/// Reading priority levels.
pub trait Fetch: Repository {
    /// Looks a priority level up by its name; an unknown name is `NotFound`.
    /// The state is left as it was.
    fn fetch_priority_by_name(&mut self, name: &str) -> (found: Result<Priority, RepositoryError>)
        ensures
            final(self)@ == old(self)@,
            match found {
                Ok(priority) => priority_named(old(self)@.priorities, name@) == Some(priority@),
                Err(RepositoryError::NotFound) => priority_named(old(self)@.priorities, name@)
                    is None,
                Err(RepositoryError::StorageError) => !Self::reliable(),
                Err(_) => false,
            },
    ;

    /// All priority levels, in the order in which they were stored. The
    /// state is left as it was.
    fn fetch_all_priority(&mut self) -> (found: Result<Vec<Priority>, RepositoryError>)
        ensures
            final(self)@ == old(self)@,
            match found {
                Ok(priorities) => views_of(priorities@) == old(self)@.priorities,
                Err(e) => e == RepositoryError::StorageError && !Self::reliable(),
            },
    ;
}

/// All priority levels, in the order in which they were stored.
pub fn fetch_all_priority<R>(r: &mut R) -> (found: Result<Vec<Priority>, RepositoryError>) where
    R: Fetch,

    ensures
        final(r)@ == old(r)@,
        match found {
            Ok(priorities) => views_of(priorities@) == old(r)@.priorities,
            Err(e) => e == RepositoryError::StorageError && !R::reliable(),
        },
{
    r.fetch_all_priority()
}

} // verus!
