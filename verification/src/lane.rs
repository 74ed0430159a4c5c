//! Lanes: the columns a task moves through.

use crate::common::{Id, RepositoryError, Timestamp};
use crate::repository::{first_of, view_of, views_of, Repository};
use vstd::prelude::*;

verus! {

/// Lane of the task list.
#[derive(Debug)]
pub struct Lane {
    pub id: Id,
    pub name: String,
    pub created_at: Timestamp,
    pub updated_at: Timestamp,
}

/// The mathematical value of a [`Lane`].
pub struct LaneView {
    pub id: Id,
    pub name: Seq<char>,
    pub created_at: Timestamp,
    pub updated_at: Timestamp,
}

impl View for Lane {
    type V = LaneView;

    open spec fn view(&self) -> LaneView {
        LaneView {
            id: self.id,
            name: self.name@,
            created_at: self.created_at,
            updated_at: self.updated_at,
        }
    }
}

impl Clone for Lane {
    fn clone(&self) -> (copy: Self)
        ensures
            copy@ == self@,
    {
        Lane {
            id: self.id,
            name: self.name.clone(),
            created_at: self.created_at,
            updated_at: self.updated_at,
        }
    }
}

/// Selects the lanes with the name `name`.
pub open spec fn lane_has_name(name: Seq<char>) -> spec_fn(LaneView) -> bool {
    |l: LaneView| l.name == name
}

/// The first lane with the name `name`, if there is one.
pub open spec fn lane_named(lanes: Seq<LaneView>, name: Seq<char>) -> Option<LaneView> {
    first_of(lanes.filter(lane_has_name(name)))
}

/// A lane that is found under a name has that name.
pub proof fn lemma_lane_named(lanes: Seq<LaneView>, name: Seq<char>)
    ensures
        lane_named(lanes, name) is Some ==> lane_named(lanes, name)->0.name == name,
{
    if lane_named(lanes, name) is Some {
        lanes.lemma_filter_pred(lane_has_name(name), 0);
    }
}

/// Reading lanes.
pub trait Fetch: Repository {
    /// Looks a lane up by its name. The state is left as it was.
    fn fetch_lane_by_name(&mut self, name: &str) -> (found: Result<Option<Lane>, RepositoryError>)
        ensures
            final(self)@ == old(self)@,
            match found {
                Ok(lane) => view_of(lane) == lane_named(old(self)@.lanes, name@),
                Err(e) => e == RepositoryError::StorageError && !Self::reliable(),
            },
    ;

    /// All lanes, in the order in which they were stored. The state is left
    /// as it was.
    fn fetch_all_lanes(&mut self) -> (found: Result<Vec<Lane>, RepositoryError>)
        ensures
            final(self)@ == old(self)@,
            match found {
                Ok(lanes) => views_of(lanes@) == old(self)@.lanes,
                Err(e) => e == RepositoryError::StorageError && !Self::reliable(),
            },
    ;
}

/// All lanes, in the order in which they were stored.
pub fn fetch_all_lanes<R>(r: &mut R) -> (found: Result<Vec<Lane>, RepositoryError>) where R: Fetch
    ensures
        final(r)@ == old(r)@,
        match found {
            Ok(lanes) => views_of(lanes@) == old(r)@.lanes,
            Err(e) => e == RepositoryError::StorageError && !R::reliable(),
        },
{
    r.fetch_all_lanes()
}

} // verus!
