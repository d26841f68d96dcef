//! The query model: pure, immutable data describing which tasks a query
//! denotes. A [`Filter`] pairs a [`Universe`] — the candidate-task space —
//! with a conjunction of [`Condition`]s on tag membership.

use vstd::prelude::*;

use crate::store::StoreV;
use crate::task::TaskV;

verus! {

/// A reference to a task, as a user wrote it.
pub enum TaskId {
    /// An exact, unambiguous task identifier, in textual form.
    Uuid(Vec<u8>),
    /// A prefix of a task identifier's textual form; ambiguous until matched
    /// against the store.
    PartialUuid(Vec<u8>),
    /// An index into the store's working set.
    WorkingSetId(usize),
}

/// The candidate-task space a query ranges over.
pub enum Universe {
    /// The tasks the given identifiers name.
    IdList(Vec<TaskId>),
    /// Every task the store holds, regardless of status.
    AllTasks,
    /// The tasks currently in the working set.
    PendingTasks,
}

/// One tag condition: the task must carry, or must not carry, the named tag.
pub enum Condition {
    /// The task must carry the tag.
    HasTag(Vec<u8>),
    /// The task must not carry the tag.
    NoTag(Vec<u8>),
}

/// Which tasks a query denotes: a universe of candidates, narrowed by a
/// conjunction of tag conditions. An empty condition list admits every
/// candidate.
pub struct Filter {
    pub universe: Universe,
    pub conditions: Vec<Condition>,
}

impl TaskId {
    /// Whether this identifier names the task `t` of the store `s`: an exact
    /// identifier by equality, a partial identifier by textual prefix, and a
    /// working-set index by the slot it points at.
    pub open spec fn selects(self, s: StoreV, t: TaskV) -> bool {
        match self {
            TaskId::Uuid(u) => t.uuid == u@,
            TaskId::PartialUuid(p) => p@.is_prefix_of(t.uuid),
            TaskId::WorkingSetId(n) => n < s.working_set.len() && s.working_set[n as int] is Some
                && s.working_set[n as int]->0 == t.uuid,
        }
    }
}

/// Whether some identifier of `ids` names the task `t` of the store `s`.
pub open spec fn some_id_selects(ids: Seq<TaskId>, s: StoreV, t: TaskV) -> bool {
    exists|i: int| 0 <= i < ids.len() && (#[trigger] ids[i]).selects(s, t)
}

impl Universe {
    /// Whether the task `t` of the store `s` lies in this universe.
    pub open spec fn admits(self, s: StoreV, t: TaskV) -> bool {
        match self {
            Universe::IdList(ids) => some_id_selects(ids@, s, t),
            Universe::AllTasks => true,
            Universe::PendingTasks => s.in_working_set(t),
        }
    }
}

impl Condition {
    /// The tag name the condition speaks of.
    pub open spec fn tag(self) -> Seq<u8> {
        match self {
            Condition::HasTag(t) => t@,
            Condition::NoTag(t) => t@,
        }
    }

    /// Whether the task `t` meets the condition.
    pub open spec fn accepts(self, t: TaskV) -> bool {
        match self {
            Condition::HasTag(g) => t.has_tag(g@),
            Condition::NoTag(g) => !t.has_tag(g@),
        }
    }
}

impl Filter {
    /// Whether the task `t` meets every condition of the filter.
    pub open spec fn accepts(self, t: TaskV) -> bool {
        forall|i: int| 0 <= i < self.conditions@.len() ==> (#[trigger] self.conditions@[i]).accepts(t)
    }

    /// Whether every condition names a well-formed tag.
    pub open spec fn conditions_valid(self) -> bool {
        forall|i: int|
            0 <= i < self.conditions@.len() ==> crate::tag::valid_tag(
                (#[trigger] self.conditions@[i]).tag(),
            )
    }
}

impl Default for Universe {
    /// The default universe: every task.
    fn default() -> (r: Universe)
        ensures
            r is AllTasks,
    {
        Universe::AllTasks
    }
}

impl Default for Filter {
    /// The default filter: every task, no conditions.
    fn default() -> (r: Filter)
        ensures
            r.universe is AllTasks,
            r.conditions@.len() == 0,
    {
        Filter { universe: Universe::AllTasks, conditions: Vec::new() }
    }
}

} // verus!
