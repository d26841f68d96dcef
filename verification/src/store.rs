//! The task store, as this library models it: the tasks the store holds, each
//! identifier unique, and the working set — an ordered, sparse view whose
//! slots name currently-actionable tasks by identifier. Whichever slot
//! convention the surrounding store keeps (slot zero as an always-empty
//! sentinel, say) is preserved: slots are stored exactly as given.

use vstd::prelude::*;

use crate::bytes::{bytes_eq, copy_bytes};
use crate::task::{Task, TaskV};

verus! {

/// A store of tasks together with its working set.
pub struct TaskStore {
    tasks: Vec<Task>,
    working_set: Vec<Option<Vec<u8>>>,
}

/// The mathematical value of a [`TaskStore`].
#[verifier::ext_equal]
pub struct StoreV {
    /// The tasks the store holds, one entry per task.
    pub tasks: Seq<TaskV>,
    /// The working set: each slot either empty or naming a task by identifier.
    pub working_set: Seq<Option<Seq<u8>>>,
}

impl View for TaskStore {
    type V = StoreV;

    closed spec fn view(&self) -> StoreV {
        StoreV {
            tasks: Seq::new(self.tasks@.len(), |i: int| self.tasks@[i]@),
            working_set: Seq::new(
                self.working_set@.len(),
                |k: int|
                    match self.working_set@[k] {
                        Some(u) => Some(u@),
                        None => None,
                    },
            ),
        }
    }
}

impl StoreV {
    /// Some task of the store has the identifier `u`.
    pub open spec fn holds_uuid(self, u: Seq<u8>) -> bool {
        exists|i: int| 0 <= i < self.tasks.len() && (#[trigger] self.tasks[i]).uuid == u
    }

    /// `t` is one of the store's tasks.
    pub open spec fn contains_task(self, t: TaskV) -> bool {
        self.tasks.contains(t)
    }

    /// Some working-set slot names the identifier `u`.
    pub open spec fn uuid_in_working_set(self, u: Seq<u8>) -> bool {
        exists|k: int|
            0 <= k < self.working_set.len() && (#[trigger] self.working_set[k]) is Some
                && self.working_set[k]->0 == u
    }

    /// `t` is named by some working-set slot.
    pub open spec fn in_working_set(self, t: TaskV) -> bool {
        self.uuid_in_working_set(t.uuid)
    }

    /// Well-formedness: task identifiers are unique; every occupied slot names
    /// a task the store holds; no two slots name the same task.
    pub open spec fn wf(self) -> bool {
        &&& forall|i: int, j: int|
            0 <= i < j < self.tasks.len() ==> (#[trigger] self.tasks[i]).uuid != (
            #[trigger] self.tasks[j]).uuid
        &&& forall|k: int|
            0 <= k < self.working_set.len() && (#[trigger] self.working_set[k]) is Some
                ==> self.holds_uuid(self.working_set[k]->0)
        &&& forall|k: int, l: int|
            0 <= k < l < self.working_set.len() && (#[trigger] self.working_set[k]) is Some && (
            #[trigger] self.working_set[l]) is Some ==> self.working_set[k]->0
                != self.working_set[l]->0
    }
}

/// In a well-formed store, a task identifier determines the task: two tasks
/// of the store with the same identifier are the same task.
pub proof fn lemma_uuid_unique(s: StoreV, a: TaskV, b: TaskV)
    requires
        s.wf(),
        s.contains_task(a),
        s.contains_task(b),
        a.uuid == b.uuid,
    ensures
        a == b,
{
    let i = choose|i: int| 0 <= i < s.tasks.len() && s.tasks[i] == a;
    let j = choose|j: int| 0 <= j < s.tasks.len() && s.tasks[j] == b;
    if i != j {
        assert(s.tasks[i].uuid != s.tasks[j].uuid);
    }
}

impl TaskStore {
    /// An empty store: no tasks, no working-set slots.
    pub fn new() -> (s: TaskStore)
        ensures
            s@.tasks.len() == 0,
            s@.working_set.len() == 0,
            s@.wf(),
    {
        TaskStore { tasks: Vec::new(), working_set: Vec::new() }
    }

    /// How many tasks the store holds.
    pub fn task_count(&self) -> (n: usize)
        ensures
            n == self@.tasks.len(),
    {
        self.tasks.len()
    }

    /// The task at position `k` of the store's enumeration.
    pub fn task_at(&self, k: usize) -> (t: &Task)
        requires
            k < self@.tasks.len(),
        ensures
            t@ == self@.tasks[k as int],
    {
        &self.tasks[k]
    }

    /// How many slots the working set has.
    pub fn working_set_len(&self) -> (n: usize)
        ensures
            n == self@.working_set.len(),
    {
        self.working_set.len()
    }

    /// The identifier the working-set slot `k` names, if the slot is occupied.
    pub fn slot_at(&self, k: usize) -> (r: Option<&Vec<u8>>)
        requires
            k < self@.working_set.len(),
        ensures
            r is Some <==> self@.working_set[k as int] is Some,
            r matches Some(u) ==> self@.working_set[k as int]->0 == u@,
    {
        match &self.working_set[k] {
            Some(u) => Some(u),
            None => None,
        }
    }

    /// The position of the task with identifier `uuid`, if the store holds one.
    fn find_by_uuid(&self, uuid: &Vec<u8>) -> (r: Option<usize>)
        ensures
            r is Some <==> self@.holds_uuid(uuid@),
            r matches Some(k) ==> k < self@.tasks.len() && self@.tasks[k as int].uuid == uuid@,
    {
        let mut k: usize = 0;
        while k < self.tasks.len()
            invariant
                k <= self@.tasks.len(),
                self@.tasks.len() == self.tasks@.len(),
                forall|j: int| 0 <= j < k ==> (#[trigger] self@.tasks[j]).uuid != uuid@,
            decreases self@.tasks.len() - k,
        {
            if bytes_eq(&self.tasks[k].uuid, uuid) {
                proof {
                    assert(self@.tasks[k as int].uuid == uuid@);
                }
                return Some(k);
            }
            k += 1;
        }
        None
    }

    /// A copy of the task with identifier `uuid`, if the store holds one.
    pub fn get_task(&self, uuid: &Vec<u8>) -> (r: Option<Task>)
        ensures
            r is Some <==> self@.holds_uuid(uuid@),
            r matches Some(t) ==> self@.contains_task(t@) && t@.uuid == uuid@,
    {
        match self.find_by_uuid(uuid) {
            Some(k) => {
                let t = self.tasks[k].duplicate();
                proof {
                    assert(self@.tasks[k as int] == t@);
                }
                Some(t)
            },
            None => None,
        }
    }

    /// The working-set slot that names `uuid`, if any does.
    pub fn get_working_set_index(&self, uuid: &Vec<u8>) -> (r: Option<usize>)
        ensures
            r is Some <==> self@.uuid_in_working_set(uuid@),
            r matches Some(k) ==> k < self@.working_set.len() && self@.working_set[k as int] is Some
                && self@.working_set[k as int]->0 == uuid@,
    {
        let mut k: usize = 0;
        while k < self.working_set.len()
            invariant
                k <= self@.working_set.len(),
                self@.working_set.len() == self.working_set@.len(),
                forall|j: int|
                    0 <= j < k ==> !((#[trigger] self@.working_set[j]) is Some
                        && self@.working_set[j]->0 == uuid@),
            decreases self@.working_set.len() - k,
        {
            let hit = match &self.working_set[k] {
                Some(u) => bytes_eq(u, uuid),
                None => false,
            };
            if hit {
                return Some(k);
            }
            k += 1;
        }
        None
    }

    /// A copy of the task the working-set slot `index` names; `None` for an
    /// empty or out-of-range slot.
    pub fn get_working_set_task(&self, index: usize) -> (r: Option<Task>)
        requires
            self@.wf(),
        ensures
            r is Some <==> (index < self@.working_set.len() && self@.working_set[index as int]
                is Some),
            r matches Some(t) ==> self@.contains_task(t@) && self@.working_set[index as int]->0
                == t@.uuid,
    {
        if index >= self.working_set.len() {
            return None;
        }
        match self.slot_at(index) {
            Some(u) => {
                let r = self.get_task(u);
                proof {
                    assert(self@.holds_uuid(u@));
                }
                assert(r is Some);
                r
            },
            None => None,
        }
    }

    /// Adds `t` to the store. Rejected, leaving the store unchanged, when a
    /// task with the same identifier is already held.
    pub fn add_task(&mut self, t: Task) -> (added: bool)
        requires
            old(self)@.wf(),
        ensures
            final(self)@.wf(),
            final(self)@.working_set == old(self)@.working_set,
            added <==> !old(self)@.holds_uuid(t@.uuid),
            added ==> final(self)@.tasks == old(self)@.tasks.push(t@),
            !added ==> final(self)@ == old(self)@,
    {
        match self.find_by_uuid(&t.uuid) {
            Some(_) => false,
            None => {
                let ghost pre = self@;
                let ghost tv = t@;
                self.tasks.push(t);
                proof {
                    assert(self@.tasks =~= pre.tasks.push(tv));
                    assert(self@.working_set =~= pre.working_set);
                    assert forall|k: int|
                        0 <= k < self@.working_set.len() && (#[trigger] self@.working_set[k])
                            is Some implies self@.holds_uuid(self@.working_set[k]->0) by {
                        assert(pre.holds_uuid(pre.working_set[k]->0));
                        let i = choose|i: int|
                            0 <= i < pre.tasks.len() && (#[trigger] pre.tasks[i]).uuid
                                == pre.working_set[k]->0;
                        assert(self@.tasks[i].uuid == self@.working_set[k]->0);
                    }
                }
                true
            },
        }
    }

    /// Appends a working-set slot. An occupied slot is rejected, leaving the
    /// store unchanged, unless it names a task the store holds that no other
    /// slot names yet; an empty slot is always appended.
    pub fn push_working_slot(&mut self, slot: Option<Vec<u8>>) -> (added: bool)
        requires
            old(self)@.wf(),
        ensures
            final(self)@.wf(),
            final(self)@.tasks == old(self)@.tasks,
            added <==> (match slot {
                Some(u) => old(self)@.holds_uuid(u@) && !old(self)@.uuid_in_working_set(u@),
                None => true,
            }),
            added ==> final(self)@.working_set == old(self)@.working_set.push(
                match slot {
                    Some(u) => Some(u@),
                    None => None,
                },
            ),
            !added ==> final(self)@ == old(self)@,
    {
        let ghost pre = self@;
        match slot {
            Some(u) => {
                let present = match self.find_by_uuid(&u) {
                    Some(_) => true,
                    None => false,
                };
                let taken = match self.get_working_set_index(&u) {
                    Some(_) => true,
                    None => false,
                };
                if present && !taken {
                    let ghost uv = u@;
                    self.working_set.push(Some(u));
                    proof {
                        assert(self@.tasks =~= pre.tasks);
                        assert(self@.working_set =~= pre.working_set.push(Some(uv)));
                    }
                    true
                } else {
                    false
                }
            },
            None => {
                self.working_set.push(None);
                proof {
                    assert(self@.tasks =~= pre.tasks);
                    assert(self@.working_set =~= pre.working_set.push(None));
                }
                true
            },
        }
    }
}

} // verus!
