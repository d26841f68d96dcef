//! The laws the resolver obeys, stated over the same spec functions its
//! contracts use and proved once and for all.

use vstd::prelude::*;

use crate::query::{Condition, Filter, TaskId};
use crate::resolve::{distinct_uuids, resolution_ok};
use crate::store::StoreV;
use crate::task::TaskV;

verus! {

/// Deduplication: an output that a finished resolution may return holds any
/// task at exactly one position, however many identifiers of the query named
/// it — there is an entry equal to the task, and every entry carrying the
/// task's identifier is that one entry.
pub proof fn lemma_task_appears_once(s: StoreV, f: Filter, out: Seq<TaskV>, t: TaskV)
    requires
        resolution_ok(s, f, out),
        out.contains(t),
    ensures
        exists|i: int|
            0 <= i < out.len() && out[i] == t && (forall|j: int|
                0 <= j < out.len() && (#[trigger] out[j]).uuid == t.uuid ==> j == i),
{
    let i = choose|i: int| 0 <= i < out.len() && out[i] == t;
    assert(0 <= i < out.len() && out[i] == t && (forall|j: int|
        0 <= j < out.len() && (#[trigger] out[j]).uuid == t.uuid ==> j == i)) by {
        assert forall|j: int| 0 <= j < out.len() && (#[trigger] out[j]).uuid == t.uuid implies j
            == i by {
            if j < i {
                assert(out[j].uuid != out[i].uuid);
            } else if i < j {
                assert(out[i].uuid != out[j].uuid);
            }
        }
    }
}

/// Universe coverage: with no conditions, a resolution over every task
/// returns each task of the store, and one over the pending tasks returns
/// each task of the working set; deduplication holds either way.
pub proof fn lemma_universe_coverage(s: StoreV, f: Filter, out: Seq<TaskV>)
    requires
        resolution_ok(s, f, out),
        f.conditions@.len() == 0,
    ensures
        f.universe is AllTasks ==> forall|k: int|
            0 <= k < s.tasks.len() ==> out.contains(#[trigger] s.tasks[k]),
        f.universe is PendingTasks ==> forall|k: int|
            0 <= k < s.tasks.len() && s.in_working_set(#[trigger] s.tasks[k]) ==> out.contains(
                s.tasks[k],
            ),
        f.universe is PendingTasks ==> forall|i: int|
            0 <= i < out.len() ==> s.in_working_set(#[trigger] out[i]),
        distinct_uuids(out),
{
}

/// Conjunction of required tags: a filter whose conditions require the tags
/// `a` and `b` accepts exactly the tasks carrying both.
pub proof fn lemma_require_conjunction(f: Filter, a: Vec<u8>, b: Vec<u8>, t: TaskV)
    requires
        f.conditions@ == seq![Condition::HasTag(a), Condition::HasTag(b)],
    ensures
        f.accepts(t) <==> (t.has_tag(a@) && t.has_tag(b@)),
{
    assert(f.conditions@[0] == Condition::HasTag(a));
    assert(f.conditions@[1] == Condition::HasTag(b));
    if t.has_tag(a@) && t.has_tag(b@) {
        assert forall|i: int| 0 <= i < f.conditions@.len() implies (
        #[trigger] f.conditions@[i]).accepts(t) by {
            if i == 0 {
            } else {
                assert(i == 1);
            }
        }
    }
}

/// A forbidden tag: a filter whose one condition forbids the tag `b` accepts
/// exactly the tasks not carrying it.
pub proof fn lemma_forbid(f: Filter, b: Vec<u8>, t: TaskV)
    requires
        f.conditions@ == seq![Condition::NoTag(b)],
    ensures
        f.accepts(t) <==> !t.has_tag(b@),
{
    assert(f.conditions@[0] == Condition::NoTag(b));
}

/// Partial-identifier disambiguation: a prefix that matches the identifier
/// of exactly one task of the store selects that task and no other. A prefix
/// matching several tasks selects each of them — every match is kept, a
/// deterministic reading of an ambiguous reference — and one matching none
/// selects nothing; both are this lemma's premise read without the
/// uniqueness.
pub proof fn lemma_partial_id_disambiguation(s: StoreV, p: Vec<u8>, k: int)
    requires
        s.wf(),
        0 <= k < s.tasks.len(),
        p@.is_prefix_of(s.tasks[k].uuid),
        forall|j: int|
            0 <= j < s.tasks.len() && j != k ==> !p@.is_prefix_of((#[trigger] s.tasks[j]).uuid),
    ensures
        forall|j: int|
            0 <= j < s.tasks.len() ==> (TaskId::PartialUuid(p).selects(s, #[trigger] s.tasks[j])
                <==> j == k),
{
}

/// A prefix matching no task of the store selects no task of the store.
pub proof fn lemma_partial_id_no_match(s: StoreV, p: Vec<u8>)
    requires
        forall|j: int|
            0 <= j < s.tasks.len() ==> !p@.is_prefix_of((#[trigger] s.tasks[j]).uuid),
    ensures
        forall|t: TaskV|
            s.contains_task(t) ==> !#[trigger] TaskId::PartialUuid(p).selects(s, t),
{
    assert forall|t: TaskV| s.contains_task(t) implies !#[trigger] TaskId::PartialUuid(p).selects(
        s,
        t,
    ) by {
        let j = choose|j: int| 0 <= j < s.tasks.len() && s.tasks[j] == t;
        assert(!p@.is_prefix_of(s.tasks[j].uuid));
    }
}

} // verus!
