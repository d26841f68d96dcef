//! The resolver: given a [`Filter`] and a [`TaskStore`], it determines
//! exactly which tasks the filter denotes and returns each matching task
//! once. The universe's shape picks one of four enumeration strategies; every
//! candidate is then tested against the filter's tag conditions.

use vstd::prelude::*;

use crate::bytes::{byte_views, bytes_eq, contains_bytes, copy_bytes, is_prefix};
use crate::query::{some_id_selects, Condition, Filter, TaskId, Universe};
use crate::store::{lemma_uuid_unique, StoreV, TaskStore};
use crate::tag::{valid_tag, validate_tag};
use crate::task::{lemma_views_of_push, views_of, Task, TaskV};

verus! {

/// The errors a resolution can end with.
#[derive(Debug)]
pub enum FilterError {
    /// A condition named a tag that is not well formed; the malformed name is
    /// carried along.
    InvalidTag(Vec<u8>),
}

/// No two entries of `out` have the same identifier.
pub open spec fn distinct_uuids(out: Seq<TaskV>) -> bool {
    forall|i: int, j: int| 0 <= i < j < out.len() ==> (#[trigger] out[i]).uuid != (
    #[trigger] out[j]).uuid
}

/// What a finished resolution returns: every entry is a task of the store
/// that lies in the filter's universe and meets its conditions; every such
/// task is an entry; and no task appears twice.
pub open spec fn resolution_ok(s: StoreV, f: Filter, out: Seq<TaskV>) -> bool {
    &&& distinct_uuids(out)
    &&& forall|i: int|
        0 <= i < out.len() ==> s.contains_task(#[trigger] out[i]) && f.universe.admits(s, out[i])
            && f.accepts(out[i])
    &&& forall|k: int|
        0 <= k < s.tasks.len() && f.universe.admits(s, #[trigger] s.tasks[k]) && f.accepts(
            s.tasks[k],
        ) ==> out.contains(s.tasks[k])
}

/// Whether the task meets every condition of the filter, testing the
/// conditions in order and stopping at the first that fails. Tag validity
/// plays no part here: names are compared byte for byte, and ill-formed names
/// are rejected before any task is examined (see [`filtered_tasks`]).
pub fn match_task(filter: &Filter, task: &Task) -> (r: bool)
    ensures
        r == filter.accepts(task@),
{
    let mut i: usize = 0;
    while i < filter.conditions.len()
        invariant
            i <= filter.conditions@.len(),
            forall|j: int| 0 <= j < i ==> (#[trigger] filter.conditions@[j]).accepts(task@),
        decreases filter.conditions@.len() - i,
    {
        let ok = match &filter.conditions[i] {
            Condition::HasTag(tag) => task.has_tag(tag),
            Condition::NoTag(tag) => !task.has_tag(tag),
        };
        if !ok {
            assert(!(#[trigger] filter.conditions@[i as int]).accepts(task@));
            return false;
        }
        i += 1;
    }
    true
}

/// Whether `id` names the task `t` of the store. A working-set index is
/// answered by asking the store which slot, if any, currently holds the
/// task's identifier.
fn id_selects(store: &TaskStore, id: &TaskId, t: &Task) -> (r: bool)
    requires
        store@.wf(),
    ensures
        r == id.selects(store@, t@),
{
    match id {
        TaskId::Uuid(u) => bytes_eq(u, &t.uuid),
        TaskId::PartialUuid(p) => is_prefix(p, &t.uuid),
        TaskId::WorkingSetId(n) => {
            match store.get_working_set_index(&t.uuid) {
                Some(m) => m == *n,
                None => false,
            }
        },
    }
}

/// Full-scan strategy: enumerate every task the store holds once, keeping
/// those the filter's conditions accept. Enumeration order makes each task
/// appear at most once.
fn full_scan(store: &TaskStore, filter: &Filter) -> (res: Vec<Task>)
    requires
        store@.wf(),
    ensures
        distinct_uuids(views_of(res@)),
        forall|i: int|
            0 <= i < res@.len() ==> store@.contains_task(#[trigger] views_of(res@)[i])
                && filter.accepts(views_of(res@)[i]),
        forall|k: int|
            0 <= k < store@.tasks.len() && filter.accepts(#[trigger] store@.tasks[k])
                ==> views_of(res@).contains(store@.tasks[k]),
{
    let n = store.task_count();
    let mut res: Vec<Task> = Vec::new();
    let mut k: usize = 0;
    while k < n
        invariant
            store@.wf(),
            n == store@.tasks.len(),
            k <= n,
            forall|i: int|
                0 <= i < res@.len() ==> exists|k2: int|
                    0 <= k2 < k && #[trigger] views_of(res@)[i] == store@.tasks[k2],
            forall|i: int| 0 <= i < res@.len() ==> filter.accepts(#[trigger] views_of(res@)[i]),
            distinct_uuids(views_of(res@)),
            forall|k2: int|
                0 <= k2 < k && filter.accepts(#[trigger] store@.tasks[k2]) ==> views_of(
                    res@,
                ).contains(store@.tasks[k2]),
        decreases n - k,
    {
        let t = store.task_at(k);
        if match_task(filter, t) {
            let ghost pre = res@;
            res.push(t.duplicate());
            proof {
                lemma_views_of_push(pre, res@[pre.len() as int]);
                assert(views_of(res@) == views_of(pre).push(store@.tasks[k as int]));
                assert(forall|i: int|
                    0 <= i < views_of(pre).len() ==> #[trigger] views_of(res@)[i] == views_of(
                        pre,
                    )[i]);
                assert forall|k2: int|
                    0 <= k2 < k && filter.accepts(#[trigger] store@.tasks[k2]) implies views_of(
                    res@,
                ).contains(store@.tasks[k2]) by {
                    let i2 = choose|i2: int|
                        0 <= i2 < views_of(pre).len() && views_of(pre)[i2] == store@.tasks[k2];
                    assert(views_of(res@)[i2] == store@.tasks[k2]);
                }
                assert forall|i: int, j: int| 0 <= i < j < views_of(res@).len() implies (
                #[trigger] views_of(res@)[i]).uuid != (#[trigger] views_of(res@)[j]).uuid by {
                    if j == views_of(res@).len() - 1 {
                        let k2 = choose|k2: int|
                            0 <= k2 < k && #[trigger] views_of(pre)[i] == store@.tasks[k2];
                        assert(store@.tasks[k2].uuid != store@.tasks[k as int].uuid);
                    }
                }
                assert(views_of(res@).contains(store@.tasks[k as int])) by {
                    assert(views_of(res@)[views_of(res@).len() - 1] == store@.tasks[k as int]);
                }
            }
        }
        k += 1;
    }
    res
}

/// Some working-set slot before `bound` names the identifier `u`.
spec fn slot_named(s: StoreV, bound: int, u: Seq<u8>) -> bool {
    exists|k2: int|
        0 <= k2 < bound && (#[trigger] s.working_set[k2]) is Some && s.working_set[k2]->0 == u
}

/// An identifier a slot names within the working set's length is named by the
/// working set.
proof fn lemma_slot_named_in_ws(s: StoreV, u: Seq<u8>)
    requires
        slot_named(s, s.working_set.len() as int, u),
    ensures
        s.uuid_in_working_set(u),
{
    let w = choose|k2: int|
        0 <= k2 < s.working_set.len() && (#[trigger] s.working_set[k2]) is Some
            && s.working_set[k2]->0 == u;
    assert(s.working_set[w] is Some && s.working_set[w]->0 == u);
}

/// Working-set-scan strategy: walk the working set once, skipping empty
/// slots, and keep the named tasks the filter's conditions accept. Slots name
/// distinct tasks, so each task appears at most once.
fn working_set_scan(store: &TaskStore, filter: &Filter) -> (res: Vec<Task>)
    requires
        store@.wf(),
    ensures
        distinct_uuids(views_of(res@)),
        forall|i: int|
            0 <= i < res@.len() ==> store@.contains_task(#[trigger] views_of(res@)[i])
                && store@.in_working_set(views_of(res@)[i]) && filter.accepts(views_of(res@)[i]),
        forall|k: int|
            0 <= k < store@.tasks.len() && store@.in_working_set(#[trigger] store@.tasks[k])
                && filter.accepts(store@.tasks[k]) ==> views_of(res@).contains(store@.tasks[k]),
{
    let n = store.working_set_len();
    let mut res: Vec<Task> = Vec::new();
    let mut k: usize = 0;
    while k < n
        invariant
            store@.wf(),
            n == store@.working_set.len(),
            k <= n,
            forall|i: int|
                0 <= i < res@.len() ==> slot_named(
                    store@,
                    k as int,
                    (#[trigger] views_of(res@)[i]).uuid,
                ),
            forall|i: int|
                0 <= i < res@.len() ==> store@.contains_task(#[trigger] views_of(res@)[i])
                    && filter.accepts(views_of(res@)[i]),
            distinct_uuids(views_of(res@)),
            forall|k2: int, k3: int|
                0 <= k2 < k && (#[trigger] store@.working_set[k2]) is Some && 0 <= k3
                    < store@.tasks.len() && (#[trigger] store@.tasks[k3]).uuid
                    == store@.working_set[k2]->0 && filter.accepts(store@.tasks[k3]) ==> views_of(
                    res@,
                ).contains(store@.tasks[k3]),
        decreases n - k,
    {
        match store.slot_at(k) {
            Some(u) => {
                match store.get_task(u) {
                    Some(t) => {
                        if match_task(filter, &t) {
                            let ghost pre = res@;
                            let ghost tv = t@;
                            res.push(t);
                            proof {
                                lemma_views_of_push(pre, res@[pre.len() as int]);
                                assert(views_of(res@) == views_of(pre).push(tv));
                                assert((#[trigger] store@.working_set[k as int]) is Some
                                    && store@.working_set[k as int]->0 == tv.uuid);
                                assert(forall|i: int|
                                    0 <= i < views_of(pre).len() ==> #[trigger] views_of(res@)[i]
                                        == views_of(pre)[i]);
                                assert forall|i: int| 0 <= i < res@.len() implies slot_named(
                                    store@,
                                    k + 1,
                                    (#[trigger] views_of(res@)[i]).uuid,
                                ) by {
                                    if i == res@.len() - 1 {
                                        assert(0 <= k < k + 1 && (
                                        #[trigger] store@.working_set[k as int]) is Some
                                            && store@.working_set[k as int]->0 == (views_of(
                                            res@,
                                        )[i]).uuid);
                                    } else {
                                        let k2 = choose|k2: int|
                                            0 <= k2 < k && (#[trigger] store@.working_set[k2])
                                                is Some && store@.working_set[k2]->0 == (views_of(
                                                pre,
                                            )[i]).uuid;
                                        assert(0 <= k2 < k + 1 && (
                                        #[trigger] store@.working_set[k2]) is Some
                                            && store@.working_set[k2]->0 == (views_of(
                                            res@,
                                        )[i]).uuid);
                                    }
                                }
                                assert forall|k2: int, k3: int|
                                    0 <= k2 < k && (#[trigger] store@.working_set[k2]) is Some && 0
                                        <= k3 < store@.tasks.len() && (
                                    #[trigger] store@.tasks[k3]).uuid == store@.working_set[k2]->0
                                        && filter.accepts(store@.tasks[k3]) implies views_of(
                                    res@,
                                ).contains(store@.tasks[k3]) by {
                                    assert(views_of(pre).contains(store@.tasks[k3]));
                                    let i2 = choose|i2: int|
                                        0 <= i2 < views_of(pre).len() && views_of(pre)[i2]
                                            == store@.tasks[k3];
                                    assert(views_of(res@)[i2] == store@.tasks[k3]);
                                }
                                assert forall|i: int, j: int|
                                    0 <= i < j < views_of(res@).len() implies (
                                #[trigger] views_of(res@)[i]).uuid != (
                                #[trigger] views_of(res@)[j]).uuid by {
                                    if j == views_of(res@).len() - 1 {
                                        let k2 = choose|k2: int|
                                            0 <= k2 < k && (#[trigger] store@.working_set[k2])
                                                is Some && store@.working_set[k2]->0 == views_of(
                                                pre,
                                            )[i].uuid;
                                        assert(store@.working_set[k2]->0
                                            != store@.working_set[k as int]->0);
                                    }
                                }
                                assert(views_of(res@)[views_of(res@).len() - 1] == tv);
                                assert forall|k3: int|
                                    0 <= k3 < store@.tasks.len() && (#[trigger] store@.tasks[k3]).uuid
                                        == store@.working_set[k as int]->0 implies store@.tasks[k3]
                                    == tv by {
                                    let i3 = choose|i3: int|
                                        0 <= i3 < store@.tasks.len() && (#[trigger] store@.tasks[i3])
                                            == tv;
                                }
                            }
                        } else {
                            proof {
                                assert forall|k3: int|
                                    0 <= k3 < store@.tasks.len() && (#[trigger] store@.tasks[k3]).uuid
                                        == store@.working_set[k as int]->0 implies !filter.accepts(
                                    store@.tasks[k3],
                                ) by {
                                    let i3 = choose|i3: int|
                                        0 <= i3 < store@.tasks.len() && (#[trigger] store@.tasks[i3])
                                            == t@;
                                    assert(store@.tasks[k3] == t@);
                                }
                            }
                        }
                    },
                    None => {
                        proof {
                            assert(false);
                        }
                    },
                }
            },
            None => {},
        }
        proof {
            assert forall|i: int| 0 <= i < res@.len() implies slot_named(
                store@,
                k + 1,
                (#[trigger] views_of(res@)[i]).uuid,
            ) by {
                if slot_named(store@, k as int, (views_of(res@)[i]).uuid) {
                    let k2 = choose|k2: int|
                        0 <= k2 < k && (#[trigger] store@.working_set[k2]) is Some
                            && store@.working_set[k2]->0 == (views_of(res@)[i]).uuid;
                    assert(0 <= k2 < k + 1 && store@.working_set[k2] is Some
                        && store@.working_set[k2]->0 == (views_of(res@)[i]).uuid);
                }
            }
        }
        k += 1;
    }
    proof {
        assert forall|i: int| 0 <= i < res@.len() implies store@.in_working_set(
            #[trigger] views_of(res@)[i],
        ) by {
            lemma_slot_named_in_ws(store@, views_of(res@)[i].uuid);
        }
    }
    res
}

/// Whether some identifier of `ids` names the task `t` of the store.
fn any_id_selects(store: &TaskStore, ids: &Vec<TaskId>, t: &Task) -> (r: bool)
    requires
        store@.wf(),
    ensures
        r == some_id_selects(ids@, store@, t@),
{
    let mut i: usize = 0;
    while i < ids.len()
        invariant
            store@.wf(),
            i <= ids@.len(),
            forall|j: int| 0 <= j < i ==> !(#[trigger] ids@[j]).selects(store@, t@),
        decreases ids@.len() - i,
    {
        if id_selects(store, &ids[i], t) {
            assert((#[trigger] ids@[i as int]).selects(store@, t@));
            return true;
        }
        i += 1;
    }
    false
}

/// Scan-and-match strategy, for lists holding a partial identifier: a prefix
/// cannot be looked up directly, so every task of the store is enumerated
/// once and tested against the identifiers of the list. Enumeration order
/// makes each task appear at most once.
fn scan_and_match(store: &TaskStore, filter: &Filter, ids: &Vec<TaskId>) -> (res: Vec<Task>)
    requires
        store@.wf(),
    ensures
        distinct_uuids(views_of(res@)),
        forall|i: int|
            0 <= i < res@.len() ==> store@.contains_task(#[trigger] views_of(res@)[i])
                && some_id_selects(ids@, store@, views_of(res@)[i]) && filter.accepts(
                views_of(res@)[i],
            ),
        forall|k: int|
            0 <= k < store@.tasks.len() && some_id_selects(ids@, store@, #[trigger] store@.tasks[k])
                && filter.accepts(store@.tasks[k]) ==> views_of(res@).contains(store@.tasks[k]),
{
    let n = store.task_count();
    let mut res: Vec<Task> = Vec::new();
    let mut k: usize = 0;
    while k < n
        invariant
            store@.wf(),
            n == store@.tasks.len(),
            k <= n,
            forall|i: int|
                0 <= i < res@.len() ==> exists|k2: int|
                    0 <= k2 < k && #[trigger] views_of(res@)[i] == store@.tasks[k2],
            forall|i: int|
                0 <= i < res@.len() ==> some_id_selects(
                    ids@,
                    store@,
                    #[trigger] views_of(res@)[i],
                ) && filter.accepts(views_of(res@)[i]),
            distinct_uuids(views_of(res@)),
            forall|k2: int|
                0 <= k2 < k && some_id_selects(ids@, store@, #[trigger] store@.tasks[k2])
                    && filter.accepts(store@.tasks[k2]) ==> views_of(res@).contains(
                    store@.tasks[k2],
                ),
        decreases n - k,
    {
        let t = store.task_at(k);
        if any_id_selects(store, ids, t) && match_task(filter, t) {
            let ghost pre = res@;
            res.push(t.duplicate());
            proof {
                lemma_views_of_push(pre, res@[pre.len() as int]);
                assert(views_of(res@) == views_of(pre).push(store@.tasks[k as int]));
                assert(forall|i: int|
                    0 <= i < views_of(pre).len() ==> #[trigger] views_of(res@)[i] == views_of(
                        pre,
                    )[i]);
                assert forall|k2: int|
                    0 <= k2 < k && some_id_selects(ids@, store@, #[trigger] store@.tasks[k2])
                        && filter.accepts(store@.tasks[k2]) implies views_of(res@).contains(
                    store@.tasks[k2],
                ) by {
                    let i2 = choose|i2: int|
                        0 <= i2 < views_of(pre).len() && views_of(pre)[i2] == store@.tasks[k2];
                    assert(views_of(res@)[i2] == store@.tasks[k2]);
                }
                assert forall|i: int, j: int| 0 <= i < j < views_of(res@).len() implies (
                #[trigger] views_of(res@)[i]).uuid != (#[trigger] views_of(res@)[j]).uuid by {
                    if j == views_of(res@).len() - 1 {
                        let k2 = choose|k2: int|
                            0 <= k2 < k && #[trigger] views_of(pre)[i] == store@.tasks[k2];
                        assert(store@.tasks[k2].uuid != store@.tasks[k as int].uuid);
                    }
                }
                assert(views_of(res@).contains(store@.tasks[k as int])) by {
                    assert(views_of(res@)[views_of(res@).len() - 1] == store@.tasks[k as int]);
                }
            }
        }
        k += 1;
    }
    res
}

/// Resolves one exact identifier to the task it names, if any: a working-set
/// index by the store's slot lookup, a full identifier by the store's
/// identifier lookup. The task named, if there is one, is unique.
fn fetch_id(store: &TaskStore, id: &TaskId) -> (r: Option<Task>)
    requires
        store@.wf(),
        !(id is PartialUuid),
    ensures
        r matches Some(t) ==> store@.contains_task(t@) && id.selects(store@, t@),
        r matches Some(t) ==> forall|tv: TaskV|
            store@.contains_task(tv) && (#[trigger] id.selects(store@, tv)) ==> tv == t@,
        r is None ==> forall|tv: TaskV|
            store@.contains_task(tv) ==> !(#[trigger] id.selects(store@, tv)),
{
    match id {
        TaskId::WorkingSetId(n) => {
            let r = store.get_working_set_task(*n);
            proof {
                if r is Some {
                    let t = r->0;
                    assert forall|tv: TaskV|
                        store@.contains_task(tv) && (#[trigger] id.selects(store@, tv)) implies tv
                        == t@ by {
                        lemma_uuid_unique(store@, tv, t@);
                    }
                }
            }
            r
        },
        TaskId::Uuid(u) => {
            let r = store.get_task(u);
            proof {
                if r is Some {
                    let t = r->0;
                    assert forall|tv: TaskV|
                        store@.contains_task(tv) && (#[trigger] id.selects(store@, tv)) implies tv
                        == t@ by {
                        lemma_uuid_unique(store@, tv, t@);
                    }
                }
            }
            r
        },
        TaskId::PartialUuid(_) => {
            proof {
                assert(false);
            }
            None
        },
    }
}

/// Direct-fetch strategy, for lists without a partial identifier: each
/// identifier is resolved by a point lookup, identifiers that resolve to
/// nothing are skipped, and a task named more than once is kept only the
/// first time it is seen.
fn direct_fetch(store: &TaskStore, filter: &Filter, ids: &Vec<TaskId>) -> (res: Vec<Task>)
    requires
        store@.wf(),
        forall|i: int| 0 <= i < ids@.len() ==> !((#[trigger] ids@[i]) is PartialUuid),
    ensures
        distinct_uuids(views_of(res@)),
        forall|i: int|
            0 <= i < res@.len() ==> store@.contains_task(#[trigger] views_of(res@)[i])
                && some_id_selects(ids@, store@, views_of(res@)[i]) && filter.accepts(
                views_of(res@)[i],
            ),
        forall|k: int|
            0 <= k < store@.tasks.len() && some_id_selects(ids@, store@, #[trigger] store@.tasks[k])
                && filter.accepts(store@.tasks[k]) ==> views_of(res@).contains(store@.tasks[k]),
{
    let mut seen: Vec<Vec<u8>> = Vec::new();
    let mut res: Vec<Task> = Vec::new();
    let mut j: usize = 0;
    while j < ids.len()
        invariant
            store@.wf(),
            forall|i: int| 0 <= i < ids@.len() ==> !((#[trigger] ids@[i]) is PartialUuid),
            j <= ids@.len(),
            distinct_uuids(views_of(res@)),
            forall|i: int|
                0 <= i < res@.len() ==> store@.contains_task(#[trigger] views_of(res@)[i])
                    && some_id_selects(ids@, store@, views_of(res@)[i]) && filter.accepts(
                    views_of(res@)[i],
                ),
            forall|i: int|
                0 <= i < res@.len() ==> byte_views(seen@).contains(
                    (#[trigger] views_of(res@)[i]).uuid,
                ),
            forall|k3: int|
                0 <= k3 < store@.tasks.len() && byte_views(seen@).contains(
                    (#[trigger] store@.tasks[k3]).uuid,
                ) && filter.accepts(store@.tasks[k3]) ==> views_of(res@).contains(
                    store@.tasks[k3],
                ),
            forall|j2: int, k3: int|
                0 <= j2 < j && 0 <= k3 < store@.tasks.len() && (#[trigger] ids@[j2]).selects(
                    store@,
                    #[trigger] store@.tasks[k3],
                ) && filter.accepts(store@.tasks[k3]) ==> views_of(res@).contains(
                    store@.tasks[k3],
                ),
        decreases ids@.len() - j,
    {
        let t_opt = fetch_id(store, &ids[j]);
        match t_opt {
            Some(t) => {
                let ghost tv = t@;
                if !contains_bytes(&seen, &t.uuid) {
                    let ghost pre = res@;
                    let ghost seen_pre = seen@;
                    seen.push(copy_bytes(&t.uuid));
                    proof {
                        assert(byte_views(seen@) =~= byte_views(seen_pre).push(tv.uuid));
                        assert(forall|i: int|
                            0 <= i < byte_views(seen_pre).len() ==> #[trigger] byte_views(seen@)[i]
                                == byte_views(seen_pre)[i]);
                        assert(byte_views(seen@)[byte_views(seen@).len() - 1] == tv.uuid);
                        assert(byte_views(seen@).contains(tv.uuid));
                        assert forall|i: int| 0 <= i < res@.len() implies byte_views(
                            seen@,
                        ).contains((#[trigger] views_of(res@)[i]).uuid) by {
                            let w = choose|w: int|
                                0 <= w < byte_views(seen_pre).len() && byte_views(seen_pre)[w]
                                    == views_of(res@)[i].uuid;
                            assert(byte_views(seen@)[w] == views_of(res@)[i].uuid);
                        }
                    }
                    if match_task(filter, &t) {
                        res.push(t);
                        proof {
                            lemma_views_of_push(pre, res@[pre.len() as int]);
                            assert(views_of(res@) == views_of(pre).push(tv));
                            assert(forall|i: int|
                                0 <= i < views_of(pre).len() ==> #[trigger] views_of(res@)[i]
                                    == views_of(pre)[i]);
                            assert(views_of(res@)[views_of(res@).len() - 1] == tv);
                            assert((#[trigger] ids@[j as int]).selects(store@, tv));
                            assert forall|i: int| 0 <= i < res@.len() implies byte_views(
                                seen@,
                            ).contains((#[trigger] views_of(res@)[i]).uuid) by {
                                if i == res@.len() - 1 {
                                    assert(views_of(res@)[i] == tv);
                                } else {
                                    assert(views_of(res@)[i] == views_of(pre)[i]);
                                }
                            }
                            assert forall|i: int, j2: int|
                                0 <= i < j2 < views_of(res@).len() implies (
                            #[trigger] views_of(res@)[i]).uuid != (
                            #[trigger] views_of(res@)[j2]).uuid by {
                                if j2 == views_of(res@).len() - 1 {
                                    assert(byte_views(seen_pre).contains(views_of(pre)[i].uuid));
                                    assert(!byte_views(seen_pre).contains(tv.uuid));
                                }
                            }
                            assert forall|k3: int|
                                0 <= k3 < store@.tasks.len() && byte_views(seen@).contains(
                                    (#[trigger] store@.tasks[k3]).uuid,
                                ) && filter.accepts(store@.tasks[k3]) implies views_of(
                                res@,
                            ).contains(store@.tasks[k3]) by {
                                if byte_views(seen_pre).contains(store@.tasks[k3].uuid) {
                                    let i2 = choose|i2: int|
                                        0 <= i2 < views_of(pre).len() && views_of(pre)[i2]
                                            == store@.tasks[k3];
                                    assert(views_of(res@)[i2] == store@.tasks[k3]);
                                } else {
                                    let w = choose|w: int|
                                        0 <= w < byte_views(seen@).len() && byte_views(seen@)[w]
                                            == store@.tasks[k3].uuid;
                                    assert(store@.tasks[k3].uuid == tv.uuid);
                                    lemma_uuid_unique(store@, store@.tasks[k3], tv);
                                    assert(views_of(res@)[views_of(res@).len() - 1]
                                        == store@.tasks[k3]);
                                }
                            }
                            assert forall|j2: int, k3: int|
                                0 <= j2 < j + 1 && 0 <= k3 < store@.tasks.len() && (
                            #[trigger] ids@[j2]).selects(store@, #[trigger] store@.tasks[k3])
                                && filter.accepts(store@.tasks[k3]) implies views_of(res@).contains(
                                store@.tasks[k3],
                            ) by {
                                if j2 == j {
                                    assert(store@.tasks[k3] == tv);
                                    assert(views_of(res@)[views_of(res@).len() - 1] == tv);
                                } else {
                                    let i2 = choose|i2: int|
                                        0 <= i2 < views_of(pre).len() && views_of(pre)[i2]
                                            == store@.tasks[k3];
                                    assert(views_of(res@)[i2] == store@.tasks[k3]);
                                }
                            }
                        }
                    } else {
                        proof {
                            assert forall|k3: int|
                                0 <= k3 < store@.tasks.len() && byte_views(seen@).contains(
                                    (#[trigger] store@.tasks[k3]).uuid,
                                ) && filter.accepts(store@.tasks[k3]) implies views_of(
                                res@,
                            ).contains(store@.tasks[k3]) by {
                                if byte_views(seen_pre).contains(store@.tasks[k3].uuid) {
                                } else {
                                    let w = choose|w: int|
                                        0 <= w < byte_views(seen@).len() && byte_views(seen@)[w]
                                            == store@.tasks[k3].uuid;
                                    assert(store@.tasks[k3].uuid == tv.uuid);
                                    lemma_uuid_unique(store@, store@.tasks[k3], tv);
                                }
                            }
                            assert forall|j2: int, k3: int|
                                0 <= j2 < j + 1 && 0 <= k3 < store@.tasks.len() && (
                            #[trigger] ids@[j2]).selects(store@, #[trigger] store@.tasks[k3])
                                && filter.accepts(store@.tasks[k3]) implies views_of(res@).contains(
                                store@.tasks[k3],
                            ) by {
                                if j2 == j {
                                    assert(store@.tasks[k3] == tv);
                                }
                            }
                        }
                    }
                } else {
                    proof {
                        assert forall|j2: int, k3: int|
                            0 <= j2 < j + 1 && 0 <= k3 < store@.tasks.len() && (
                        #[trigger] ids@[j2]).selects(store@, #[trigger] store@.tasks[k3])
                            && filter.accepts(store@.tasks[k3]) implies views_of(res@).contains(
                            store@.tasks[k3],
                        ) by {
                            if j2 == j {
                                assert(store@.tasks[k3] == tv);
                                assert(byte_views(seen@).contains(store@.tasks[k3].uuid));
                            }
                        }
                    }
                }
            },
            None => {
                proof {
                    assert forall|j2: int, k3: int|
                        0 <= j2 < j + 1 && 0 <= k3 < store@.tasks.len() && (
                    #[trigger] ids@[j2]).selects(store@, #[trigger] store@.tasks[k3])
                        && filter.accepts(store@.tasks[k3]) implies views_of(res@).contains(
                        store@.tasks[k3],
                    ) by {}
                }
            },
        }
        j += 1;
    }
    proof {
        assert forall|k: int|
            0 <= k < store@.tasks.len() && some_id_selects(ids@, store@, #[trigger] store@.tasks[k])
                && filter.accepts(store@.tasks[k]) implies views_of(res@).contains(
            store@.tasks[k],
        ) by {
            let j2 = choose|j2: int|
                0 <= j2 < ids@.len() && (#[trigger] ids@[j2]).selects(store@, store@.tasks[k]);
        }
    }
    res
}

/// The tag name the condition speaks of.
fn condition_tag(c: &Condition) -> (t: &Vec<u8>)
    ensures
        t@ == c.tag(),
{
    match c {
        Condition::HasTag(t) => t,
        Condition::NoTag(t) => t,
    }
}

/// Whether the list holds a partial identifier.
fn contains_partial(ids: &Vec<TaskId>) -> (r: bool)
    ensures
        r == exists|i: int| 0 <= i < ids@.len() && (#[trigger] ids@[i]) is PartialUuid,
{
    let mut i: usize = 0;
    while i < ids.len()
        invariant
            i <= ids@.len(),
            forall|j: int| 0 <= j < i ==> !((#[trigger] ids@[j]) is PartialUuid),
        decreases ids@.len() - i,
    {
        let partial = match &ids[i] {
            TaskId::PartialUuid(_) => true,
            _ => false,
        };
        if partial {
            assert((#[trigger] ids@[i as int]) is PartialUuid);
            return true;
        }
        i += 1;
    }
    false
}

/// Returns the tasks matching the given filter, each matching task exactly
/// once, however many times the filter named it.
///
/// The filter's conditions are validated first, before any task is examined:
/// a condition naming an ill-formed tag fails the whole resolution with
/// [`FilterError::InvalidTag`] carrying the first such name. Otherwise the
/// universe's shape picks the enumeration strategy — an explicit list with a
/// partial identifier forces one scan over every task; a list of exact
/// identifiers is resolved by point lookups; every task, or the working set,
/// is enumerated directly — and each candidate is kept if the conditions
/// accept it and it was not already kept. The order of the returned tasks is
/// unspecified.
pub fn filtered_tasks(store: &TaskStore, filter: &Filter) -> (r: Result<Vec<Task>, FilterError>)
    requires
        store@.wf(),
    ensures
        r is Ok <==> filter.conditions_valid(),
        r matches Ok(res) ==> resolution_ok(store@, *filter, views_of(res@)),
        r matches Err(e) ==> exists|i: int|
            0 <= i < filter.conditions@.len() && !crate::tag::valid_tag(
                (#[trigger] filter.conditions@[i]).tag(),
            ) && (forall|j: int|
                0 <= j < i ==> crate::tag::valid_tag((#[trigger] filter.conditions@[j]).tag()))
                && e->0@ == filter.conditions@[i].tag(),
{
    let mut ci: usize = 0;
    while ci < filter.conditions.len()
        invariant
            ci <= filter.conditions@.len(),
            forall|j: int|
                0 <= j < ci ==> crate::tag::valid_tag((#[trigger] filter.conditions@[j]).tag()),
        decreases filter.conditions@.len() - ci,
    {
        let tag = condition_tag(&filter.conditions[ci]);
        if !validate_tag(tag) {
            proof {
                assert(!crate::tag::valid_tag((#[trigger] filter.conditions@[ci as int]).tag()));
            }
            return Err(FilterError::InvalidTag(copy_bytes(tag)));
        }
        ci += 1;
    }
    match &filter.universe {
        Universe::IdList(ids) => {
            let res = if contains_partial(ids) {
                scan_and_match(store, filter, ids)
            } else {
                direct_fetch(store, filter, ids)
            };
            proof {
                assert(filter.universe->0 == *ids);
                assert forall|t: TaskV| #[trigger]
                    filter.universe.admits(store@, t) == some_id_selects(ids@, store@, t) by {}
            }
            Ok(res)
        },
        Universe::AllTasks => Ok(full_scan(store, filter)),
        Universe::PendingTasks => Ok(working_set_scan(store, filter)),
    }
}

} // verus!
