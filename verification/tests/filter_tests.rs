use taskfilter::{Condition, Filter, FilterError, TaskId, TaskStore, Universe};
use taskfilter::{filtered_tasks, Task};

fn bytes(s: &str) -> Vec<u8> {
    s.as_bytes().to_vec()
}

fn task(uuid: &str, desc: &str, tags: &[&str]) -> Task {
    Task {
        uuid: bytes(uuid),
        description: bytes(desc),
        tags: tags.iter().map(|t| bytes(t)).collect(),
    }
}

fn descriptions(res: Vec<Task>) -> Vec<String> {
    let mut ds: Vec<String> = res
        .into_iter()
        .map(|t| String::from_utf8(t.description).unwrap())
        .collect();
    ds.sort();
    ds
}

const UUID_A: &str = "119e20a2-36f4-4c1c-9d88-43b1a2836a03";
const UUID_B: &str = "6add1e9f-c321-4602-ba6d-30ac871dd29e";
const UUID_C: &str = "d1b79b88-d1f2-4b6a-9a6f-3d5d5d0c3f71";
const UUID_D: &str = "7cf417e3-ec5c-4c4d-a0a6-6c8c95f1a523";

/// Tasks "A" (pending), "B" (completed), "C" (pending); the working set keeps
/// the store's convention of an always-empty slot 0, so "A" sits in slot 1.
fn three_task_store() -> TaskStore {
    let mut store = TaskStore::new();
    assert!(store.add_task(task(UUID_A, "A", &[])));
    assert!(store.add_task(task(UUID_B, "B", &[])));
    assert!(store.add_task(task(UUID_C, "C", &[])));
    assert!(store.push_working_slot(None));
    assert!(store.push_working_slot(Some(bytes(UUID_A))));
    assert!(store.push_working_slot(Some(bytes(UUID_C))));
    store
}

#[test]
fn exact_ids() {
    let store = three_task_store();

    let filter = Filter {
        universe: Universe::IdList(vec![
            TaskId::Uuid(bytes(UUID_A)),         // A
            TaskId::WorkingSetId(1),             // A (again, dups filtered)
            TaskId::Uuid(bytes(UUID_B)),         // B
        ]),
        ..Default::default()
    };
    let filtered = descriptions(filtered_tasks(&store, &filter).unwrap());
    assert_eq!(vec!["A".to_owned(), "B".to_owned()], filtered);
}

#[test]
fn partial_ids() {
    let store = three_task_store();

    let partial = UUID_B[..13].to_owned();

    let filter = Filter {
        universe: Universe::IdList(vec![
            TaskId::Uuid(bytes(UUID_A)),         // A
            TaskId::WorkingSetId(1),             // A (again, dups filtered)
            TaskId::PartialUuid(bytes(&partial)), // B
        ]),
        ..Default::default()
    };
    let filtered = descriptions(filtered_tasks(&store, &filter).unwrap());
    assert_eq!(vec!["A".to_owned(), "B".to_owned()], filtered);
}

#[test]
fn all_tasks() {
    let mut store = TaskStore::new();
    assert!(store.add_task(task(UUID_A, "A", &[]))); // pending
    assert!(store.add_task(task(UUID_B, "B", &[]))); // completed
    assert!(store.add_task(task(UUID_C, "C", &[]))); // deleted
    assert!(store.push_working_slot(None));
    assert!(store.push_working_slot(Some(bytes(UUID_A))));

    let filter = Filter { universe: Universe::AllTasks, ..Default::default() };
    let filtered = descriptions(filtered_tasks(&store, &filter).unwrap());
    assert_eq!(
        vec!["A".to_owned(), "B".to_owned(), "C".to_owned()],
        filtered
    );
}

#[test]
fn tag_filtering() {
    let mut store = TaskStore::new();
    assert!(store.add_task(task(UUID_A, "A", &["yes"])));
    assert!(store.add_task(task(UUID_B, "B", &["yes", "no"])));
    assert!(store.add_task(task(UUID_C, "C", &["no"])));
    assert!(store.add_task(task(UUID_D, "D", &[])));

    // look for just "yes" (A and B)
    let filter = Filter {
        universe: Universe::AllTasks,
        conditions: vec![Condition::HasTag(bytes("yes"))],
    };
    let filtered = descriptions(filtered_tasks(&store, &filter).unwrap());
    assert_eq!(vec!["A".to_owned(), "B".to_owned()], filtered);

    // look for tags without "no" (A, D)
    let filter = Filter {
        universe: Universe::AllTasks,
        conditions: vec![Condition::NoTag(bytes("no"))],
    };
    let filtered = descriptions(filtered_tasks(&store, &filter).unwrap());
    assert_eq!(vec!["A".to_owned(), "D".to_owned()], filtered);

    // look for tags with "yes" and "no" (B)
    let filter = Filter {
        universe: Universe::AllTasks,
        conditions: vec![
            Condition::HasTag(bytes("yes")),
            Condition::HasTag(bytes("no")),
        ],
    };
    let filtered = descriptions(filtered_tasks(&store, &filter).unwrap());
    assert_eq!(vec!["B".to_owned()], filtered);
}

#[test]
fn pending_tasks() {
    let mut store = TaskStore::new();
    assert!(store.add_task(task(UUID_A, "A", &[]))); // pending
    assert!(store.add_task(task(UUID_B, "B", &[]))); // completed
    assert!(store.add_task(task(UUID_C, "C", &[]))); // deleted
    assert!(store.push_working_slot(None));
    assert!(store.push_working_slot(Some(bytes(UUID_A))));

    let filter = Filter { universe: Universe::PendingTasks, ..Default::default() };
    let filtered = descriptions(filtered_tasks(&store, &filter).unwrap());
    assert_eq!(vec!["A".to_owned()], filtered);
}

#[test]
fn pending_tasks_filtered_by_tag() {
    let mut store = TaskStore::new();
    assert!(store.add_task(task(UUID_A, "A", &["yes"])));
    assert!(store.add_task(task(UUID_B, "B", &[])));
    assert!(store.push_working_slot(None));
    assert!(store.push_working_slot(Some(bytes(UUID_A))));
    assert!(store.push_working_slot(Some(bytes(UUID_B))));

    let filter = Filter {
        universe: Universe::PendingTasks,
        conditions: vec![Condition::HasTag(bytes("yes"))],
    };
    let filtered = descriptions(filtered_tasks(&store, &filter).unwrap());
    assert_eq!(vec!["A".to_owned()], filtered);
}

#[test]
fn invalid_tag_fails_resolution() {
    let store = three_task_store();

    let filter = Filter {
        universe: Universe::AllTasks,
        conditions: vec![
            Condition::HasTag(bytes("fine")),
            Condition::NoTag(bytes("1bad")),
        ],
    };
    match filtered_tasks(&store, &filter) {
        Err(FilterError::InvalidTag(t)) => assert_eq!(t, bytes("1bad")),
        Ok(_) => panic!("an ill-formed tag must fail the resolution"),
    }
}

#[test]
fn invalid_tag_checked_before_scanning() {
    // Even a query over an empty universe fails on an ill-formed tag.
    let store = three_task_store();
    let filter = Filter {
        universe: Universe::IdList(vec![]),
        conditions: vec![Condition::HasTag(bytes("no good"))],
    };
    assert!(filtered_tasks(&store, &filter).is_err());
}

#[test]
fn empty_id_list_yields_nothing() {
    let store = three_task_store();
    let filter = Filter { universe: Universe::IdList(vec![]), ..Default::default() };
    let filtered = filtered_tasks(&store, &filter).unwrap();
    assert!(filtered.is_empty());
}

#[test]
fn empty_slot_resolves_to_nothing() {
    let store = three_task_store();
    // Slot 0 is the empty sentinel; slot 9 does not exist.
    let filter = Filter {
        universe: Universe::IdList(vec![
            TaskId::WorkingSetId(0),
            TaskId::WorkingSetId(9),
        ]),
        ..Default::default()
    };
    let filtered = filtered_tasks(&store, &filter).unwrap();
    assert!(filtered.is_empty());
}

#[test]
fn prefix_matching_zero_tasks_contributes_nothing() {
    let store = three_task_store();
    let filter = Filter {
        universe: Universe::IdList(vec![
            TaskId::PartialUuid(bytes("ffff")),
            TaskId::Uuid(bytes(UUID_C)),
        ]),
        ..Default::default()
    };
    let filtered = descriptions(filtered_tasks(&store, &filter).unwrap());
    assert_eq!(vec!["C".to_owned()], filtered);
}

#[test]
fn ambiguous_prefix_selects_every_match() {
    let mut store = TaskStore::new();
    assert!(store.add_task(task("aa00-1", "A", &[])));
    assert!(store.add_task(task("aa00-2", "B", &[])));
    assert!(store.add_task(task("bb00-3", "C", &[])));

    let filter = Filter {
        universe: Universe::IdList(vec![TaskId::PartialUuid(bytes("aa00"))]),
        ..Default::default()
    };
    let filtered = descriptions(filtered_tasks(&store, &filter).unwrap());
    assert_eq!(vec!["A".to_owned(), "B".to_owned()], filtered);
}

#[test]
fn partial_and_positional_dedup() {
    // The same task named by prefix and by slot comes back once.
    let store = three_task_store();
    let filter = Filter {
        universe: Universe::IdList(vec![
            TaskId::PartialUuid(bytes(&UUID_A[..13])),
            TaskId::WorkingSetId(1),
        ]),
        ..Default::default()
    };
    let filtered = descriptions(filtered_tasks(&store, &filter).unwrap());
    assert_eq!(vec!["A".to_owned()], filtered);
}

#[test]
fn default_filter_selects_every_task() {
    let store = three_task_store();
    let filtered = descriptions(filtered_tasks(&store, &Filter::default()).unwrap());
    assert_eq!(
        vec!["A".to_owned(), "B".to_owned(), "C".to_owned()],
        filtered
    );
}

#[test]
fn validate_tag_rules() {
    assert!(taskfilter::validate_tag(&bytes("yes")));
    assert!(taskfilter::validate_tag(&bytes("a_B9")));
    assert!(taskfilter::validate_tag(&bytes("_hidden")));
    assert!(!taskfilter::validate_tag(&bytes("")));
    assert!(!taskfilter::validate_tag(&bytes("1a")));
    assert!(!taskfilter::validate_tag(&bytes("a b")));
    assert!(!taskfilter::validate_tag(&bytes("a-b")));
}

#[test]
fn match_task_conjunction() {
    let t = task(UUID_B, "B", &["yes", "no"]);
    let both = Filter {
        universe: Universe::AllTasks,
        conditions: vec![
            Condition::HasTag(bytes("yes")),
            Condition::HasTag(bytes("no")),
        ],
    };
    assert!(taskfilter::match_task(&both, &t));
    let forbid = Filter {
        universe: Universe::AllTasks,
        conditions: vec![Condition::NoTag(bytes("no"))],
    };
    assert!(!taskfilter::match_task(&forbid, &t));
    let empty = Filter { universe: Universe::AllTasks, conditions: vec![] };
    assert!(taskfilter::match_task(&empty, &t));
}

#[test]
fn store_rejects_duplicate_uuid() {
    let mut store = TaskStore::new();
    assert!(store.add_task(task(UUID_A, "A", &[])));
    assert!(!store.add_task(task(UUID_A, "again", &[])));

    let filtered = descriptions(
        filtered_tasks(&store, &Filter::default()).unwrap(),
    );
    assert_eq!(vec!["A".to_owned()], filtered);
}

#[test]
fn store_rejects_bad_working_slots() {
    let mut store = TaskStore::new();
    assert!(store.add_task(task(UUID_A, "A", &[])));
    // A slot for an unknown task is refused.
    assert!(!store.push_working_slot(Some(bytes(UUID_B))));
    // A second slot for the same task is refused.
    assert!(store.push_working_slot(Some(bytes(UUID_A))));
    assert!(!store.push_working_slot(Some(bytes(UUID_A))));
}

#[test]
fn store_lookups() {
    let store = three_task_store();
    let a = store.get_task(&bytes(UUID_A)).unwrap();
    assert_eq!(a.description, bytes("A"));
    assert!(store.get_task(&bytes(UUID_D)).is_none());

    assert_eq!(store.get_working_set_index(&bytes(UUID_A)), Some(1));
    assert_eq!(store.get_working_set_index(&bytes(UUID_B)), None);

    let c = store.get_working_set_task(2).unwrap();
    assert_eq!(c.description, bytes("C"));
    assert!(store.get_working_set_task(0).is_none());
    assert!(store.get_working_set_task(17).is_none());
}

#[test]
fn byte_helpers() {
    assert!(taskfilter::bytes_eq(&bytes("abc"), &bytes("abc")));
    assert!(!taskfilter::bytes_eq(&bytes("abc"), &bytes("abd")));
    assert!(!taskfilter::bytes_eq(&bytes("abc"), &bytes("ab")));
    assert!(taskfilter::is_prefix(&bytes(""), &bytes("abc")));
    assert!(taskfilter::is_prefix(&bytes("ab"), &bytes("abc")));
    assert!(!taskfilter::is_prefix(&bytes("abc"), &bytes("ab")));
    assert!(!taskfilter::is_prefix(&bytes("ax"), &bytes("abc")));
    assert_eq!(taskfilter::copy_bytes(&bytes("abc")), bytes("abc"));
    let vs = vec![bytes("a"), bytes("b")];
    assert!(taskfilter::contains_bytes(&vs, &bytes("b")));
    assert!(!taskfilter::contains_bytes(&vs, &bytes("c")));
}

#[test]
fn task_duplicate_is_deep() {
    let t = task(UUID_A, "A", &["yes"]);
    let d = t.duplicate();
    assert_eq!(d.uuid, t.uuid);
    assert_eq!(d.description, t.description);
    assert_eq!(d.tags, t.tags);
    assert!(d.has_tag(&bytes("yes")));
    assert!(!d.has_tag(&bytes("no")));
}
