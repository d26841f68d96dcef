//! The library's picture of a task: the unique identifier's textual form, the
//! description, and the set of tags, each held as plain bytes. The store owns
//! the authoritative task data; this type carries what the resolver reads.

use vstd::prelude::*;

use crate::bytes::copy_bytes;

verus! {

/// One task, as the resolver sees it: its identifier's textual form, its
/// description, and the tags it carries.
pub struct Task {
    /// The textual form of the task's unique identifier.
    pub uuid: Vec<u8>,
    /// The task's description; the resolver never inspects it.
    pub description: Vec<u8>,
    /// The tags the task carries, each a tag name.
    pub tags: Vec<Vec<u8>>,
}

/// The mathematical value of a [`Task`]: its fields as sequences.
#[verifier::ext_equal]
pub struct TaskV {
    pub uuid: Seq<u8>,
    pub description: Seq<u8>,
    pub tags: Seq<Seq<u8>>,
}

impl View for Task {
    type V = TaskV;

    open spec fn view(&self) -> TaskV {
        TaskV {
            uuid: self.uuid@,
            description: self.description@,
            tags: Seq::new(self.tags@.len(), |i: int| self.tags@[i]@),
        }
    }
}

impl TaskV {
    /// Whether the task carries the tag named `tag`.
    pub open spec fn has_tag(self, tag: Seq<u8>) -> bool {
        self.tags.contains(tag)
    }
}

/// The sequence of mathematical values of a sequence of tasks.
pub open spec fn views_of(ts: Seq<Task>) -> Seq<TaskV> {
    Seq::new(ts.len(), |i: int| ts[i]@)
}

/// Appending a task appends its value.
pub proof fn lemma_views_of_push(ts: Seq<Task>, t: Task)
    ensures
        views_of(ts.push(t)) == views_of(ts).push(t@),
{
    assert(views_of(ts.push(t)) =~= views_of(ts).push(t@));
}

impl Task {
    /// A fresh task equal in value to `self`.
    pub fn duplicate(&self) -> (r: Task)
        ensures
            r@ == self@,
    {
        let mut tags: Vec<Vec<u8>> = Vec::new();
        let mut i: usize = 0;
        while i < self.tags.len()
            invariant
                i <= self.tags@.len(),
                tags@.len() == i,
                forall|j: int| 0 <= j < i ==> tags@[j]@ == self.tags@[j]@,
            decreases self.tags@.len() - i,
        {
            tags.push(copy_bytes(&self.tags[i]));
            i += 1;
        }
        let r = Task { uuid: copy_bytes(&self.uuid), description: copy_bytes(&self.description), tags };
        proof {
            assert(r@ =~= self@);
        }
        r
    }

    /// Whether the task carries the tag named `tag`.
    pub fn has_tag(&self, tag: &Vec<u8>) -> (r: bool)
        ensures
            r == self@.has_tag(tag@),
    {
        let mut i: usize = 0;
        while i < self.tags.len()
            invariant
                i <= self.tags@.len(),
                forall|j: int| 0 <= j < i ==> self@.tags[j] != tag@,
            decreases self.tags@.len() - i,
        {
            if crate::bytes::bytes_eq(&self.tags[i], tag) {
                assert(self@.tags[i as int] == tag@);
                return true;
            }
            i += 1;
        }
        false
    }
}

} // verus!
