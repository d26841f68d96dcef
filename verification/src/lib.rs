//! Task identifier resolution and predicate filtering over a local task store.
//!
//! A query names a *universe* of candidate tasks — an explicit list of task
//! identifiers, every task, or the tasks of the store's working set — together
//! with a conjunction of tag conditions. The resolver enumerates the universe,
//! tests each candidate against the conditions, and returns every matching
//! task exactly once.

mod bytes;
mod laws;
mod query;
mod resolve;
mod store;
mod tag;
mod task;

pub use bytes::{byte_views, bytes_eq, contains_bytes, copy_bytes, is_prefix};
pub use laws::{
    lemma_forbid, lemma_partial_id_disambiguation, lemma_partial_id_no_match,
    lemma_require_conjunction, lemma_task_appears_once, lemma_universe_coverage,
};
pub use query::{some_id_selects, Condition, Filter, TaskId, Universe};
pub use resolve::{distinct_uuids, filtered_tasks, match_task, resolution_ok, FilterError};
pub use store::{StoreV, TaskStore};
pub use tag::{tag_byte_ok, tag_start_ok, valid_tag, validate_tag};
pub use task::{views_of, Task, TaskV};
