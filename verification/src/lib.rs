//! An ordered container that hands out stable, shareable handles.
//!
//! A [`RefList`] owns a sequence of entries. Every `push` returns an
//! [`EntryRef`], a cheap-to-clone handle that keeps tracking the current
//! position of its entry even as earlier elements are removed. Batches of
//! indices are removed atomically through a [`DeleteTransaction`]; every
//! surviving entry is renumbered in one pass, and every deleted entry becomes
//! permanently detached, which all of its outstanding handles observe.

mod model;
mod ref_list;

pub use model::{count_deleted_before, is_deleted, lemma_batch_set_semantics, lemma_count_bounds,
    lemma_count_monotone, lemma_new_index_strictly_monotone, lemma_survivors_len,
    lemma_survivors_mapping, lemma_survivors_membership, survivors};
pub use ref_list::{lemma_delete_commits_set_semantics, DeleteTransaction, Entry, EntryRef,
    RefList};
