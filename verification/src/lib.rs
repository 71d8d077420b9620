//! A map container for small, dense, non-negative integer keys.
//!
//! `VecMap` trades the generality of a hash map for O(1) access with no
//! hashing: a sparse index array maps a key's integer value to a position
//! in a dense storage array of live `(key, value)` pairs. Removal is O(1)
//! by swap-removal, repairing the relocated entry's back-pointer.

mod entry;
mod iter;
mod laws;
mod map;
mod model;

pub use entry::Entry;
pub use entry::OccupiedEntry;
pub use entry::VacantEntry;
pub use iter::IntoIter;
pub use iter::Iter;
pub use iter::IterMut;
pub use iter::Keys;
pub use iter::Values;
pub use iter::ValuesMut;
pub use laws::apply_ops;
pub use laws::is_subseq_of;
pub use laws::lemma_bijection;
pub use laws::lemma_filter_by_subseq;
pub use laws::lemma_insert_all_fresh;
pub use laws::lemma_insert_get;
pub use laws::lemma_remove_get;
pub use laws::lemma_remove_reindex;
pub use laws::lemma_retain_exact;
pub use laws::lemma_round_trip;
pub use laws::lemma_shrink_idempotent;
pub use laws::live_after;
pub use laws::MapOp;
pub use map::VecMap;
pub use model::filter_by;
pub use model::has_key;
pub use model::keys_unique;
pub use model::lemma_max_key;
pub use model::lemma_unique_pos;
pub use model::max_key;
pub use model::min_slots_len;
pub use model::pos_of;
pub use model::seq_insert;
pub use model::seq_insert_all;
pub use model::seq_remove;
pub use model::value_of;
