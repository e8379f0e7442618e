//! Zero-initialised storage slots, one for each pair of a namespace and a type.
//!
//! A [`SlotRegistry`] owns a byte arena. Asking it for the slot of a namespace `N` and a
//! type `T` ([`Namespace::generic_static`]) hands back the same [`Slot`] every time for
//! that pair, and slots of distinct pairs never overlap. A fresh slot is sized and aligned
//! for `T` and holds only zero bytes; `T` must be certified [`Zeroable`].
//!
//! The registry is described by [`RegistryModel`]: each request is a `claim` on the model,
//! and the laws that requests obey are the `lemma_*` proof functions.
mod laws;
mod layout;
mod namespace;
mod registry;
mod zeroable;

pub use laws::{
    lemma_claim_idempotent, lemma_distinct_keys_disjoint, lemma_fresh_slot_zeroed,
    lemma_write_persists,
};
pub use layout::{align_up, cmp_max, lemma_padded, padded};
pub use namespace::Namespace;
pub use registry::{
    lemma_claim_wf, lemma_lookup_at, lemma_write_wf, zeros, RegistryModel, Slot, SlotError,
    SlotRegistry,
};
pub use zeroable::Zeroable;
