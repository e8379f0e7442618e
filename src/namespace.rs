use std::any::TypeId;
use vstd::layout::{align_of, layout_for_type_is_valid, size_of};
use vstd::prelude::*;

use crate::registry::{Slot, SlotRegistry};
use crate::zeroable::Zeroable;

verus! {

/// Relies on `TypeId::of`: the identity of the pair type `(N, T)`, which is the key of
/// that pair's slot.
#[verifier::external_body]
fn pair_type_id<N: 'static, T: 'static>() -> (r: TypeId) {
    TypeId::of::<(N, T)>()
}

/// A group of slots. Two namespaces never share a slot, even for the same type.
///
/// A namespace is an empty type of the caller's, which implements this trait with no
/// items of its own.
pub trait Namespace: Sized + Copy + 'static {
    /// The slot of this namespace for type `T`: sized and aligned for `T`, zero-filled
    /// when first handed out, and the same slot on every later request. `None` only where
    /// the registry's arena would pass `usize::MAX`.
    fn generic_static<T: Zeroable + 'static>(registry: &mut SlotRegistry) -> (r: Option<Slot>)
        requires
            old(registry).wf(),
        ensures
            final(registry).wf(),
            exists|key: TypeId|
                (final(registry)@, r) == #[trigger] old(registry)@.claim(
                    key,
                    size_of::<T>(),
                    align_of::<T>(),
                ),
            r matches Some(s) ==> final(registry)@.holds(s),
    {
        let key = pair_type_id::<Self, T>();
        layout_for_type_is_valid::<T>();
        registry.slot_for(key, core::mem::size_of::<T>(), core::mem::align_of::<T>())
    }
}

} // verus!
