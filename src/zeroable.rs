use std::cell::UnsafeCell;
use std::marker::PhantomData;
use std::mem::{ManuallyDrop, MaybeUninit};
use std::sync::atomic::{
    AtomicBool, AtomicI16, AtomicI32, AtomicI64, AtomicI8, AtomicIsize, AtomicPtr, AtomicU16,
    AtomicU32, AtomicU64, AtomicU8, AtomicUsize,
};
use vstd::prelude::*;

verus! {

/// std's `AtomicPtr`, declared so that it can be certified below.
#[verifier::external_type_specification]
#[verifier::external_body]
#[verifier::reject_recursive_types(T)]
pub struct ExAtomicPtr<T>(AtomicPtr<T>);

/// std's `UnsafeCell`, declared so that it can be certified below.
#[verifier::external_type_specification]
#[verifier::external_body]
#[verifier::reject_recursive_types(T)]
pub struct ExUnsafeCell<T: ?Sized>(UnsafeCell<T>);

/// Types for which the value whose bytes are all zero is a valid value.
///
/// A type is certified by implementing this trait for it; nothing checks the claim, so
/// implement it only for a type that has such a value and keeps no invariant that an
/// all-zero value would break (a reference, or a pointer that must not be null, would).
pub trait Zeroable: Sized {}

impl Zeroable for i8 {}

impl Zeroable for i16 {}

impl Zeroable for i32 {}

impl Zeroable for i64 {}

impl Zeroable for i128 {}

impl Zeroable for isize {}

impl Zeroable for u8 {}

impl Zeroable for u16 {}

impl Zeroable for u32 {}

impl Zeroable for u64 {}

impl Zeroable for u128 {}

impl Zeroable for usize {}

impl Zeroable for bool {}

impl Zeroable for AtomicBool {}

impl Zeroable for AtomicI8 {}

impl Zeroable for AtomicI16 {}

impl Zeroable for AtomicI32 {}

impl Zeroable for AtomicI64 {}

impl Zeroable for AtomicIsize {}

impl Zeroable for AtomicU8 {}

impl Zeroable for AtomicU16 {}

impl Zeroable for AtomicU32 {}

impl Zeroable for AtomicU64 {}

impl Zeroable for AtomicUsize {}

impl<T> Zeroable for AtomicPtr<T> {}

impl<T> Zeroable for MaybeUninit<T> {}

impl<T: Zeroable> Zeroable for ManuallyDrop<T> {}

impl<T: Zeroable> Zeroable for UnsafeCell<T> {}

impl<T: ?Sized> Zeroable for PhantomData<T> {}

impl<T: Zeroable, const N: usize> Zeroable for [T; N] {}

impl<A: Zeroable> Zeroable for (A,) {}

impl<A: Zeroable, B: Zeroable> Zeroable for (A, B) {}

impl<A: Zeroable, B: Zeroable, C: Zeroable> Zeroable for (A, B, C) {}

impl<A: Zeroable, B: Zeroable, C: Zeroable, D: Zeroable> Zeroable for (A, B, C, D) {}

impl<A: Zeroable, B: Zeroable, C: Zeroable, D: Zeroable, E: Zeroable> Zeroable for (
    A,
    B,
    C,
    D,
    E,
) {}

impl<A: Zeroable, B: Zeroable, C: Zeroable, D: Zeroable, E: Zeroable, F: Zeroable> Zeroable for (
    A,
    B,
    C,
    D,
    E,
    F,
) {}

impl<
    A: Zeroable,
    B: Zeroable,
    C: Zeroable,
    D: Zeroable,
    E: Zeroable,
    F: Zeroable,
    G: Zeroable,
> Zeroable for (A, B, C, D, E, F, G) {}

impl<
    A: Zeroable,
    B: Zeroable,
    C: Zeroable,
    D: Zeroable,
    E: Zeroable,
    F: Zeroable,
    G: Zeroable,
    H: Zeroable,
> Zeroable for (A, B, C, D, E, F, G, H) {}

} // verus!
