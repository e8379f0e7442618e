use std::any::TypeId;
use std::cell::UnsafeCell;
use std::marker::PhantomData;
use std::mem::{ManuallyDrop, MaybeUninit};
use std::sync::atomic::{AtomicIsize, AtomicPtr, AtomicU8, AtomicUsize};

use generic_statics::{align_up, cmp_max, Namespace, Slot, SlotError, SlotRegistry};

#[derive(Debug, Clone, Copy)]
pub struct Test;

impl Namespace for Test {}

#[derive(Debug, Clone, Copy)]
pub struct Other;

impl Namespace for Other {}

trait Foo<A: 'static> {}

struct Marker<P: ?Sized>(PhantomData<P>);

fn slot_of<T: generic_statics::Zeroable + 'static>(reg: &mut SlotRegistry) -> Slot {
    Test::generic_static::<T>(reg).unwrap()
}

fn load_usize(reg: &SlotRegistry, slot: Slot) -> usize {
    let bytes = reg.read(slot).unwrap();
    usize::from_ne_bytes(bytes[..8].try_into().unwrap())
}

fn load_isize(reg: &SlotRegistry, slot: Slot) -> isize {
    let bytes = reg.read(slot).unwrap();
    isize::from_ne_bytes(bytes[..8].try_into().unwrap())
}

#[test]
fn stable_addr() {
    let mut reg = SlotRegistry::new();
    let a = slot_of::<AtomicPtr<()>>(&mut reg);
    let b = slot_of::<AtomicPtr<()>>(&mut reg);
    assert_eq!(a, b);

    let d = slot_of::<(AtomicUsize, AtomicUsize, AtomicUsize)>(&mut reg);
    let e = slot_of::<(AtomicUsize, AtomicUsize, AtomicUsize)>(&mut reg);
    assert_eq!(d, e);

    assert_ne!(a.offset, d.offset);
}

#[test]
fn unique_address() {
    let mut reg = SlotRegistry::new();
    let a = slot_of::<AtomicUsize>(&mut reg).offset;
    let b = slot_of::<AtomicIsize>(&mut reg).offset;
    let c = slot_of::<usize>(&mut reg).offset;
    let d = slot_of::<AtomicPtr<()>>(&mut reg).offset;

    assert_ne!(a, b);
    assert_ne!(a, c);
    assert_ne!(a, d);
    assert_ne!(b, c);
    assert_ne!(b, d);
    assert_ne!(c, d);
}

#[test]
fn unique_address_dyn() {
    let mut reg = SlotRegistry::new();
    let a = slot_of::<PhantomData<dyn Foo<usize>>>(&mut reg).offset;
    let b = slot_of::<PhantomData<dyn Foo<isize>>>(&mut reg).offset;
    let c = slot_of::<PhantomData<dyn Foo<()>>>(&mut reg).offset;

    assert_ne!(a, b);
    assert_ne!(a, c);
    assert_ne!(b, c);
}

#[test]
fn mutation() {
    let mut reg = SlotRegistry::new();
    let a = slot_of::<AtomicUsize>(&mut reg);
    assert_eq!(load_usize(&reg, a), 0);
    reg.write(a, &42usize.to_ne_bytes()).unwrap();

    let b = slot_of::<AtomicUsize>(&mut reg);
    assert_eq!(load_usize(&reg, b), 42);

    let a2 = slot_of::<AtomicIsize>(&mut reg);
    assert_eq!(load_isize(&reg, a2), 0);
    assert_ne!(a.offset, a2.offset);
}

#[test]
fn namespaces_do_not_share_slots() {
    let mut reg = SlotRegistry::new();
    let a = Test::generic_static::<u64>(&mut reg).unwrap();
    let b = Other::generic_static::<u64>(&mut reg).unwrap();
    assert!(a.offset + a.len <= b.offset || b.offset + b.len <= a.offset);
    assert_eq!(Other::generic_static::<u64>(&mut reg).unwrap(), b);
    assert_eq!(Test::generic_static::<u64>(&mut reg).unwrap(), a);
}

#[test]
fn marker_parameter_decides_the_slot() {
    let mut reg = SlotRegistry::new();
    let a = slot_of::<PhantomData<Marker<u8>>>(&mut reg);
    let b = slot_of::<PhantomData<Marker<u16>>>(&mut reg);
    assert_ne!(a.offset, b.offset);
    assert_eq!(slot_of::<PhantomData<Marker<u8>>>(&mut reg), a);
}

#[test]
fn zero_sized_type_gets_one_byte() {
    let mut reg = SlotRegistry::new();
    let a = slot_of::<PhantomData<u32>>(&mut reg);
    assert_eq!(a.len, 1);
    assert_eq!(reg.read(a).unwrap(), vec![0u8]);
}

#[test]
fn slots_are_sized_and_aligned_for_the_type() {
    let mut reg = SlotRegistry::new();
    let a = slot_of::<u8>(&mut reg);
    assert_eq!(a, Slot { offset: 0, len: 1 });
    let b = slot_of::<u64>(&mut reg);
    assert_eq!(b.len, 8);
    assert_eq!(b.offset % std::mem::align_of::<u64>(), 0);
    assert!(b.offset >= 1);
    let c = slot_of::<[u16; 5]>(&mut reg);
    assert_eq!(c.len, 10);
    assert_eq!(c.offset, b.offset + 8);
}

#[test]
fn fresh_slots_hold_zero_bytes() {
    let mut reg = SlotRegistry::new();
    let a = slot_of::<(u32, bool, AtomicU8, i128)>(&mut reg);
    let bytes = reg.read(a).unwrap();
    assert_eq!(bytes.len(), std::mem::size_of::<(u32, bool, AtomicU8, i128)>());
    assert!(bytes.iter().all(|b| *b == 0));
    let b = slot_of::<(ManuallyDrop<u64>, UnsafeCell<i8>, MaybeUninit<String>)>(&mut reg);
    assert!(reg.read(b).unwrap().iter().all(|x| *x == 0));
}

#[test]
fn write_persists_and_other_types_stay_zero() {
    let mut reg = SlotRegistry::new();
    let a = slot_of::<[u8; 4]>(&mut reg);
    assert_eq!(reg.write(a, &[1, 2]), Ok(()));
    let again = slot_of::<[u8; 4]>(&mut reg);
    assert_eq!(again, a);
    assert_eq!(reg.read(again).unwrap(), vec![1, 2, 0, 0]);
    let b = slot_of::<[i8; 4]>(&mut reg);
    assert_eq!(reg.read(b).unwrap(), vec![0, 0, 0, 0]);
}

#[test]
fn write_refuses_unknown_slot_and_long_data() {
    let mut reg = SlotRegistry::new();
    let a = slot_of::<u16>(&mut reg);
    assert_eq!(reg.write(a, &[1, 2, 3]), Err(SlotError::TooLong));
    assert_eq!(reg.read(a).unwrap(), vec![0, 0]);
    let unknown = Slot { offset: 100, len: 2 };
    assert_eq!(reg.write(unknown, &[1]), Err(SlotError::UnknownSlot));
    assert_eq!(reg.read(unknown), Err(SlotError::UnknownSlot));
    assert!(reg.holds(a));
    assert!(!reg.holds(unknown));
}

#[test]
fn slot_for_keys_by_identity() {
    let mut reg = SlotRegistry::new();
    let k1 = TypeId::of::<u8>();
    let k2 = TypeId::of::<i8>();
    let a = reg.slot_for(k1, 3, 4).unwrap();
    assert_eq!(a, Slot { offset: 0, len: 3 });
    let b = reg.slot_for(k2, 0, 4).unwrap();
    assert_eq!(b, Slot { offset: 4, len: 1 });
    assert_eq!(reg.slot_for(k1, 3, 4), Some(a));
}

#[test]
fn slot_for_refuses_past_usize_max() {
    let mut reg = SlotRegistry::new();
    let a = reg.slot_for(TypeId::of::<u8>(), 1, 1).unwrap();
    assert_eq!(reg.slot_for(TypeId::of::<u16>(), usize::MAX, 1), None);
    assert_eq!(reg.slot_for(TypeId::of::<u32>(), 1, usize::MAX), None);
    assert_eq!(reg.slot_for(TypeId::of::<u8>(), 1, 1), Some(a));
}

#[test]
fn cmp_max_picks_the_larger() {
    assert_eq!(cmp_max(3, 7), 7);
    assert_eq!(cmp_max(7, 3), 7);
    assert_eq!(cmp_max(0, 1), 1);
    assert_eq!(cmp_max(5, 5), 5);
}

#[test]
fn align_up_rounds_to_a_multiple() {
    assert_eq!(align_up(0, 8), Some(0));
    assert_eq!(align_up(1, 8), Some(8));
    assert_eq!(align_up(16, 8), Some(16));
    assert_eq!(align_up(13, 5), Some(15));
    assert_eq!(align_up(usize::MAX, 2), None);
}
