use std::any::TypeId;
use vstd::prelude::*;

use crate::layout::{align_up, cmp_max, lemma_padded, padded};

verus! {

/// std's `TypeId`, carried unopened as the key of a slot.
#[verifier::external_type_specification]
#[verifier::external_body]
pub struct ExTypeId(TypeId);

/// Relies on `<TypeId as PartialEq>::eq`: two identities compare equal exactly when they are
/// the same value.
#[verifier::external_body]
fn same_type(a: &TypeId, b: &TypeId) -> (r: bool)
    ensures
        r == (*a == *b),
{
    *a == *b
}

/// A run of bytes of the arena, handed out for one key.
#[derive(Clone, Copy, Debug, PartialEq, Eq, Structural)]
pub struct Slot {
    pub offset: usize,
    pub len: usize,
}

impl Slot {
    /// One past the last byte of the slot.
    pub open spec fn end(self) -> int {
        self.offset + self.len
    }

    /// The two slots share no byte.
    pub open spec fn disjoint(self, other: Slot) -> bool {
        self.end() <= other.offset || other.end() <= self.offset
    }
}

/// Why a read or a write of a slot was refused.
#[derive(Clone, Copy, Debug, PartialEq, Eq, Structural)]
pub enum SlotError {
    /// The slot was not handed out by this registry.
    UnknownSlot,
    /// The data is longer than the slot.
    TooLong,
}

/// `n` zero bytes.
pub open spec fn zeros(n: nat) -> Seq<u8> {
    Seq::new(n, |_i: int| 0u8)
}

/// What a registry holds: the keys in the order they were first seen, the slot of each,
/// and the arena's bytes.
pub ghost struct RegistryModel {
    pub keys: Seq<TypeId>,
    pub slots: Seq<Slot>,
    pub bytes: Seq<u8>,
}

impl RegistryModel {
    pub open spec fn empty() -> RegistryModel {
        RegistryModel { keys: Seq::empty(), slots: Seq::empty(), bytes: Seq::empty() }
    }

    /// Keys are distinct, each slot is non-empty, lies in the arena, and follows the
    /// slot handed out before it.
    pub open spec fn wf(self) -> bool {
        &&& self.keys.len() == self.slots.len()
        &&& self.bytes.len() <= usize::MAX
        &&& forall|i: int, j: int|
            0 <= i < j < self.keys.len() ==> self.keys[i] != self.keys[j]
        &&& forall|i: int|
            0 <= i < self.slots.len() ==> 1 <= (#[trigger] self.slots[i]).len && self.slots[i].end()
                <= self.bytes.len()
        &&& forall|i: int, j: int|
            0 <= i < j < self.slots.len() ==> (#[trigger] self.slots[i]).end()
                <= (#[trigger] self.slots[j]).offset
    }

    /// The key has a slot.
    pub open spec fn has(self, key: TypeId) -> bool {
        exists|i: int| 0 <= i < self.keys.len() && self.keys[i] == key
    }

    /// The slot of the key, if it has one.
    pub open spec fn lookup(self, key: TypeId) -> Option<Slot> {
        if self.has(key) {
            Some(self.slots[choose|i: int| 0 <= i < self.keys.len() && self.keys[i] == key])
        } else {
            None
        }
    }

    /// The slot was handed out by this registry.
    pub open spec fn holds(self, slot: Slot) -> bool {
        exists|i: int| 0 <= i < self.slots.len() && self.slots[i] == slot
    }

    /// The slot a key seen for the first time gets: at the first offset past the arena
    /// that is a multiple of `align`, `size` bytes long, and at least one byte.
    pub open spec fn next_slot(self, size: nat, align: nat) -> Slot {
        Slot {
            offset: padded(self.bytes.len() as int, align as int) as usize,
            len: (if size > 1 { size } else { 1 }) as usize,
        }
    }

    /// The next slot fits below `usize::MAX`.
    pub open spec fn fits(self, size: nat, align: nat) -> bool {
        padded(self.bytes.len() as int, align as int) + (if size > 1 { size } else { 1 })
            <= usize::MAX
    }

    /// Asking for the slot of `key`, for a value of the given size and alignment: the slot
    /// it already has; else a fresh, zero-filled one; else, where the arena cannot grow
    /// that far, nothing.
    pub open spec fn claim(self, key: TypeId, size: nat, align: nat) -> (RegistryModel, Option<Slot>) {
        if self.has(key) {
            (self, self.lookup(key))
        } else if self.fits(size, align) {
            let s = self.next_slot(size, align);
            (
                RegistryModel {
                    keys: self.keys.push(key),
                    slots: self.slots.push(s),
                    bytes: self.bytes + zeros((s.end() - self.bytes.len()) as nat),
                },
                Some(s),
            )
        } else {
            (self, None)
        }
    }

    /// The bytes of a slot.
    pub open spec fn contents(self, slot: Slot) -> Seq<u8> {
        self.bytes.subrange(slot.offset as int, slot.end())
    }

    /// `data` written over the start of the slot.
    pub open spec fn write(self, slot: Slot, data: Seq<u8>) -> RegistryModel {
        RegistryModel {
            bytes: self.bytes.subrange(0, slot.offset as int) + data + self.bytes.subrange(
                slot.offset + data.len(),
                self.bytes.len() as int,
            ),
            ..self
        }
    }
}

/// With distinct keys, the slot of a key is the one at its index.
pub proof fn lemma_lookup_at(m: RegistryModel, i: int)
    requires
        m.wf(),
        0 <= i < m.keys.len(),
    ensures
        m.has(m.keys[i]),
        m.lookup(m.keys[i]) == Some(m.slots[i]),
{
    let key = m.keys[i];
    assert(m.has(key));
    let j = choose|j: int| 0 <= j < m.keys.len() && m.keys[j] == key;
    if j != i {
        if j < i {
            assert(m.keys[j] != m.keys[i]);
        } else {
            assert(m.keys[i] != m.keys[j]);
        }
    }
}

/// A claim keeps the registry well formed.
pub proof fn lemma_claim_wf(m: RegistryModel, key: TypeId, size: nat, align: nat)
    requires
        m.wf(),
        align > 0,
    ensures
        m.claim(key, size, align).0.wf(),
{
    if !m.has(key) && m.fits(size, align) {
        lemma_padded(m.bytes.len() as int, align as int);
        let n = m.claim(key, size, align).0;
        assert forall|i: int, j: int| 0 <= i < j < n.keys.len() implies n.keys[i] != n.keys[j] by {
            if j == m.keys.len() {
                assert(m.keys[i] != key);
            }
        }
        assert forall|i: int, j: int| 0 <= i < j < n.slots.len() implies (#[trigger] n.slots[i]).end()
            <= (#[trigger] n.slots[j]).offset by {
            if j == m.slots.len() {
                assert(m.slots[i].end() <= m.bytes.len());
            }
        }
    }
}

/// Writing inside a slot keeps the registry well formed and its slots as they were.
pub proof fn lemma_write_wf(m: RegistryModel, slot: Slot, data: Seq<u8>)
    requires
        m.wf(),
        m.holds(slot),
        data.len() <= slot.len,
    ensures
        m.write(slot, data).wf(),
        m.write(slot, data).keys == m.keys,
        m.write(slot, data).slots == m.slots,
        m.write(slot, data).bytes.len() == m.bytes.len(),
{
    let i = choose|i: int| 0 <= i < m.slots.len() && m.slots[i] == slot;
    assert(m.slots[i].end() <= m.bytes.len());
}

/// Zero-initialised storage, one slot per key.
pub struct SlotRegistry {
    keys: Vec<TypeId>,
    slots: Vec<Slot>,
    bytes: Vec<u8>,
}

impl View for SlotRegistry {
    type V = RegistryModel;

    closed spec fn view(&self) -> RegistryModel {
        RegistryModel { keys: self.keys@, slots: self.slots@, bytes: self.bytes@ }
    }
}

impl SlotRegistry {
    /// The registry's model is well formed: `new` makes it so and every method keeps it so.
    pub open spec fn wf(&self) -> bool {
        self@.wf()
    }

    /// A registry with no slots.
    pub fn new() -> (r: SlotRegistry)
        ensures
            r@ == RegistryModel::empty(),
            r.wf(),
    {
        SlotRegistry { keys: Vec::new(), slots: Vec::new(), bytes: Vec::new() }
    }

    /// The index of the key, if it has a slot.
    fn find(&self, key: &TypeId) -> (r: Option<usize>)
        requires
            self.wf(),
        ensures
            match r {
                Some(i) => i < self@.keys.len() && self@.keys[i as int] == *key,
                None => !self@.has(*key),
            },
    {
        let mut i: usize = 0;
        while i < self.keys.len()
            invariant
                i <= self.keys@.len(),
                forall|j: int| 0 <= j < i ==> self.keys@[j] != *key,
            decreases self.keys@.len() - i,
        {
            if same_type(&self.keys[i], key) {
                return Some(i);
            }
            i = i + 1;
        }
        assert(self@.keys == self.keys@);
        None
    }

    /// The slot of `key`, for a value of the given size and alignment: the one it already
    /// has, else a fresh one of `max(size, 1)` zero bytes at a multiple of `align`.
    /// `None` only where the arena would pass `usize::MAX`.
    pub fn slot_for(&mut self, key: TypeId, size: usize, align: usize) -> (r: Option<Slot>)
        requires
            old(self).wf(),
            align > 0,
        ensures
            final(self).wf(),
            (final(self)@, r) == old(self)@.claim(key, size as nat, align as nat),
            r matches Some(s) ==> final(self)@.holds(s) && final(self)@.lookup(key) == Some(s),
            forall|s: Slot| old(self)@.holds(s) ==> #[trigger] final(self)@.holds(s),
    {
        match self.find(&key) {
            Some(i) => {
                proof {
                    lemma_lookup_at(self@, i as int);
                    assert(self@.slots[i as int] == self.slots@[i as int]);
                }
                Some(self.slots[i])
            },
            None => {
                let ghost m = self@;
                let offset = match align_up(self.bytes.len(), align) {
                    Some(o) => o,
                    None => {
                        return None;
                    },
                };
                let len = cmp_max(size, 1);
                let end = match offset.checked_add(len) {
                    Some(e) => e,
                    None => {
                        return None;
                    },
                };
                proof {
                    lemma_padded(m.bytes.len() as int, align as int);
                }
                let ghost old_bytes = self.bytes@;
                while self.bytes.len() < end
                    invariant
                        old_bytes.len() <= self.bytes@.len() <= end,
                        self.keys@ == m.keys,
                        self.slots@ == m.slots,
                        self.bytes@ == old_bytes + zeros((self.bytes@.len() - old_bytes.len()) as nat),
                    decreases end - self.bytes@.len(),
                {
                    self.bytes.push(0u8);
                    assert(self.bytes@ =~= old_bytes + zeros((self.bytes@.len() - old_bytes.len()) as nat));
                }
                let s = Slot { offset, len };
                self.keys.push(key);
                self.slots.push(s);
                proof {
                    assert(self@.keys =~= m.keys.push(key));
                    assert(self@.slots =~= m.slots.push(s));
                    lemma_claim_wf(m, key, size as nat, align as nat);
                    assert(self@.slots[m.slots.len() as int] == s);
                    assert(self@.keys[m.keys.len() as int] == key);
                    lemma_lookup_at(self@, m.keys.len() as int);
                    assert forall|t: Slot| m.holds(t) implies #[trigger] self@.holds(t) by {
                        let j = choose|j: int| 0 <= j < m.slots.len() && m.slots[j] == t;
                        assert(self@.slots[j] == t);
                    }
                }
                Some(s)
            },
        }
    }

    /// Whether the slot was handed out by this registry.
    pub fn holds(&self, slot: Slot) -> (r: bool)
        requires
            self.wf(),
        ensures
            r == self@.holds(slot),
    {
        let mut i: usize = 0;
        while i < self.slots.len()
            invariant
                i <= self.slots@.len(),
                forall|j: int| 0 <= j < i ==> self.slots@[j] != slot,
            decreases self.slots@.len() - i,
        {
            if self.slots[i] == slot {
                assert(self@.slots[i as int] == slot);
                return true;
            }
            i = i + 1;
        }
        assert(self@.slots == self.slots@);
        false
    }

    /// A copy of the slot's bytes, if the registry handed it out.
    pub fn read(&self, slot: Slot) -> (r: Result<Vec<u8>, SlotError>)
        requires
            self.wf(),
        ensures
            match r {
                Ok(v) => self@.holds(slot) && v@ == self@.contents(slot),
                Err(e) => !self@.holds(slot) && e == SlotError::UnknownSlot,
            },
    {
        if !self.holds(slot) {
            return Err(SlotError::UnknownSlot);
        }
        let ghost i = choose|i: int| 0 <= i < self@.slots.len() && self@.slots[i] == slot;
        assert(self@.slots[i].end() <= self@.bytes.len());
        let mut out: Vec<u8> = Vec::new();
        let mut k: usize = 0;
        while k < slot.len
            invariant
                k <= slot.len,
                slot.end() <= self.bytes@.len() <= usize::MAX,
                out@ == self.bytes@.subrange(slot.offset as int, slot.offset + k),
            decreases slot.len - k,
        {
            out.push(self.bytes[slot.offset + k]);
            k = k + 1;
            assert(out@ =~= self.bytes@.subrange(slot.offset as int, slot.offset + k));
        }
        Ok(out)
    }

    /// Writes `data` over the start of the slot. Refused, with nothing changed, where the
    /// registry did not hand the slot out or the data is longer than the slot.
    pub fn write(&mut self, slot: Slot, data: &[u8]) -> (r: Result<(), SlotError>)
        requires
            old(self).wf(),
        ensures
            final(self).wf(),
            match r {
                Ok(()) => old(self)@.holds(slot) && data@.len() <= slot.len && final(self)@
                    == old(self)@.write(slot, data@),
                Err(SlotError::UnknownSlot) => !old(self)@.holds(slot) && final(self)@ == old(
                    self,
                )@,
                Err(SlotError::TooLong) => old(self)@.holds(slot) && data@.len() > slot.len
                    && final(self)@ == old(self)@,
            },
    {
        if !self.holds(slot) {
            return Err(SlotError::UnknownSlot);
        }
        if data.len() > slot.len {
            return Err(SlotError::TooLong);
        }
        let ghost m = self@;
        let ghost i = choose|i: int| 0 <= i < m.slots.len() && m.slots[i] == slot;
        assert(m.slots[i].end() <= m.bytes.len());
        let mut k: usize = 0;
        while k < data.len()
            invariant
                k <= data@.len() <= slot.len,
                slot.end() <= m.bytes.len() <= usize::MAX,
                self.keys@ == m.keys,
                self.slots@ == m.slots,
                self.bytes@.len() == m.bytes.len(),
                forall|j: int|
                    0 <= j < self.bytes@.len() ==> #[trigger] self.bytes@[j] == if slot.offset <= j
                        < slot.offset + k {
                        data@[j - slot.offset]
                    } else {
                        m.bytes[j]
                    },
            decreases data@.len() - k,
        {
            self.bytes.set(slot.offset + k, data[k]);
            k = k + 1;
        }
        assert(self@.bytes =~= m.write(slot, data@).bytes);
        Ok(())
    }
}

} // verus!
