use std::any::TypeId;
use vstd::prelude::*;

use crate::layout::{lemma_padded, padded};
use crate::registry::{lemma_claim_wf, lemma_lookup_at, lemma_write_wf, zeros, RegistryModel, Slot};

verus! {

/// Asking twice for the slot of one key, for one size and alignment, gives the same
/// answer, and the second request changes nothing.
pub proof fn lemma_claim_idempotent(m: RegistryModel, key: TypeId, size: nat, align: nat)
    requires
        m.wf(),
        align > 0,
    ensures
        ({
            let (m1, r1) = m.claim(key, size, align);
            m1.claim(key, size, align) == (m1, r1)
        }),
{
    let (m1, r1) = m.claim(key, size, align);
    if !m.has(key) && m.fits(size, align) {
        lemma_claim_wf(m, key, size, align);
        let i = m.keys.len() as int;
        assert(m1.keys[i] == key);
        lemma_lookup_at(m1, i);
    }
}

/// Two distinct keys, asked for one after the other, get slots that share no byte, and
/// the second request leaves the first key's slot where it was.
pub proof fn lemma_distinct_keys_disjoint(
    m: RegistryModel,
    k1: TypeId,
    size1: nat,
    align1: nat,
    k2: TypeId,
    size2: nat,
    align2: nat,
)
    requires
        m.wf(),
        align1 > 0,
        align2 > 0,
        k1 != k2,
    ensures
        ({
            let (m1, r1) = m.claim(k1, size1, align1);
            let (m2, r2) = m1.claim(k2, size2, align2);
            r1 is Some && r2 is Some ==> r1->0.disjoint(r2->0) && m2.lookup(k1) == r1
        }),
{
    let (m1, r1) = m.claim(k1, size1, align1);
    let (m2, r2) = m1.claim(k2, size2, align2);
    if r1 is Some && r2 is Some {
        lemma_claim_wf(m, k1, size1, align1);
        lemma_claim_wf(m1, k2, size2, align2);
        assert(m1.has(k1)) by {
            if !m.has(k1) {
                assert(m1.keys[m.keys.len() as int] == k1);
            }
        }
        let i = choose|i: int| 0 <= i < m1.keys.len() && m1.keys[i] == k1;
        lemma_lookup_at(m1, i);
        if m1.has(k2) {
            let j = choose|j: int| 0 <= j < m1.keys.len() && m1.keys[j] == k2;
            lemma_lookup_at(m1, j);
            if i < j {
                assert(m1.slots[i].end() <= m1.slots[j].offset);
            } else {
                assert(m1.slots[j].end() <= m1.slots[i].offset);
            }
        } else {
            assert(m1.slots[i].end() <= m1.bytes.len());
            lemma_padded(m1.bytes.len() as int, align2 as int);
            assert(m2.keys[i] == k1);
            assert(m2.slots[i] == m1.slots[i]);
            lemma_lookup_at(m2, i);
        }
    }
}

/// A key seen for the first time gets a slot of `max(size, 1)` zero bytes at a multiple of
/// `align`, past every slot handed out before; it is refused only where that slot would
/// pass `usize::MAX`.
pub proof fn lemma_fresh_slot_zeroed(m: RegistryModel, key: TypeId, size: nat, align: nat)
    requires
        m.wf(),
        align > 0,
        !m.has(key),
    ensures
        ({
            let (m1, r) = m.claim(key, size, align);
            &&& r is Some <==> padded(m.bytes.len() as int, align as int) + (if size > 1 {
                size
            } else {
                1
            }) <= usize::MAX
            &&& r is Some ==> {
                let s = r->0;
                &&& s.len as nat == (if size > 1 { size } else { 1 })
                &&& s.offset as int % align as int == 0
                &&& s.offset >= m.bytes.len()
                &&& m1.contents(s) == zeros(s.len as nat)
            }
        }),
{
    let (m1, r) = m.claim(key, size, align);
    if r is Some {
        lemma_padded(m.bytes.len() as int, align as int);
        assert(m1.contents(r->0) =~= zeros(r->0.len as nat));
    }
}

/// What is written into a key's slot is read back when the key is asked for again, and a
/// key asked for afterwards for the first time still finds only zero bytes.
pub proof fn lemma_write_persists(
    m: RegistryModel,
    k1: TypeId,
    size1: nat,
    align1: nat,
    data: Seq<u8>,
    k2: TypeId,
    size2: nat,
    align2: nat,
)
    requires
        m.wf(),
        align1 > 0,
        align2 > 0,
        !m.has(k2),
        k1 != k2,
    ensures
        ({
            let (m1, r1) = m.claim(k1, size1, align1);
            let m2 = m1.write(r1->0, data);
            r1 is Some && data.len() <= r1->0.len ==> {
                &&& m2.claim(k1, size1, align1) == (m2, r1)
                &&& m2.contents(r1->0).subrange(0, data.len() as int) == data
                &&& {
                    let (m3, r2) = m2.claim(k2, size2, align2);
                    r2 is Some ==> m3.contents(r2->0) == zeros(r2->0.len as nat)
                }
            }
        }),
{
    let (m1, r1) = m.claim(k1, size1, align1);
    if r1 is Some && data.len() <= r1->0.len {
        let s = r1->0;
        let m2 = m1.write(s, data);
        lemma_claim_wf(m, k1, size1, align1);
        lemma_claim_idempotent(m, k1, size1, align1);
        let i = choose|i: int| 0 <= i < m1.keys.len() && m1.keys[i] == k1 && m1.slots[i] == s;
        assert(m1.holds(s));
        lemma_write_wf(m1, s, data);
        assert(m2.has(k1));
        lemma_lookup_at(m2, i);
        assert(m1.slots[i].end() <= m1.bytes.len());
        assert(m2.contents(s).subrange(0, data.len() as int) =~= data);
        assert(!m2.has(k2)) by {
            if m2.has(k2) {
                let j = choose|j: int| 0 <= j < m2.keys.len() && m2.keys[j] == k2;
                if !m.has(k1) && j == m.keys.len() {
                    assert(m1.keys[j] == k1);
                } else {
                    assert(m.keys[j] == k2);
                }
            }
        }
        lemma_fresh_slot_zeroed(m2, k2, size2, align2);
    }
}

} // verus!
