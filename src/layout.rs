use vstd::prelude::*;

verus! {

/// The larger of two sizes.
pub fn cmp_max(a: usize, b: usize) -> (r: usize)
    ensures
        r == if a > b { a } else { b },
{
    if a > b {
        a
    } else {
        b
    }
}

/// The smallest multiple of `align` that is at least `n`.
pub open spec fn padded(n: int, align: int) -> int
    recommends
        align > 0,
{
    if n % align == 0 {
        n
    } else {
        n + (align - n % align)
    }
}

/// `padded` lands on a multiple of the alignment and skips less than one alignment.
pub proof fn lemma_padded(n: int, align: int)
    requires
        n >= 0,
        align > 0,
    ensures
        padded(n, align) % align == 0,
        n <= padded(n, align) < n + align,
{
    vstd::arithmetic::div_mod::lemma_fundamental_div_mod(n, align);
    vstd::arithmetic::div_mod::lemma_mod_bound(n, align);
    if n % align != 0 {
        let q = n / align;
        assert(padded(n, align) == align * (q + 1)) by (nonlinear_arith)
            requires
                n == align * q + n % align,
                padded(n, align) == n + (align - n % align),
        ;
        vstd::arithmetic::div_mod::lemma_mod_multiples_basic(q + 1, align);
        assert((q + 1) * align == align * (q + 1)) by (nonlinear_arith);
    }
}

/// Rounds `n` up to a multiple of `align`; `None` where that exceeds `usize::MAX`.
pub fn align_up(n: usize, align: usize) -> (r: Option<usize>)
    requires
        align > 0,
    ensures
        match r {
            Some(v) => v == padded(n as int, align as int),
            None => padded(n as int, align as int) > usize::MAX,
        },
{
    let rem = n % align;
    if rem == 0 {
        Some(n)
    } else {
        n.checked_add(align - rem)
    }
}

} // verus!
