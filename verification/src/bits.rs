//! Alignment arithmetic shared by the device layer and the write path.
//!
//! An alignment is always a power of two. `align_up` rounds a length up to the
//! next multiple of the alignment, `align_down` rounds an offset down, and
//! `is_aligned` tests for an exact multiple.

use vstd::prelude::*;

verus! {

/// True if `align` is a power of two (and hence non-zero).
pub open spec fn is_pow2(align: usize) -> bool
    decreases align,
{
    if align == 0 {
        false
    } else if align == 1 {
        true
    } else {
        align % 2 == 0 && is_pow2(align / 2)
    }
}

/// True if `v` is a multiple of `align`.
pub open spec fn spec_is_aligned(align: usize, v: usize) -> bool
    recommends
        align > 0,
{
    (v as int) % (align as int) == 0
}

/// `v` rounded down to a multiple of `align`.
pub open spec fn spec_align_down(align: usize, v: usize) -> int
    recommends
        align > 0,
{
    v - (v as int) % (align as int)
}

/// `v` rounded up to a multiple of `align`.
pub open spec fn spec_align_up(align: usize, v: usize) -> int
    recommends
        align > 0,
{
    if (v as int) % (align as int) == 0 {
        v as int
    } else {
        v + align - (v as int) % (align as int)
    }
}

/// Test whether `v` is a multiple of `align`.
pub fn is_aligned(align: usize, v: usize) -> (r: bool)
    requires
        align > 0,
    ensures
        r == spec_is_aligned(align, v),
{
    v % align == 0
}

/// Round `v` down to a multiple of `align`.
pub fn align_down(align: usize, v: usize) -> (r: usize)
    requires
        align > 0,
    ensures
        r == spec_align_down(align, v),
        r <= v,
        spec_is_aligned(align, r),
{
    let rem = v % align;
    proof {
        vstd::arithmetic::div_mod::lemma_mod_bound(v as int, align as int);
        vstd::arithmetic::div_mod::lemma_fundamental_div_mod(v as int, align as int);
        vstd::arithmetic::div_mod::lemma_mod_multiples_basic(
            (v as int) / (align as int),
            align as int,
        );
        assert(v as int - rem as int == ((v as int) / (align as int)) * (align as int)) by {
            vstd::arithmetic::mul::lemma_mul_is_commutative(
                align as int,
                (v as int) / (align as int),
            );
        }
        assert(rem <= v) by {
            if v < align {
                vstd::arithmetic::div_mod::lemma_small_mod(v as nat, align as nat);
            }
        }
    }
    v - rem
}

/// Round `v` up to a multiple of `align`.
pub fn align_up(align: usize, v: usize) -> (r: usize)
    requires
        align > 0,
        v + align <= usize::MAX,
    ensures
        r == spec_align_up(align, v),
        v <= r < v + align,
        spec_is_aligned(align, r),
{
    let rem = v % align;
    proof {
        vstd::arithmetic::div_mod::lemma_mod_bound(v as int, align as int);
        if rem != 0 {
            vstd::arithmetic::div_mod::lemma_mod_add_multiples_vanish(v as int, align as int);
            vstd::arithmetic::div_mod::lemma_fundamental_div_mod(
                v as int + align as int,
                align as int,
            );
            vstd::arithmetic::div_mod::lemma_mod_multiples_basic(
                (v as int + align as int) / (align as int),
                align as int,
            );
            assert((v + align - rem) as int == ((v as int + align as int) / (align as int)) * (
            align as int)) by {
                vstd::arithmetic::mul::lemma_mul_is_commutative(
                    align as int,
                    (v as int + align as int) / (align as int),
                );
            }
        }
    }
    if rem == 0 {
        v
    } else {
        v + (align - rem)
    }
}

/// The sum of two aligned values is aligned.
pub proof fn lemma_aligned_sum(align: usize, x: int, y: int)
    requires
        align > 0,
        x % (align as int) == 0,
        y % (align as int) == 0,
    ensures
        (x + y) % (align as int) == 0,
{
    vstd::arithmetic::div_mod::lemma_add_mod_noop(x, y, align as int);
    vstd::arithmetic::div_mod::lemma_small_mod(0nat, align as nat);
}

} // verus!
