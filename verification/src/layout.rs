//! Page arithmetic shared by the segment builders.

use vstd::prelude::*;
use vstd::arithmetic::power2::{pow2, lemma_pow2_pos, lemma2_to64};
use vstd::bits::{low_bits_mask, lemma_usize_low_bits_mask_is_mod};

verus! {

/// Standard page size used for memory mapping operations.
pub const PAGE_SIZE: usize = 0x1000;

/// Mask used to align addresses down to page boundaries.
pub const MASK: usize = !(PAGE_SIZE - 1);

/// `a` is a power of two that fits in a `usize`.
pub open spec fn is_pow2(a: usize) -> bool {
    exists|n: nat| n < usize::BITS && a == pow2(n)
}

/// The smallest multiple of `align` that is at least `x`.
pub open spec fn spec_roundup(x: int, align: int) -> int {
    if align <= 0 { x } else { ((x + align - 1) / align) * align }
}

/// The largest multiple of `align` that is at most `x`.
pub open spec fn spec_rounddown(x: int, align: int) -> int {
    if align <= 0 { x } else { (x / align) * align }
}

proof fn lemma_mask_is_mod(y: usize, a: usize)
    requires
        is_pow2(a),
    ensures
        a > 0,
        y & !((a - 1) as usize) == y - y % a,
{
    let n = choose|n: nat| n < usize::BITS && a == pow2(n);
    lemma_pow2_pos(n);
    lemma_usize_low_bits_mask_is_mod(y, n);
    assert(low_bits_mask(n) == pow2(n) - 1);
    let m = (a - 1) as usize;
    assert(y & !m == y - (y & m)) by (bit_vector);
}

proof fn lemma_div_mul_is_sub_mod(y: int, a: int)
    requires
        a > 0,
        y >= 0,
    ensures
        (y / a) * a == y - y % a,
{
    vstd::arithmetic::div_mod::lemma_fundamental_div_mod(y, a);
    vstd::arithmetic::mul::lemma_mul_is_commutative(a, y / a);
}

/// Round `x` up to a multiple of `align` (a power of two, or zero for no
/// alignment).
pub fn roundup(x: usize, align: usize) -> (r: usize)
    requires
        align == 0 || is_pow2(align),
        x + align <= usize::MAX + 1,
    ensures
        r == spec_roundup(x as int, align as int),
        align > 0 ==> r % align == 0,
        x <= r,
        align > 0 ==> r < x + align,
{
    if align == 0 {
        return x;
    }
    let y = x + (align - 1);
    let r = y & !(align - 1);
    proof {
        lemma_mask_is_mod(y, align);
        lemma_div_mul_is_sub_mod(y as int, align as int);
        vstd::arithmetic::div_mod::lemma_fundamental_div_mod(y as int, align as int);
        vstd::arithmetic::div_mod::lemma_mod_multiples_basic(y as int / align as int, align as int);
    }
    r
}

/// Round `x` down to a multiple of `align` (a power of two).
pub fn rounddown(x: usize, align: usize) -> (r: usize)
    requires
        is_pow2(align),
    ensures
        r == spec_rounddown(x as int, align as int),
        r % align == 0,
        r <= x,
        x < r + align,
{
    proof {
        lemma_mask_is_mod(x, align);
    }
    let r = x & !(align - 1);
    proof {
        lemma_mask_is_mod(x, align);
        lemma_div_mul_is_sub_mod(x as int, align as int);
        vstd::arithmetic::div_mod::lemma_mod_multiples_basic(x as int / align as int, align as int);
    }
    r
}

/// `PAGE_SIZE` is a power of two.
pub proof fn lemma_page_size_pow2()
    ensures
        is_pow2(PAGE_SIZE),
        PAGE_SIZE == 4096,
{
    lemma2_to64();
    assert(PAGE_SIZE == pow2(12));
}

} // verus!
