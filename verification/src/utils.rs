//! Small numeric helpers.

use vstd::prelude::*;
use vstd::arithmetic::power2::*;
use vstd::arithmetic::div_mod::*;

verus! {

/// `s` rounded up to a multiple of `alignment`. Where the rounded value would
/// not fit, `s` comes back as it is.
pub open spec fn aligned_up(alignment: usize, s: usize) -> usize {
    if s > usize::MAX - (alignment - 1) {
        s
    } else {
        (((s + (alignment - 1)) / alignment as int) * alignment) as usize
    }
}

/// Rounds `s` up to a multiple of `alignment`.
#[inline]
pub fn align(alignment: usize, s: usize) -> (r: usize)
    requires
        alignment > 0,
    ensures
        r == aligned_up(alignment, s),
        r >= s,
{
    if s > usize::MAX - (alignment - 1) {
        s
    } else {
        let t: usize = s + (alignment - 1);
        let q: usize = t / alignment;
        proof {
            lemma_fundamental_div_mod(t as int, alignment as int);
            lemma_mod_bound(t as int, alignment as int);
            assert(q * alignment == alignment * q) by (nonlinear_arith);
        }
        q * alignment
    }
}

/// `2^order` as a machine number.
pub fn pow2_usize(order: u32) -> (r: usize)
    requires
        order <= 30,
    ensures
        r == pow2(order as nat),
        1 <= r <= 0x4000_0000,
{
    let mut r: usize = 1;
    let mut i: u32 = 0;
    proof {
        lemma2_to64();
    }
    while i < order
        invariant
            i <= order <= 30,
            r == pow2(i as nat),
            1 <= r <= 0x4000_0000,
        decreases order - i,
    {
        proof {
            lemma2_to64();
            lemma_pow2_unfold((i + 1) as nat);
            if i + 1 < 30 {
                lemma_pow2_strictly_increases((i + 1) as nat, 30);
            }
        }
        r = r * 2;
        i = i + 1;
    }
    r
}

/// The product of two 32-bit numbers, which always fits 64 bits.
#[inline]
pub fn i64_mul(a: i32, b: i32) -> (r: i64)
    ensures
        r == a * b,
{
    proof {
        lemma_product_bound(a as int, b as int, 0x8000_0000, 0x8000_0000);
    }
    (a as i64) * (b as i64)
}

/// The magnitude of a 32-bit number, which always fits 32 bits without a sign.
#[inline]
pub fn u32_abs(n: i32) -> (r: u32)
    ensures
        r == if n < 0 { -(n as int) } else { n as int },
{
    if n == i32::MIN {
        2147483648u32
    } else if n < 0 {
        (-n) as u32
    } else {
        n as u32
    }
}

/// A product is bounded by the product of the bounds of its factors.
pub proof fn lemma_product_bound(a: int, b: int, a_max: int, b_max: int)
    requires
        -a_max <= a <= a_max,
        -b_max <= b <= b_max,
    ensures
        -(a_max * b_max) <= a * b <= a_max * b_max,
{
    assert(-(a_max * b_max) <= a * b <= a_max * b_max) by (nonlinear_arith)
        requires
            -a_max <= a <= a_max,
            -b_max <= b <= b_max,
    ;
}

} // verus!
