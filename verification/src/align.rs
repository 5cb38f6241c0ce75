//! Rounding an address down to a power-of-two boundary.
use vstd::arithmetic::div_mod::lemma_fundamental_div_mod;
use vstd::arithmetic::power::{lemma_pow_positive, pow};
use vstd::arithmetic::power2::{
    is_pow2, is_pow2_equiv, lemma2_to64, lemma_pow2_strictly_increases, pow2,
};
use vstd::bits::{low_bits_mask, lemma_usize_low_bits_mask_is_mod};
use vstd::prelude::*;

verus! {

/// The largest multiple of `a` that does not exceed `x` (for positive `a`).
pub open spec fn round_down(x: int, a: int) -> int {
    x - x % a
}

/// `round_down(x, a)` is a multiple of `a` and lies at most `a - 1` below `x`.
pub proof fn lemma_round_down(x: int, a: int)
    requires
        a > 0,
    ensures
        round_down(x, a) % a == 0,
        round_down(x, a) <= x < round_down(x, a) + a,
{
    lemma_fundamental_div_mod(x, a);
    assert(round_down(x, a) == a * (x / a));
    assert((a * (x / a)) % a == 0) by (nonlinear_arith)
        requires
            a > 0,
    ;
}

/// No multiple of `a` lies strictly between `round_down(x, a)` and `x`: a
/// multiple `m` of `a` that does not exceed `x` does not exceed
/// `round_down(x, a)` either.
pub proof fn lemma_round_down_is_largest(x: int, a: int, m: int)
    requires
        a > 0,
        m % a == 0,
        m <= x,
    ensures
        m <= round_down(x, a),
{
    lemma_fundamental_div_mod(x, a);
    lemma_fundamental_div_mod(m, a);
    assert(m / a <= x / a) by (nonlinear_arith)
        requires
            a > 0,
            m <= x,
    ;
    assert(a * (m / a) <= a * (x / a)) by (nonlinear_arith)
        requires
            a > 0,
            m / a <= x / a,
    ;
}

/// A power of two is `pow2(n)` for some exponent `n`, and is at least one.
pub proof fn lemma_power_of_two_exponent(a: int) -> (n: nat)
    requires
        is_pow2(a),
    ensures
        pow2(n) == a,
        a >= 1,
{
    is_pow2_equiv(a);
    let n: nat = choose|n: nat| pow(2, n) == a;
    lemma_pow_positive(2, n);
    n
}

/// Clearing the low bits of `x` with the mask `!(a - 1)` rounds `x` down to a
/// multiple of `a`, whenever `a` is a power of two.
pub proof fn lemma_mask_rounds_down(x: usize, a: usize)
    requires
        is_pow2(a as int),
    ensures
        a >= 1,
        x & !((a - 1) as usize) == round_down(x as int, a as int),
{
    let n: nat = lemma_power_of_two_exponent(a as int);
    lemma2_to64();
    if n >= usize::BITS {
        if usize::BITS == 32 {
            if n > 32 {
                lemma_pow2_strictly_increases(32, n);
            }
        } else {
            if n > 64 {
                lemma_pow2_strictly_increases(64, n);
            }
        }
        assert(false);
    }
    let m: usize = (a - 1) as usize;
    assert(low_bits_mask(n) == m);
    lemma_usize_low_bits_mask_is_mod(x, n);
    assert(x & m == x % a);
    assert(x & !m == x - (x & m)) by (bit_vector);
}

/// A machine word is a power of two exactly when it is not zero and shares no
/// bit with its predecessor.
pub proof fn lemma_single_bit_iff_power_of_two(a: usize)
    ensures
        (a != 0 && a & ((a - 1) as usize) == 0) <==> is_pow2(a as int),
    decreases a,
{
    reveal(is_pow2);
    if a == 1 {
        assert(1usize & 0usize == 0) by (bit_vector);
    } else if a >= 2 {
        let h: usize = a / 2;
        lemma_single_bit_iff_power_of_two(h);
        if a % 2 == 0 {
            assert(a & ((a - 1) as usize) == 0 <==> h & ((h - 1) as usize) == 0) by (bit_vector)
                requires
                    a >= 2,
                    a % 2 == 0,
                    h == a / 2,
            ;
        } else {
            assert(a & ((a - 1) as usize) != 0) by (bit_vector)
                requires
                    a >= 2,
                    a % 2 == 1,
            ;
        }
    }
}

/// Tells whether `a` is a power of two.
pub fn is_power_of_two(a: usize) -> (yes: bool)
    ensures
        yes == is_pow2(a as int),
        yes ==> a >= 1,
{
    proof {
        lemma_single_bit_iff_power_of_two(a);
    }
    a != 0 && a & (a - 1) == 0
}

/// Rounds the address `x` down to a multiple of the power of two `a`.
pub fn align_down(x: usize, a: usize) -> (r: usize)
    requires
        is_pow2(a as int),
    ensures
        r == round_down(x as int, a as int),
{
    proof {
        lemma_mask_rounds_down(x, a);
    }
    x & !(a - 1)
}

} // verus!
