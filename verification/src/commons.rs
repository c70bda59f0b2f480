//! Random draws.
//!
//! The bits come from the generator of the crate `rand`; what number they make
//! is worked out here, in whole numbers, and is the number that a draw from
//! zero to one, moved or stretched to its range, comes to exactly.

use vstd::prelude::*;
use vstd::arithmetic::power2::{
    lemma2_to64, lemma2_to64_rest, lemma_pow2_adds, lemma_pow2_pos, lemma_pow2_strictly_increases, pow2,
};
use crate::scalar::{
    at_most, exponent, fraction, is_finite, lemma_constants, lemma_order_of_codes, lemma_stands_for,
    lemma_steps_of_negated, less, stands_for, steps, unit, Scalar, FRACTIONS, HALF, NEG_HALF, NEG_ONE, ONE,
    ZERO,
};

verus! {

/// Draws 64 bits from the thread-local generator of the crate `rand`, by its
/// function `random`. Nothing is claimed of the bits: they are random.
#[verifier::external_body]
fn random_bits() -> (bits: u64) {
    rand::random::<u64>()
}

/// The fraction that 64 random bits give: the 52 bits at the top, as a whole
/// number.
pub open spec fn top_bits(bits: u64) -> int {
    bits as int / 4096
}

/// Whether `x` is a number that a draw can give: for some 64 bits, the
/// fraction that they give, less `shift`, over `den`.
pub open spec fn drawn(x: Scalar, shift: int, den: int) -> bool {
    exists|bits: u64| #[trigger] stands_for(x, top_bits(bits) - shift, den)
}

/// The code of `num` over two to the power of 52, a number that is held
/// exactly as long as `num` has no more than 53 bits.
pub fn fraction_of(num: i64) -> (x: Scalar)
    requires
        -0x20_0000_0000_0000 < num < 0x20_0000_0000_0000,
    ensures
        stands_for(x, num as int, FRACTIONS as int),
        (x < 0) == (num < 0),
        (x == 0) == (num == 0),
        num != 0 ==> 971 <= exponent(x) <= 1023,
{
    proof {
        lemma2_to64();
        lemma2_to64_rest();
        lemma_pow2_pos(1074);
    }
    if num == 0 {
        assert(exponent(ZERO) == 0 && fraction(ZERO) == 0);
        return ZERO;
    }
    let m: i64 = if num < 0 { -num } else { num };
    // Bring the leading bit to the place of the one before the point, and
    // count the places in the exponent.
    let mut significand: i64 = m;
    let mut e: i64 = 1023;
    assert(m * pow2(0) == m);
    while significand < 0x10_0000_0000_0000
        invariant
            0 < m < 0x20_0000_0000_0000,
            971 <= e <= 1023,
            significand == m * pow2((1023 - e) as nat),
            0 < significand < 0x20_0000_0000_0000,
        decreases e,
    {
        proof {
            let k = (1023 - e) as nat;
            lemma2_to64();
            lemma2_to64_rest();
            lemma_pow2_adds(k, 1);
            // As long as the leading bit is below its place, fewer than 52
            // places have been counted.
            assert(pow2(k) < pow2(52)) by (nonlinear_arith)
                requires
                    m * pow2(k) < pow2(52),
                    m >= 1,
            ;
            if k > 52 {
                lemma_pow2_strictly_increases(52, k);
            }
            assert(k < 52);
            assert(2 * (m * pow2(k)) == m * (pow2(k) * 2)) by (nonlinear_arith);
        }
        significand = significand * 2;
        e = e - 1;
    }
    let size: i64 = e * FRACTIONS + (significand - FRACTIONS);
    proof {
        let k = (1023 - e) as nat;
        assert(exponent(size) == e && fraction(size) == significand - FRACTIONS);
        lemma_pow2_adds(k, 52);
        assert((m * pow2(k)) * FRACTIONS == m * (pow2(k) * pow2(52))) by (nonlinear_arith)
            requires
                FRACTIONS == pow2(52),
        ;
        lemma_stands_for(size, (1075 - e) as nat, m as int, FRACTIONS as int);
    }
    if num < 0 {
        proof {
            lemma_steps_of_negated(size);
            assert((-steps(size)) * FRACTIONS == (-m) * unit()) by (nonlinear_arith)
                requires
                    steps(size) * FRACTIONS == m * unit(),
            ;
        }
        -size
    } else {
        size
    }
}

/// The number from zero up to and not including one that 64 random bits stand
/// for: the top 52 bits, over two to the power of 52.
pub fn unit_fraction(bits: u64) -> (x: Scalar)
    ensures
        stands_for(x, top_bits(bits), FRACTIONS as int),
        at_most(ZERO, x),
        less(x, ONE),
{
    let m: u64 = bits >> 12;
    assert(m == bits / 4096 && m < 0x10_0000_0000_0000) by (bit_vector)
        requires
            m == bits >> 12,
    ;
    let x = fraction_of(m as i64);
    proof {
        lemma_fraction_bounds(x, m as int);
    }
    x
}

/// The number from minus a half up to and not including a half that 64 random
/// bits stand for: the number of [`unit_fraction`], less a half.
pub fn centred_fraction(bits: u64) -> (x: Scalar)
    ensures
        stands_for(x, top_bits(bits) - 0x8_0000_0000_0000, FRACTIONS as int),
        at_most(NEG_HALF, x),
        less(x, HALF),
        (x == 0) == (top_bits(bits) == 0x8_0000_0000_0000),
        x != 0 ==> 971 <= exponent(x) <= 1023,
{
    let m: u64 = bits >> 12;
    assert(m == bits / 4096 && m < 0x10_0000_0000_0000) by (bit_vector)
        requires
            m == bits >> 12,
    ;
    let x = fraction_of(m as i64 - 0x8_0000_0000_0000);
    proof {
        lemma_fraction_bounds(x, m as int - 0x8_0000_0000_0000);
    }
    x
}

/// Twice a number, for a number that is neither so near to zero nor so large
/// that its double would need care.
fn doubled(x: Scalar) -> (y: Scalar)
    requires
        1 <= exponent(x) < 2046,
    ensures
        is_finite(y),
        steps(y) == 2 * steps(x),
{
    let y = if x < 0 { x - FRACTIONS } else { x + FRACTIONS };
    proof {
        let e = exponent(x);
        assert(exponent(y) == e + 1 && fraction(y) == fraction(x));
        lemma_pow2_adds(1, (e - 1) as nat);
        lemma2_to64();
        let m = FRACTIONS + fraction(x);
        assert(m * (2 * pow2((e - 1) as nat)) == 2 * (m * pow2((e - 1) as nat))) by (nonlinear_arith);
    }
    y
}

/// The number from minus one up to and not including one that 64 random bits
/// stand for: twice the number of [`centred_fraction`].
pub fn signed_fraction(bits: u64) -> (x: Scalar)
    ensures
        stands_for(x, top_bits(bits) - 0x8_0000_0000_0000, 0x8_0000_0000_0000),
        at_most(NEG_ONE, x),
        less(x, ONE),
{
    let half = centred_fraction(bits);
    let ghost num: int = top_bits(bits) - 0x8_0000_0000_0000;
    if half == 0 {
        proof {
            assert(exponent(ZERO) == 0 && fraction(ZERO) == 0);
            lemma_signed_bounds(ZERO, num);
        }
        return ZERO;
    }
    let x = doubled(half);
    proof {
        assert(steps(x) * 0x8_0000_0000_0000 == num * unit()) by (nonlinear_arith)
            requires
                steps(x) == 2 * steps(half),
                steps(half) * FRACTIONS == num * unit(),
                FRACTIONS == 0x10_0000_0000_0000,
        ;
        lemma_signed_bounds(x, num);
    }
    x
}

/// A fraction of two to the power of 51 with a numerator between minus that
/// and that lies between minus one and one.
proof fn lemma_signed_bounds(x: Scalar, num: int)
    requires
        stands_for(x, num, 0x8_0000_0000_0000),
        -0x8_0000_0000_0000 <= num < 0x8_0000_0000_0000,
    ensures
        at_most(NEG_ONE, x),
        less(x, ONE),
{
    lemma_pow2_pos(1074);
    lemma_constants();
    lemma_steps_of_negated(ONE);
    lemma_order_of_codes(NEG_ONE, x);
    lemma_order_of_codes(x, ONE);
    let u = unit();
    let s = steps(x);
    assert(-u <= s < u) by (nonlinear_arith)
        requires
            s * 0x8_0000_0000_0000 == num * u,
            -0x8_0000_0000_0000 <= num < 0x8_0000_0000_0000,
            u > 0,
    ;
}

/// A fraction of two to the power of 52 lies where its numerator puts it:
/// from zero up with a numerator from zero up, below one with a numerator
/// below two to the power of 52, and between minus a half and a half with a
/// numerator between the halves of that.
proof fn lemma_fraction_bounds(x: Scalar, num: int)
    requires
        stands_for(x, num, FRACTIONS as int),
    ensures
        0 <= num ==> at_most(ZERO, x),
        num < FRACTIONS ==> less(x, ONE),
        -0x8_0000_0000_0000 <= num ==> at_most(NEG_HALF, x),
        num < 0x8_0000_0000_0000 ==> less(x, HALF),
{
    lemma2_to64();
    lemma2_to64_rest();
    lemma_pow2_pos(1074);
    lemma_constants();
    lemma_order_of_codes(ZERO, x);
    lemma_order_of_codes(x, ONE);
    lemma_order_of_codes(NEG_HALF, x);
    lemma_order_of_codes(x, HALF);
    let u = unit();
    let s = steps(x);
    assert(0 <= num ==> 0 <= s) by (nonlinear_arith)
        requires
            s * FRACTIONS == num * u,
            u > 0,
            FRACTIONS > 0,
    ;
    assert(num < FRACTIONS ==> s < u) by (nonlinear_arith)
        requires
            s * FRACTIONS == num * u,
            u > 0,
            FRACTIONS > 0,
    ;
    assert(-0x8_0000_0000_0000 <= num ==> -u <= 2 * s) by (nonlinear_arith)
        requires
            s * FRACTIONS == num * u,
            u > 0,
            FRACTIONS == 0x10_0000_0000_0000,
    ;
    assert(num < 0x8_0000_0000_0000 ==> 2 * s < u) by (nonlinear_arith)
        requires
            s * FRACTIONS == num * u,
            u > 0,
            FRACTIONS == 0x10_0000_0000_0000,
    ;
}

/// A random number from zero up to and not including one, as evenly spread
/// as the bits drawn are.
pub fn random_double() -> (x: Scalar)
    ensures
        drawn(x, 0, FRACTIONS as int),
        at_most(ZERO, x),
        less(x, ONE),
{
    let bits = random_bits();
    let x = unit_fraction(bits);
    assert(stands_for(x, top_bits(bits) - 0, FRACTIONS as int));
    x
}

/// A random number from minus one up to and not including one: twice what
/// [`random_double`] gives, less one.
pub fn random_coordinate() -> (x: Scalar)
    ensures
        drawn(x, 0x8_0000_0000_0000, 0x8_0000_0000_0000),
        at_most(NEG_ONE, x),
        less(x, ONE),
{
    signed_fraction(random_bits())
}

/// A random number from minus a half up to and not including a half: what
/// [`random_double`] gives, less a half.
pub fn random_offset() -> (x: Scalar)
    ensures
        drawn(x, 0x8_0000_0000_0000, FRACTIONS as int),
        at_most(NEG_HALF, x),
        less(x, HALF),
{
    centred_fraction(random_bits())
}

} // verus!
