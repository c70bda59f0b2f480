//! Real numbers as ordered integer codes.
//!
//! A code is the bit pattern of an IEEE 754 double read as a sign and a
//! magnitude: the sign bit gives the sign of the code, the other 63 bits its
//! absolute value. For numbers that are not NaN the order of the codes is the
//! order of the numbers, and both zeros share the code `0`, so every comparison
//! the kernel makes is a comparison of two `i64`. NaN patterns land beyond the
//! codes of the two infinities; a NaN is neither less nor greater than
//! anything, and [`less`] and [`at_most`] say so.
//!
//! What number a code stands for is [`steps`]: every finite double is a whole
//! number of steps of two to the power of minus 1074, and the order of the
//! codes is proved to be the order of these numbers.

use vstd::prelude::*;
use vstd::arithmetic::div_mod::{
    lemma_basic_div, lemma_div_is_ordered, lemma_div_multiples_vanish, lemma_div_multiples_vanish_quotient,
};
use vstd::arithmetic::power2::{
    lemma2_to64, lemma2_to64_rest, lemma_pow2_adds, lemma_pow2_pos, lemma_pow2_strictly_increases, pow2,
};
use vstd::bits::lemma_u64_shr_is_div;

verus! {

/// The code of a real number.
pub type Scalar = i64;

/// The code of `0`.
pub const ZERO: Scalar = 0;

/// The code of `1`.
pub const ONE: Scalar = 0x3FF0_0000_0000_0000;

/// The code of minus one.
pub const NEG_ONE: Scalar = -0x3FF0_0000_0000_0000;

/// The code of a half.
pub const HALF: Scalar = 0x3FE0_0000_0000_0000;

/// The code of minus a half.
pub const NEG_HALF: Scalar = -0x3FE0_0000_0000_0000;

/// The code of positive infinity, the largest code that is not a NaN.
pub const INFINITY: Scalar = 0x7FF0_0000_0000_0000;

/// The code of negative infinity, the smallest code that is not a NaN.
pub const NEG_INFINITY: Scalar = -0x7FF0_0000_0000_0000;

/// The code of a hundred-millionth, below which a magnitude counts as
/// nothing.
pub const NEGLIGIBLE: Scalar = 0x3E45_798E_E230_8C3A;

/// The value of the sign bit in a bit pattern.
pub const SIGN_BIT: u64 = 0x8000_0000_0000_0000;

/// Two to the power of 52, the number of fractions between one power of two
/// and the next.
pub const FRACTIONS: i64 = 0x10_0000_0000_0000;

/// The code that a bit pattern stands for.
pub open spec fn code_of_bits(bits: u64) -> int {
    if bits < SIGN_BIT {
        bits as int
    } else {
        -(bits - SIGN_BIT)
    }
}

/// The code with the sign turned. The one `i64` that no bit pattern has for
/// its code, the smallest, counts as the NaN next to it.
pub open spec fn spec_negated(code: Scalar) -> Scalar {
    if code == i64::MIN {
        i64::MAX
    } else {
        (-code) as i64
    }
}

/// The code without its sign.
pub open spec fn spec_magnitude(code: Scalar) -> Scalar {
    if code < 0 {
        spec_negated(code)
    } else {
        code
    }
}

/// The bit pattern of a code; a negative zero is never produced.
pub open spec fn bits_of_code(code: Scalar) -> int {
    if code >= 0 {
        code as int
    } else {
        SIGN_BIT + spec_magnitude(code)
    }
}

/// Whether a code stands for a NaN.
pub open spec fn spec_is_nan(code: Scalar) -> bool {
    code > INFINITY || code < NEG_INFINITY
}

/// Whether `a` is less than `b`, which no NaN is, and than which no NaN is.
pub open spec fn spec_less(a: Scalar, b: Scalar) -> bool {
    !spec_is_nan(a) && !spec_is_nan(b) && a < b
}

/// Whether `a` is less than or equal to `b`, which no NaN is, not even to
/// itself.
pub open spec fn spec_at_most(a: Scalar, b: Scalar) -> bool {
    !spec_is_nan(a) && !spec_is_nan(b) && a <= b
}

/// Whether a code stands for a number, neither a NaN nor an infinity.
pub open spec fn is_finite(code: Scalar) -> bool {
    NEG_INFINITY < code < INFINITY
}

/// The exponent field of a code: zero for the numbers nearest to zero, which
/// are evenly spaced, and one more for each doubling of the spacing.
pub open spec fn exponent(code: Scalar) -> int {
    spec_magnitude(code) as int / FRACTIONS as int
}

/// The fraction field of a code.
pub open spec fn fraction(code: Scalar) -> int {
    spec_magnitude(code) as int % FRACTIONS as int
}

/// The spacing of the numbers round the one that a code stands for, in steps.
pub open spec fn spacing(code: Scalar) -> int {
    if exponent(code) == 0 {
        1
    } else {
        pow2((exponent(code) - 1) as nat) as int
    }
}

/// The number that a finite code stands for, counted in steps of two to the
/// power of minus 1074, the least distance between two numbers.
pub open spec fn steps(code: Scalar) -> int {
    let size = if exponent(code) == 0 {
        fraction(code)
    } else {
        (FRACTIONS + fraction(code)) * spacing(code)
    };
    if code < 0 {
        -size
    } else {
        size
    }
}

/// The steps in one.
pub open spec fn unit() -> int {
    pow2(1074) as int
}

/// Whether `code` stands for the fraction `num / den`, exactly.
pub open spec fn stands_for(code: Scalar, num: int, den: int) -> bool {
    &&& den > 0
    &&& is_finite(code)
    &&& steps(code) * den == num * unit()
}

/// Whether `code` stands for a number that is as near to the fraction
/// `num / den` as the numbers round it allow: within half their spacing.
pub open spec fn stands_nearly_for(code: Scalar, num: int, den: int) -> bool {
    &&& den > 0
    &&& is_finite(code)
    &&& -(den * spacing(code)) <= 2 * (steps(code) * den - num * unit()) <= den * spacing(code)
}

/// The whole part of the number that a finite code stands for: the number with
/// what follows the point cut off.
pub open spec fn whole_part(code: Scalar) -> int {
    if steps(code) >= 0 {
        steps(code) / unit()
    } else {
        -((-steps(code)) / unit())
    }
}

/// The whole part of a number as far as 32 bits hold it: the largest value for
/// what lies above, the smallest for what lies below, and zero for a NaN.
pub open spec fn spec_truncated(code: Scalar) -> i32 {
    if spec_is_nan(code) {
        0
    } else if code == INFINITY || (is_finite(code) && whole_part(code) > i32::MAX) {
        i32::MAX
    } else if code == NEG_INFINITY || (is_finite(code) && whole_part(code) < i32::MIN) {
        i32::MIN
    } else {
        whole_part(code) as i32
    }
}

/// Turns a bit pattern into its code.
pub fn from_bits(bits: u64) -> (code: Scalar)
    ensures
        code == code_of_bits(bits),
        code > i64::MIN,
{
    if bits < SIGN_BIT {
        bits as i64
    } else {
        let magnitude: u64 = bits - SIGN_BIT;
        -(magnitude as i64)
    }
}

/// Turns a code back into a bit pattern.
pub fn to_bits(code: Scalar) -> (bits: u64)
    ensures
        bits == bits_of_code(code),
{
    if code >= 0 {
        code as u64
    } else {
        SIGN_BIT + (magnitude(code) as u64)
    }
}

/// Turns the sign of a code.
#[verifier::when_used_as_spec(spec_negated)]
pub fn negated(code: Scalar) -> (r: Scalar)
    ensures
        r == spec_negated(code),
{
    if code == i64::MIN {
        i64::MAX
    } else {
        -code
    }
}

/// Drops the sign of a code.
#[verifier::when_used_as_spec(spec_magnitude)]
pub fn magnitude(code: Scalar) -> (r: Scalar)
    ensures
        r == spec_magnitude(code),
        r >= 0,
{
    if code < 0 {
        negated(code)
    } else {
        code
    }
}

/// Cuts a number down to its whole part, as far as 32 bits hold it.
#[verifier::when_used_as_spec(spec_truncated)]
pub fn truncated(code: Scalar) -> (n: i32)
    ensures
        n == spec_truncated(code),
{
    if is_nan(code) {
        return 0;
    }
    let m: i64 = magnitude(code);
    let e: i64 = m / FRACTIONS;
    let significand: i64 = FRACTIONS + m % FRACTIONS;
    proof {
        lemma_truncation(code);
    }
    if e < 1023 {
        // Less than one.
        0
    } else if e >= 1054 {
        // Two to the power of 31 at least, or an infinity.
        if code < 0 {
            i32::MIN
        } else {
            i32::MAX
        }
    } else {
        let shift: u64 = (1075 - e) as u64;
        let whole: u64 = (significand as u64) >> shift;
        proof {
            lemma_u64_shr_is_div(significand as u64, shift);
        }
        if code < 0 {
            -(whole as i32)
        } else {
            whole as i32
        }
    }
}

/// Tells whether a code stands for a NaN.
#[verifier::when_used_as_spec(spec_is_nan)]
pub fn is_nan(code: Scalar) -> (r: bool)
    ensures
        r == spec_is_nan(code),
{
    code > INFINITY || code < NEG_INFINITY
}

/// Tells whether `a` is less than `b`.
#[verifier::when_used_as_spec(spec_less)]
pub fn less(a: Scalar, b: Scalar) -> (r: bool)
    ensures
        r == spec_less(a, b),
{
    !is_nan(a) && !is_nan(b) && a < b
}

/// Tells whether `a` is less than or equal to `b`.
#[verifier::when_used_as_spec(spec_at_most)]
pub fn at_most(a: Scalar, b: Scalar) -> (r: bool)
    ensures
        r == spec_at_most(a, b),
{
    !is_nan(a) && !is_nan(b) && a <= b
}

/// A code survives the trip through its bit pattern, except the smallest
/// `i64`, which comes back as the NaN next to it.
pub proof fn lemma_code_round_trip(code: Scalar)
    ensures
        0 <= bits_of_code(code) <= u64::MAX,
        code > i64::MIN ==> code_of_bits(bits_of_code(code) as u64) == code,
        code == i64::MIN ==> code_of_bits(bits_of_code(code) as u64) == i64::MIN + 1,
{
}

/// A bit pattern survives the trip through its code, except the negative zero,
/// which comes back as the positive one.
pub proof fn lemma_bits_round_trip(bits: u64)
    ensures
        bits != SIGN_BIT ==> bits_of_code(code_of_bits(bits) as i64) == bits,
        bits == SIGN_BIT ==> bits_of_code(code_of_bits(bits) as i64) == 0,
{
}

/// Turning the sign twice gives the code back, turns the order round, and
/// keeps a NaN a NaN.
pub proof fn lemma_negated(a: Scalar, b: Scalar)
    ensures
        a > i64::MIN ==> negated(negated(a)) == a,
        is_nan(negated(a)) == is_nan(a),
        less(a, b) == less(negated(b), negated(a)),
        magnitude(negated(a)) == magnitude(a),
{
}

/// The whole part of a number, read off its exponent and its significand:
/// nothing below the exponent of one, the significand without the digits after
/// the point up to the exponent of two to the power of 31, and more than 32
/// bits hold from there.
proof fn lemma_truncation(code: Scalar)
    requires
        !spec_is_nan(code),
    ensures
        exponent(code) < 1023 ==> is_finite(code) && whole_part(code) == 0,
        1023 <= exponent(code) < 1054 ==> is_finite(code) && 0 <= (FRACTIONS + fraction(code)) / (pow2(
            (1075 - exponent(code)) as nat,
        ) as int) < 0x8000_0000 && whole_part(code) == (if code < 0 {
            -((FRACTIONS + fraction(code)) / (pow2((1075 - exponent(code)) as nat) as int))
        } else {
            (FRACTIONS + fraction(code)) / (pow2((1075 - exponent(code)) as nat) as int)
        }),
        1054 <= exponent(code) ==> code != 0 && (is_finite(code) ==> (if code < 0 {
            whole_part(code) <= i32::MIN
        } else {
            whole_part(code) > i32::MAX
        })),
{
    let e = exponent(code);
    let f = fraction(code);
    let m = FRACTIONS + f;
    let size = if code < 0 { -steps(code) } else { steps(code) };
    assert(0 <= f < FRACTIONS && 0 <= e <= 2047);
    assert(size == (if e == 0 { f } else { m * spacing(code) }));
    lemma2_to64();
    lemma2_to64_rest();
    lemma_pow2_pos(1074);
    if e < 1023 {
        // The number is less than one: its steps are less than the steps in one.
        if e >= 1 {
            let p = pow2((e - 1) as nat) as int;
            lemma_pow2_pos((e - 1) as nat);
            lemma_pow2_adds(53, (e - 1) as nat);
            if e < 1022 {
                lemma_pow2_strictly_increases((e + 52) as nat, 1074);
            }
            assert(m * p < pow2(53) * p) by (nonlinear_arith)
                requires
                    m < pow2(53),
                    p > 0,
            ;
        } else {
            lemma_pow2_strictly_increases(52, 1074);
        }
        lemma_basic_div(size, unit());
    } else if e < 1054 {
        let p = pow2((e - 1) as nat) as int;
        let q = pow2((1075 - e) as nat) as int;
        lemma_pow2_pos((e - 1) as nat);
        lemma_pow2_pos((1075 - e) as nat);
        lemma_pow2_adds((1075 - e) as nat, (e - 1) as nat);
        lemma_div_multiples_vanish_quotient(p, m, q);
        assert(p * m == m * p && p * q == q * p) by (nonlinear_arith);
        assert(size / unit() == m / q);
        // The quotient fits: the significand is below two to the power of 53,
        // the divisor at least two to the power of 22.
        if e < 1053 {
            lemma_pow2_strictly_increases(22, (1075 - e) as nat);
        }
        assert(0 <= m / q < 0x8000_0000) by (nonlinear_arith)
            requires
                0 <= m < 0x20_0000_0000_0000,
                q >= 0x40_0000,
        ;
    } else {
        if is_finite(code) {
            let p = pow2((e - 1) as nat) as int;
            lemma_pow2_pos((e - 1) as nat);
            lemma_pow2_adds(52, (e - 1) as nat);
            lemma_pow2_adds(31, 1074);
            if e > 1054 {
                lemma_pow2_strictly_increases(1105, (e + 51) as nat);
            }
            assert(m * p >= pow2(52) * p) by (nonlinear_arith)
                requires
                    m >= pow2(52),
                    p > 0,
            ;
            assert(size >= 0x8000_0000 * unit());
            lemma_div_is_ordered(0x8000_0000 * unit(), size, unit());
            lemma_div_multiples_vanish(0x8000_0000, unit());
            assert(unit() * 0x8000_0000 == 0x8000_0000 * unit()) by (nonlinear_arith);
        }
    }
}

/// Among codes from zero up, the larger code stands for the larger number.
proof fn lemma_steps_increase(a: Scalar, b: Scalar)
    requires
        0 <= a < b < INFINITY,
    ensures
        0 <= steps(a) < steps(b),
{
    let (ea, fa) = (exponent(a), fraction(a));
    let (eb, fb) = (exponent(b), fraction(b));
    assert(ea <= eb && (ea == eb ==> fa < fb) && 0 <= fa < FRACTIONS && 0 <= fb < FRACTIONS);
    let pa = spacing(a);
    let pb = spacing(b);
    lemma_pow2_pos((ea - 1) as nat);
    lemma_pow2_pos((eb - 1) as nat);
    assert(0 <= steps(a)) by (nonlinear_arith)
        requires
            steps(a) == (if ea == 0 { fa } else { (FRACTIONS + fa) * pa }),
            0 <= fa,
            0 < pa,
    ;
    if ea == eb {
        assert(steps(a) < steps(b)) by (nonlinear_arith)
            requires
                steps(a) == (if ea == 0 { fa } else { (FRACTIONS + fa) * pa }),
                steps(b) == (if ea == 0 { fb } else { (FRACTIONS + fb) * pa }),
                fa < fb,
                0 < pa,
        ;
    } else {
        // The largest number of one spacing lies below the smallest of the next.
        assert(FRACTIONS * pb <= steps(b)) by (nonlinear_arith)
            requires
                steps(b) == (FRACTIONS + fb) * pb,
                0 <= fb,
                0 < pb,
        ;
        if ea == 0 {
            assert(FRACTIONS <= FRACTIONS * pb) by (nonlinear_arith)
                requires
                    1 <= pb,
            ;
        } else {
            let doubled = pow2(ea as nat) as int;
            assert(doubled == 2 * pa) by {
                lemma_pow2_adds(1, (ea - 1) as nat);
                lemma2_to64();
            }
            assert(doubled <= pb) by {
                if ea < eb - 1 {
                    lemma_pow2_strictly_increases(ea as nat, (eb - 1) as nat);
                }
            }
            assert(steps(a) < FRACTIONS * pb) by (nonlinear_arith)
                requires
                    steps(a) == (FRACTIONS + fa) * pa,
                    fa < FRACTIONS,
                    0 < pa,
                    2 * pa <= pb,
            ;
        }
    }
}

/// The order of the codes is the order of the numbers: of two finite codes the
/// one is less than the other just where it stands for less steps, and two
/// codes that stand for the same number are the same code.
pub proof fn lemma_order_of_codes(a: Scalar, b: Scalar)
    requires
        is_finite(a),
        is_finite(b),
    ensures
        less(a, b) == (steps(a) < steps(b)),
        at_most(a, b) == (steps(a) <= steps(b)),
        (a == b) == (steps(a) == steps(b)),
{
    if a < b {
        lemma_steps_follow_order(a, b);
    } else if b < a {
        lemma_steps_follow_order(b, a);
    }
}

/// Of two finite codes in their order, the first stands for less.
proof fn lemma_steps_follow_order(a: Scalar, b: Scalar)
    requires
        is_finite(a),
        is_finite(b),
        a < b,
    ensures
        steps(a) < steps(b),
{
    if 0 <= a {
        lemma_steps_increase(a, b);
    } else if b <= 0 {
        lemma_steps_increase(negated(b), negated(a));
    } else {
        lemma_steps_increase(0, negated(a));
        lemma_steps_increase(0, b);
    }
}

/// Turning the sign of a code turns the sign of the number.
pub proof fn lemma_steps_of_negated(code: Scalar)
    requires
        is_finite(code),
    ensures
        steps(negated(code)) == -steps(code),
{
}

/// A way to show that a code from one up in exponent stands for a fraction:
/// with `k` the exponent that the code lacks to 1075, it is enough that its
/// significand is `num / den` times two to the power of `k`.
pub proof fn lemma_stands_for(code: Scalar, k: nat, num: int, den: int)
    requires
        0 < code < INFINITY,
        exponent(code) >= 1,
        k + exponent(code) == 1075,
        den > 0,
        (FRACTIONS + fraction(code)) * den == num * pow2(k),
    ensures
        stands_for(code, num, den),
{
    let m = FRACTIONS + fraction(code);
    let p = spacing(code);
    let q = pow2(k) as int;
    lemma_pow2_adds(k, (exponent(code) - 1) as nat);
    assert((m * p) * den == num * (q * p)) by (nonlinear_arith)
        requires
            m * den == num * q,
    ;
}

/// The same for a fraction that no code stands for exactly: it is enough that
/// the significand is within a half of `num / den` times two to the power of
/// `k`.
pub proof fn lemma_stands_nearly_for(code: Scalar, k: nat, num: int, den: int)
    requires
        0 < code < INFINITY,
        exponent(code) >= 1,
        k + exponent(code) == 1075,
        den > 0,
        -den <= 2 * ((FRACTIONS + fraction(code)) * den - num * pow2(k)) <= den,
    ensures
        stands_nearly_for(code, num, den),
{
    let m = FRACTIONS + fraction(code);
    let p = spacing(code);
    let q = pow2(k) as int;
    lemma_pow2_adds(k, (exponent(code) - 1) as nat);
    lemma_pow2_pos((exponent(code) - 1) as nat);
    assert(-(den * p) <= 2 * ((m * p) * den - num * (q * p)) <= den * p) by (nonlinear_arith)
        requires
            -den <= 2 * (m * den - num * q) <= den,
            p > 0,
    ;
}

/// The constants stand for the numbers they are named after: zero, one and a
/// half with either sign, and the double nearest to a hundred-millionth.
pub proof fn lemma_constants()
    ensures
        stands_for(ZERO, 0, 1),
        stands_for(ONE, 1, 1),
        stands_for(NEG_ONE, -1, 1),
        stands_for(HALF, 1, 2),
        stands_for(NEG_HALF, -1, 2),
        stands_nearly_for(NEGLIGIBLE, 1, 100_000_000),
{
    lemma2_to64();
    lemma2_to64_rest();
    lemma_stands_for(ONE, 52, 1, 1);
    lemma_steps_of_negated(ONE);
    lemma_stands_for(HALF, 53, 1, 2);
    lemma_steps_of_negated(HALF);
    lemma_pow2_adds(64, 15);
    lemma_stands_nearly_for(NEGLIGIBLE, 79, 1, 100_000_000);
}

} // verus!
