//! Square roots, worked out in whole numbers.
//!
//! What the root of a number is, is said by [`is_root_of`] in a few lines: the
//! double nearest to the true root. [`square_root`] finds it with whole
//! numbers of 128 bits and is proved to find that and nothing else.

use vstd::prelude::*;
use vstd::arithmetic::power2::{
    lemma2_to64, lemma2_to64_rest, lemma_pow2_adds, lemma_pow2_pos, lemma_pow2_strictly_increases, pow2,
};
use crate::scalar::{
    at_most, exponent, fraction, is_nan, lemma_order_of_codes, less, spacing, steps, unit, Scalar, FRACTIONS,
    INFINITY, ZERO,
};

verus! {

/// Whether `root` is the square root of `value`, a number above zero, as
/// nearly as a double comes to it: the root of infinity is infinity, and of
/// any other number the true root lies from the mark half-way between `root`
/// and the double below it up to, and not including, the mark half-way
/// between `root` and the double above it.
pub open spec fn is_root_of(root: Scalar, value: Scalar) -> bool {
    if value == INFINITY {
        root == INFINITY
    } else {
        let below = steps((root - 1) as i64) + steps(root);
        let above = steps(root) + steps((root + 1) as i64);
        &&& less(ZERO, value)
        &&& ZERO < root < INFINITY
        &&& below * below <= 4 * steps(value) * unit()
        &&& 4 * steps(value) * unit() < above * above
    }
}

/// Square roots keep the order: of two numbers above zero, the larger never
/// has the smaller root.
pub proof fn lemma_roots_keep_order(root_a: Scalar, a: Scalar, root_b: Scalar, b: Scalar)
    requires
        is_root_of(root_a, a),
        is_root_of(root_b, b),
        at_most(a, b),
    ensures
        at_most(root_a, root_b),
{
    if a != INFINITY && b != INFINITY && root_a > root_b {
        // The root of `a` lies at least one double above the root of `b`, so
        // the mark below the one is the mark above the other, or lies beyond.
        lemma_order_of_codes(root_b, (root_a - 1) as i64);
        lemma_order_of_codes((root_b + 1) as i64, root_a);
        lemma_order_of_codes(ZERO, root_b);
        lemma_order_of_codes(a, b);
        lemma_pow2_pos(1074);
        let below = steps((root_a - 1) as i64) + steps(root_a);
        let above = steps(root_b) + steps((root_b + 1) as i64);
        assert(steps(ZERO) == 0);
        assert(0 < above <= below);
        assert(above * above <= below * below) by (nonlinear_arith)
            requires
                0 < above <= below,
        ;
        assert(4 * steps(a) * unit() <= 4 * steps(b) * unit()) by (nonlinear_arith)
            requires
                steps(a) <= steps(b),
                unit() > 0,
        ;
    }
}

/// A number above zero has one square root, and no other.
pub proof fn lemma_root_is_one(root: Scalar, other: Scalar, value: Scalar)
    requires
        less(ZERO, value),
        is_root_of(root, value),
        is_root_of(other, value),
    ensures
        root == other,
{
    lemma_roots_keep_order(root, value, other, value);
    lemma_roots_keep_order(other, value, root, value);
}

/// From a double to the next one above it is one spacing.
pub proof fn lemma_next_double(c: Scalar)
    requires
        0 <= c < INFINITY,
    ensures
        steps((c + 1) as i64) == steps(c) + spacing(c),
{
    let e = exponent(c);
    let f = fraction(c);
    let next = (c + 1) as i64;
    lemma2_to64();
    if f + 1 < FRACTIONS {
        assert(exponent(next) == e && fraction(next) == f + 1);
        if e > 0 {
            let p = pow2((e - 1) as nat) as int;
            assert((FRACTIONS + f + 1) * p == (FRACTIONS + f) * p + p) by (nonlinear_arith);
        }
    } else {
        assert(exponent(next) == e + 1 && fraction(next) == 0);
        if e > 0 {
            let p = pow2((e - 1) as nat) as int;
            lemma_pow2_adds(1, (e - 1) as nat);
            assert(FRACTIONS * (2 * p) == (FRACTIONS + f) * p + p) by (nonlinear_arith)
                requires
                    f == FRACTIONS - 1,
            ;
        }
    }
}

/// The whole part of the square root of a number of 107 or 108 bits.
fn whole_root(x: u128) -> (q: u64)
    requires
        0x400_0000_0000_0000_0000_0000_0000 <= x < 0x1000_0000_0000_0000_0000_0000_0000,
    ensures
        q * q <= x < (q + 1) * (q + 1),
        0x20_0000_0000_0000 <= q < 0x40_0000_0000_0000,
{
    let mut lo: u128 = 0x20_0000_0000_0000;
    let mut hi: u128 = 0x40_0000_0000_0000;
    while hi - lo > 1
        invariant
            0x20_0000_0000_0000 <= lo < hi <= 0x40_0000_0000_0000,
            lo * lo <= x < hi * hi,
        decreases hi - lo,
    {
        let mid: u128 = lo + (hi - lo) / 2;
        assert(mid * mid < 0x1000_0000_0000_0000_0000_0000_0000) by (nonlinear_arith)
            requires
                0 <= mid < 0x40_0000_0000_0000,
        ;
        if mid * mid <= x {
            lo = mid;
        } else {
            hi = mid;
        }
    }
    lo as u64
}

/// The square root of a number: the double nearest to the true root. The
/// root of a number below zero, or of none, is no number, and always the same
/// one, the largest code there is.
pub fn square_root(value: Scalar) -> (root: Scalar)
    ensures
        value == ZERO ==> root == ZERO,
        less(ZERO, value) ==> is_root_of(root, value),
        !at_most(ZERO, value) ==> root == i64::MAX && is_nan(root),
{
    if !at_most(ZERO, value) {
        return i64::MAX;
    }
    if value == ZERO || value == INFINITY {
        return value;
    }
    proof {
        lemma2_to64();
        lemma2_to64_rest();
    }
    // The number is `m` times two to the power of `t`, in steps of the
    // square of a step, with `m` brought to 53 bits.
    let e: i64 = value / FRACTIONS;
    let f: i64 = value % FRACTIONS;
    let mut m: u64;
    let mut t: i64;
    if e == 0 {
        m = f as u64;
        t = 1074;
        assert(m == f * pow2(0));
        while m < 0x10_0000_0000_0000
            invariant
                0 < f < 0x10_0000_0000_0000,
                1022 <= t <= 1074,
                m == f * pow2((1074 - t) as nat),
                0 < m < 0x20_0000_0000_0000,
            decreases t,
        {
            proof {
                let k = (1074 - t) as nat;
                lemma2_to64();
                lemma2_to64_rest();
                lemma_pow2_adds(k, 1);
                assert(pow2(k) < pow2(52)) by (nonlinear_arith)
                    requires
                        f * pow2(k) < pow2(52),
                        f >= 1,
                ;
                if k > 52 {
                    lemma_pow2_strictly_increases(52, k);
                }
                assert(k < 52);
                assert(2 * (f * pow2(k)) == f * (pow2(k) * 2)) by (nonlinear_arith);
            }
            m = m * 2;
            t = t - 1;
        }
        proof {
            let k = (1074 - t) as nat;
            lemma_pow2_adds(k, t as nat);
            assert(steps(value) == f);
            assert(f * (pow2(k) * pow2(t as nat)) == (f * pow2(k)) * pow2(t as nat)) by (nonlinear_arith);
        }
    } else {
        m = (FRACTIONS + f) as u64;
        t = e + 1073;
        proof {
            lemma_pow2_adds((e - 1) as nat, 1074);
            let p = pow2((e - 1) as nat) as int;
            assert(steps(value) == m * p);
            assert((m * p) * pow2(1074) == m * (p * pow2(1074))) by (nonlinear_arith);
        }
    }
    assert(steps(value) * unit() == m * pow2(t as nat));
    assert(0x10_0000_0000_0000 <= m < 0x20_0000_0000_0000);
    // An even power of two comes out of the root as it is; of an odd one, a
    // two goes to `n`.
    let n: u64;
    let h: i64;
    if t % 2 == 1 {
        n = 2 * m;
        h = (t - 1) / 2;
        proof {
            lemma_pow2_adds(1, (t - 1) as nat);
            assert(m * (2 * pow2((t - 1) as nat)) == (2 * m) * pow2((t - 1) as nat)) by (nonlinear_arith);
        }
    } else {
        n = m;
        h = t / 2;
    }
    assert(steps(value) * unit() == n * pow2((2 * h) as nat));
    assert(511 <= h <= 1559);
    let x: u128 = (n as u128) * 0x40_0000_0000_0000;
    let q: u64 = whole_root(x);
    // The last bit of `q` says which way the root is rounded.
    let mr: u64 = q / 2 + q % 2;
    let root: i64 = (h - 25) * FRACTIONS + ((mr as i64) - FRACTIONS);
    proof {
        let g2 = pow2((h - 27) as nat) as int;
        let g = 2 * g2;
        lemma_pow2_pos((h - 27) as nat);
        lemma_pow2_adds(1, (h - 27) as nat);
        assert(g == pow2((h - 26) as nat));
        lemma_pow2_adds(1, (h - 26) as nat);
        assert(2 * g == pow2((h - 25) as nat));
        // Four times the number, in steps of the square of `g2`.
        lemma_pow2_adds(h as nat, h as nat);
        lemma_pow2_adds(27, (h - 27) as nat);
        assert(pow2(h as nat) == 0x800_0000 * g2);
        assert(4 * (n * ((0x800_0000 * g2) * (0x800_0000 * g2))) == (4 * (n * 0x40_0000_0000_0000)) * (g2 * g2))
            by (nonlinear_arith);
        assert(4 * steps(value) * unit() == (4 * x) * (g2 * g2)) by (nonlinear_arith)
            requires
                steps(value) * unit() == n * (pow2(h as nat) * pow2(h as nat)),
                pow2(h as nat) == 0x800_0000 * g2,
                x == n * 0x40_0000_0000_0000,
                4 * (n * ((0x800_0000 * g2) * (0x800_0000 * g2))) == (4 * (n * 0x40_0000_0000_0000)) * (g2
                    * g2),
        ;
        // The root and the doubles beside it, in steps of `g2`.
        assert(FRACTIONS <= mr <= 2 * FRACTIONS);
        if mr < 2 * FRACTIONS {
            assert(exponent(root) == h - 25 && fraction(root) == mr - FRACTIONS);
            assert(spacing(root) == g);
        } else {
            assert(exponent(root) == h - 24 && fraction(root) == 0);
            assert(spacing(root) == 2 * g);
            assert(FRACTIONS * (2 * g) == mr * g) by (nonlinear_arith)
                requires
                    mr == 2 * FRACTIONS,
            ;
        }
        assert(steps(root) == mr * g);
        assert(0 < root < INFINITY);
        lemma_next_double(root);
        let before = (root - 1) as i64;
        lemma_next_double(before);
        if mr > FRACTIONS {
            assert(exponent(before) == h - 25);
            assert(spacing(before) == g);
        } else {
            assert(exponent(before) == h - 26);
            assert(spacing(before) == g2);
        }
        let below = steps(before) + steps(root);
        let above = steps(root) + steps((root + 1) as i64);
        let b: int = if mr > FRACTIONS { 4 * mr - 2 } else { 4 * mr - 1 };
        let a: int = if mr < 2 * FRACTIONS { 4 * mr + 2 } else { 4 * mr + 4 };
        assert(below == b * g2) by (nonlinear_arith)
            requires
                below == 2 * (mr * g) - (if mr > FRACTIONS { g } else { g2 }),
                g == 2 * g2,
                b == (if mr > FRACTIONS { 4 * mr - 2 } else { 4 * mr - 1 }),
        ;
        assert(above == a * g2) by (nonlinear_arith)
            requires
                above == 2 * (mr * g) + (if mr < 2 * FRACTIONS { g } else { 2 * g }),
                g == 2 * g2,
                a == (if mr < 2 * FRACTIONS { 4 * mr + 2 } else { 4 * mr + 4 }),
        ;
        assert(2 * mr == q + q % 2);
        assert(0 <= b <= 2 * q && a >= 2 * (q + 1));
        assert(b * b <= 4 * x && 4 * x < a * a) by (nonlinear_arith)
            requires
                0 <= b <= 2 * q,
                a >= 2 * (q + 1),
                q * q <= x < (q + 1) * (q + 1),
                q >= 0,
        ;
        assert((b * g2) * (b * g2) <= (4 * x) * (g2 * g2) && (4 * x) * (g2 * g2) < (a * g2) * (a * g2))
            by (nonlinear_arith)
            requires
                b * b <= 4 * x,
                4 * x < a * a,
                g2 > 0,
        ;
    }
    root
}

} // verus!
