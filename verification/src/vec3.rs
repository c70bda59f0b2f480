//! Vectors, points and the rules on them that need no arithmetic.

use vstd::prelude::*;
use vstd::std_specs::cmp::PartialEqSpecImpl;
use vstd::arithmetic::power2::{lemma2_to64, lemma_pow2_adds, pow2};
use crate::commons::{drawn, random_coordinate};
use crate::scalar::{
    at_most, lemma_stands_nearly_for, less, magnitude, negated, stands_nearly_for, Scalar, NEGLIGIBLE, NEG_ONE,
    ONE, ZERO,
};

verus! {

/// Three numbers, used alike as a displacement, a direction and a point.
#[derive(Debug, Clone, Copy)]
pub struct Vec3 {
    pub x: Scalar,
    pub y: Scalar,
    pub z: Scalar,
}

/// A vector read as a place.
pub type Point3 = Vec3;

/// The code of ten to the power of minus a hundred and sixty: a squared length
/// at or below it is too short to give a direction.
pub const SHORTEST: Scalar = 0x1EB6_7E9C_127B_6E74;

/// Whether a component is too small to count.
pub open spec fn spec_negligible(c: Scalar) -> bool {
    less(magnitude(c), NEGLIGIBLE)
}

/// A component with what is too small to count set to zero.
pub open spec fn spec_snapped(c: Scalar) -> Scalar {
    if spec_negligible(c) {
        ZERO
    } else {
        c
    }
}

/// Tells whether a component is too small to count.
#[verifier::when_used_as_spec(spec_negligible)]
pub fn negligible(c: Scalar) -> (r: bool)
    ensures
        r == spec_negligible(c),
{
    less(magnitude(c), NEGLIGIBLE)
}

/// Sets a component that is too small to count to zero.
#[verifier::when_used_as_spec(spec_snapped)]
pub fn snapped(c: Scalar) -> (r: Scalar)
    ensures
        r == spec_snapped(c),
{
    if negligible(c) {
        ZERO
    } else {
        c
    }
}

impl Vec3 {
    /// The vector of the three components.
    pub fn new(x: Scalar, y: Scalar, z: Scalar) -> (v: Vec3)
        ensures
            v == (Vec3 { x, y, z }),
    {
        Vec3 { x, y, z }
    }

    /// The first component.
    pub fn x(&self) -> (r: Scalar)
        ensures
            r == self.x,
    {
        self.x
    }

    /// The second component.
    pub fn y(&self) -> (r: Scalar)
        ensures
            r == self.y,
    {
        self.y
    }

    /// The third component.
    pub fn z(&self) -> (r: Scalar)
        ensures
            r == self.z,
    {
        self.z
    }

    /// The vector turned round: every component with its sign turned.
    pub open spec fn reversed(self) -> Vec3 {
        Vec3 { x: negated(self.x), y: negated(self.y), z: negated(self.z) }
    }

    /// Whether every component is too small to count.
    pub open spec fn spec_near_zero(&self) -> bool {
        negligible(self.x) && negligible(self.y) && negligible(self.z)
    }

    /// Whether every component is zero.
    pub open spec fn is_zero(&self) -> bool {
        self.x == ZERO && self.y == ZERO && self.z == ZERO
    }

    /// The vector of length one along `self`. `scaled` is `self` divided by
    /// its length: the unit vector is that with what is too small to count set
    /// to zero. The zero vector has no direction and stays what it is.
    pub open spec fn spec_unit_vector(&self, scaled: Vec3) -> Vec3 {
        if self.is_zero() {
            *self
        } else {
            Vec3 { x: snapped(scaled.x), y: snapped(scaled.y), z: snapped(scaled.z) }
        }
    }

    /// Tells whether every component is too small to count, as those of a
    /// scatter direction that has cancelled against the normal are.
    #[verifier::when_used_as_spec(spec_near_zero)]
    pub fn near_zero(&self) -> (r: bool)
        ensures
            r == self.spec_near_zero(),
    {
        negligible(self.x) && negligible(self.y) && negligible(self.z)
    }

    /// Normalises `self`, given `scaled`, which is `self` divided by its
    /// length.
    #[verifier::when_used_as_spec(spec_unit_vector)]
    pub fn unit_vector(&self, scaled: Vec3) -> (unit: Vec3)
        ensures
            unit == self.spec_unit_vector(scaled),
            self.is_zero() ==> unit == *self,
    {
        if self.x == ZERO && self.y == ZERO && self.z == ZERO {
            *self
        } else {
            Vec3 { x: snapped(scaled.x), y: snapped(scaled.y), z: snapped(scaled.z) }
        }
    }
}

/// A random point of the cube of side two round the origin: each component
/// from minus one up to and not including one.
pub fn random_in_cube() -> (p: Vec3)
    ensures
        drawn(p.x, 0x8_0000_0000_0000, 0x8_0000_0000_0000),
        drawn(p.y, 0x8_0000_0000_0000, 0x8_0000_0000_0000),
        drawn(p.z, 0x8_0000_0000_0000, 0x8_0000_0000_0000),
        at_most(NEG_ONE, p.x) && less(p.x, ONE),
        at_most(NEG_ONE, p.y) && less(p.y, ONE),
        at_most(NEG_ONE, p.z) && less(p.z, ONE),
{
    let x = random_coordinate();
    let y = random_coordinate();
    let z = random_coordinate();
    Vec3 { x, y, z }
}

/// A random point of the square of side two round the origin: either of the
/// first two components from minus one up to and not including one, the third
/// one zero.
pub fn random_in_square() -> (p: Vec3)
    ensures
        drawn(p.x, 0x8_0000_0000_0000, 0x8_0000_0000_0000),
        drawn(p.y, 0x8_0000_0000_0000, 0x8_0000_0000_0000),
        at_most(NEG_ONE, p.x) && less(p.x, ONE),
        at_most(NEG_ONE, p.y) && less(p.y, ONE),
        p.z == ZERO,
{
    let x = random_coordinate();
    let y = random_coordinate();
    Vec3 { x, y, z: ZERO }
}

/// Whether a point drawn from the cube round the origin may be normalised to a
/// random unit vector: its squared length has to lie above [`SHORTEST`] and at
/// most at one, so that the point lies in the unit ball and the directions
/// come out evenly.
pub fn keeps_direction(length_squared: Scalar) -> (keep: bool)
    ensures
        keep == (less(SHORTEST, length_squared) && at_most(length_squared, ONE)),
{
    less(SHORTEST, length_squared) && at_most(length_squared, ONE)
}

/// Whether a point drawn from the square round the origin lies inside the
/// unit disk: its squared length has to be below one.
pub fn keeps_disk_point(length_squared: Scalar) -> (keep: bool)
    ensures
        keep == less(length_squared, ONE),
{
    less(length_squared, ONE)
}

/// The shortest squared length stands for the double nearest to ten to the
/// power of minus a hundred and sixty.
pub proof fn lemma_shortest()
    ensures
        stands_nearly_for(SHORTEST, 1, 10000000000000000000000000000000000000000000000000000000000000000000000000000000000000000000000000000000000000000000000000000000000000000000000000000000000000000int),
{
    lemma2_to64();
    lemma_pow2_adds(64, 64);
    assert(pow2(128) == 0x100000000000000000000000000000000int);
    lemma_pow2_adds(128, 128);
    assert(pow2(256) == 0x10000000000000000000000000000000000000000000000000000000000000000int);
    lemma_pow2_adds(256, 256);
    assert(pow2(512) == 0x100000000000000000000000000000000000000000000000000000000000000000000000000000000000000000000000000000000000000000000000000000000int);
    lemma_pow2_adds(512, 64);
    assert(pow2(576) == 0x1000000000000000000000000000000000000000000000000000000000000000000000000000000000000000000000000000000000000000000000000000000000000000000000000int);
    lemma_pow2_adds(576, 8);
    assert(pow2(584) == 0x100000000000000000000000000000000000000000000000000000000000000000000000000000000000000000000000000000000000000000000000000000000000000000000000000int);
    lemma_stands_nearly_for(SHORTEST, 584, 1, 10000000000000000000000000000000000000000000000000000000000000000000000000000000000000000000000000000000000000000000000000000000000000000000000000000000000000000int);
}

impl Default for Vec3 {
    /// The zero vector.
    fn default() -> (v: Vec3)
        ensures
            v == (Vec3 { x: ZERO, y: ZERO, z: ZERO }),
    {
        Vec3 { x: ZERO, y: ZERO, z: ZERO }
    }
}

impl vstd::std_specs::ops::NegSpecImpl for Vec3 {
    open spec fn obeys_neg_spec() -> bool {
        true
    }

    open spec fn neg_req(self) -> bool {
        true
    }

    open spec fn neg_spec(self) -> Vec3 {
        self.reversed()
    }
}

impl core::ops::Neg for Vec3 {
    type Output = Vec3;

    /// The vector turned round.
    fn neg(self) -> (v: Vec3) {
        Vec3 { x: negated(self.x), y: negated(self.y), z: negated(self.z) }
    }
}

impl PartialEqSpecImpl for Vec3 {
    open spec fn obeys_eq_spec() -> bool {
        true
    }

    /// Two vectors are equal where their components are the same numbers; a
    /// NaN is equal to nothing.
    open spec fn eq_spec(&self, other: &Vec3) -> bool {
        &&& at_most(self.x, other.x) && at_most(other.x, self.x)
        &&& at_most(self.y, other.y) && at_most(other.y, self.y)
        &&& at_most(self.z, other.z) && at_most(other.z, self.z)
    }
}

impl PartialEq for Vec3 {
    fn eq(&self, other: &Vec3) -> (r: bool) {
        at_most(self.x, other.x) && at_most(other.x, self.x) && at_most(self.y, other.y) && at_most(
            other.y,
            self.y,
        ) && at_most(self.z, other.z) && at_most(other.z, self.z)
    }
}

} // verus!
