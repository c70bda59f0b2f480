//! The sphere: what it holds, and which of its two roots a ray takes.

use vstd::prelude::*;
use crate::hittable::HitRecord;
use crate::interval::Interval;
use crate::scalar::{at_most, less, Scalar, INFINITY, ZERO};
use crate::vec3::{Point3, Vec3};

verus! {

/// A sphere round `center`, of a radius that is never negative, with the
/// material of its surface.
pub struct Sphere<M> {
    center: Point3,
    radius: Scalar,
    mat: M,
}

/// The radius that a sphere gets for the radius asked for: the same where that
/// is a positive number, and zero for anything else.
pub open spec fn usable_radius(radius: Scalar) -> Scalar {
    if less(ZERO, radius) {
        radius
    } else {
        ZERO
    }
}

/// The root at which a ray that is asked for a hit inside `t` meets a surface
/// on which it has the given discriminant and the two roots `near` and `far`:
/// none with a negative discriminant; else the near one if it lies strictly
/// inside, else the far one if that does.
pub open spec fn chosen_root(t: Interval, discriminant: Scalar, near: Scalar, far: Scalar) -> Option<Scalar> {
    if less(discriminant, ZERO) {
        None
    } else if t.surrounds(near) {
        Some(near)
    } else if t.surrounds(far) {
        Some(far)
    } else {
        None
    }
}

impl<M> Sphere<M> {
    /// The centre.
    pub closed spec fn spec_center(&self) -> Point3 {
        self.center
    }

    /// The radius.
    pub closed spec fn spec_radius(&self) -> Scalar {
        self.radius
    }

    /// The material.
    pub closed spec fn spec_material(&self) -> M {
        self.mat
    }

    #[verifier::type_invariant]
    closed spec fn radius_is_a_length(&self) -> bool {
        at_most(ZERO, self.radius)
    }

    /// The sphere round `center`. A radius that is negative or no number at
    /// all is taken for zero.
    pub fn new(center: Point3, radius: Scalar, material: M) -> (sphere: Self)
        ensures
            sphere.spec_center() == center,
            sphere.spec_radius() == usable_radius(radius),
            sphere.spec_material() == material,
    {
        Sphere { center, radius: if less(ZERO, radius) { radius } else { ZERO }, mat: material }
    }

    /// The radius, a number from zero up, infinity included.
    #[verifier::when_used_as_spec(spec_radius)]
    pub fn radius(&self) -> (r: Scalar)
        ensures
            r == self.spec_radius(),
            ZERO <= r <= INFINITY,
    {
        proof {
            use_type_invariant(self);
        }
        self.radius
    }

    /// The centre.
    #[verifier::when_used_as_spec(spec_center)]
    pub fn center(&self) -> (c: Point3)
        ensures
            c == self.spec_center(),
    {
        self.center
    }

    /// The material of the surface.
    pub fn material(&self) -> (m: &M)
        ensures
            *m == self.spec_material(),
    {
        &self.mat
    }
}

impl<M: Clone> Sphere<M> {
    /// The record of a hit on this sphere: at the parameter `root` of the ray
    /// and the point `p`, with the material of the sphere and with
    /// `outward_normal` turned against the ray. `facing` is the dot product of
    /// the ray's direction with `outward_normal`.
    pub fn record(&self, root: Scalar, p: Point3, outward_normal: Vec3, facing: Scalar) -> (rec: HitRecord<M>)
        ensures
            rec.t == root,
            rec.p == p,
            rec.front_face == less(facing, ZERO),
            rec.normal == (if less(facing, ZERO) { outward_normal } else { outward_normal.reversed() }),
            cloned(self.spec_material(), rec.mat),
    {
        let mut rec = HitRecord::new(p, outward_normal, self.mat.clone(), root);
        rec.set_face_normal(facing, outward_normal);
        rec
    }
}

impl<M: Clone> Sphere<M> {
    /// Answers a ray that is asked for a hit strictly inside `t`, given the
    /// discriminant and the two roots of the ray on this sphere. A sphere
    /// whose radius is zero has no surface and is never hit, whatever the
    /// roots are. For the root that is taken, `surface` is asked for the point
    /// of the ray there, the outward normal at that point, and the dot product
    /// of the ray's direction with that normal; it is not asked where nothing
    /// is hit.
    pub fn hit_with<F: FnOnce(Scalar) -> (Point3, Vec3, Scalar)>(
        &self,
        t: &Interval,
        discriminant: Scalar,
        near: Scalar,
        far: Scalar,
        surface: F,
    ) -> (rec: Option<HitRecord<M>>)
        requires
            forall|root: Scalar| call_requires(surface, (root,)),
        ensures
            rec is Some == (less(ZERO, self.spec_radius()) && chosen_root(
                *t,
                discriminant,
                near,
                far,
            ) is Some),
            rec is Some ==> {
                &&& rec->0.t == chosen_root(*t, discriminant, near, far)->0
                &&& t.surrounds(rec->0.t)
                &&& cloned(self.spec_material(), rec->0.mat)
                &&& exists|outward_normal: Vec3, facing: Scalar| #[trigger]
                    call_ensures(surface, (rec->0.t,), (rec->0.p, outward_normal, facing))
                        && rec->0.front_face == less(facing, ZERO) && rec->0.normal == (if less(
                        facing,
                        ZERO,
                    ) {
                        outward_normal
                    } else {
                        outward_normal.reversed()
                    })
            },
    {
        if !less(ZERO, self.radius) {
            return None;
        }
        match nearest_root(t, discriminant, near, far) {
            Some(root) => {
                let (p, outward_normal, facing) = surface(root);
                Some(self.record(root, p, outward_normal, facing))
            },
            None => None,
        }
    }
}

impl<M: Clone> Clone for Sphere<M> {
    /// The same sphere, with a clone of the material.
    fn clone(&self) -> (sphere: Self)
        ensures
            sphere.spec_center() == self.spec_center(),
            sphere.spec_radius() == self.spec_radius(),
            cloned(self.spec_material(), sphere.spec_material()),
    {
        proof {
            use_type_invariant(self);
        }
        Sphere { center: self.center, radius: self.radius, mat: self.mat.clone() }
    }
}

/// Picks the root at which a ray meets a surface when it is asked for a hit
/// strictly inside `t`, given the discriminant and the two roots of the ray.
pub fn nearest_root(t: &Interval, discriminant: Scalar, near: Scalar, far: Scalar) -> (root: Option<Scalar>)
    ensures
        root == chosen_root(*t, discriminant, near, far),
{
    if less(discriminant, ZERO) {
        None
    } else if t.surrounds(near) {
        Some(near)
    } else if t.surrounds(far) {
        Some(far)
    } else {
        None
    }
}

/// With the roots in their order, the chosen root is the least root strictly
/// inside the range, and no root is chosen only where none lies there or the
/// discriminant is negative.
pub proof fn lemma_chosen_root_is_nearest(t: Interval, discriminant: Scalar, near: Scalar, far: Scalar)
    requires
        at_most(near, far),
    ensures
        match chosen_root(t, discriminant, near, far) {
            Some(root) => {
                &&& root == near || root == far
                &&& t.surrounds(root)
                &&& t.surrounds(near) ==> root == near
            },
            None => less(discriminant, ZERO) || (!t.surrounds(near) && !t.surrounds(far)),
        },
{
}

} // verus!
