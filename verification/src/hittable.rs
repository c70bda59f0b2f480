//! Hit records, and the shapes that report them.

use vstd::prelude::*;
use core::ops::Neg;
use crate::interval::Interval;
use crate::ray::Ray;
use crate::scalar::{less, Scalar, ZERO};
use crate::vec3::{Point3, Vec3};

verus! {

/// What a shape reports where a ray meets it: the point `p`, the normal there,
/// turned against the ray, the material `mat` of the surface, the parameter `t`
/// of the ray at the point, and whether the ray came from outside.
#[derive(Clone)]
pub struct HitRecord<M> {
    pub p: Point3,
    pub normal: Vec3,
    pub mat: M,
    pub t: Scalar,
    pub front_face: bool,
}

/// A shape that a ray can hit. `M` is what the shape knows its material by.
/// Shapes are only read while an image is rendered, by as many threads as the
/// embedding program likes.
pub trait Hittable<M>: Sync {
    /// Looks for the place where `r` meets the shape at a parameter strictly
    /// inside `t`. Implementations owe the caller that a reported parameter
    /// lies there.
    fn hit(&self, r: &Ray, t: &Interval) -> (rec: Option<HitRecord<M>>)
        ensures
            rec is Some ==> t.surrounds(rec->0.t),
    ;
}

/// Whether `rec` is something that `shape` may answer when asked for a hit of
/// `r` inside `t`.
pub open spec fn reports<M, H: Hittable<M>>(shape: H, r: Ray, t: Interval, rec: Option<HitRecord<M>>) -> bool {
    call_ensures(H::hit, (&shape, &r, &t), rec)
}

impl<M> HitRecord<M> {
    /// A record of a hit at `p` with the given normal, material and parameter,
    /// not yet known to be on the front face.
    pub fn new(p: Point3, normal: Vec3, mat: M, t: Scalar) -> (rec: Self)
        ensures
            rec == (HitRecord { p, normal, mat, t, front_face: false }),
    {
        HitRecord { p, normal, mat, t, front_face: false }
    }

    /// The point of the hit.
    pub fn p(&self) -> (r: Point3)
        ensures
            r == self.p,
    {
        self.p
    }

    /// The normal at the hit.
    pub fn normal(&self) -> (r: Vec3)
        ensures
            r == self.normal,
    {
        self.normal
    }

    /// The parameter of the ray at the hit.
    pub fn t(&self) -> (r: Scalar)
        ensures
            r == self.t,
    {
        self.t
    }

    /// Whether the ray came from outside the surface.
    pub fn front_face(&self) -> (r: bool)
        ensures
            r == self.front_face,
    {
        self.front_face
    }

    /// Replaces the parameter.
    pub fn set_t(&mut self, t: Scalar)
        ensures
            *final(self) == (HitRecord { t, ..*old(self) }),
    {
        self.t = t;
    }

    /// Replaces the point.
    pub fn set_p(&mut self, p: Point3)
        ensures
            *final(self) == (HitRecord { p, ..*old(self) }),
    {
        self.p = p;
    }

    /// Replaces the normal.
    pub fn set_normal(&mut self, normal: Vec3)
        ensures
            *final(self) == (HitRecord { normal, ..*old(self) }),
    {
        self.normal = normal;
    }

    /// Turns the normal against the ray. `facing` is the dot product of the
    /// ray's direction with `outward_normal`: where it is negative the ray
    /// came from outside, meets the front face, and the normal stays;
    /// otherwise the normal is turned round.
    pub fn set_face_normal(&mut self, facing: Scalar, outward_normal: Vec3)
        ensures
            *final(self) == (HitRecord {
                front_face: less(facing, ZERO),
                normal: if less(facing, ZERO) { outward_normal } else { outward_normal.reversed() },
                ..*old(self)
            }),
    {
        self.front_face = less(facing, ZERO);
        self.normal = if self.front_face { outward_normal } else { outward_normal.neg() };
    }
}

impl<M: Default> Default for HitRecord<M> {
    /// A record at the origin and at parameter zero, off the front face, with
    /// a zero normal and the default material.
    fn default() -> (rec: Self)
        ensures
            rec.p == (Vec3 { x: ZERO, y: ZERO, z: ZERO }),
            rec.normal == (Vec3 { x: ZERO, y: ZERO, z: ZERO }),
            rec.t == ZERO,
            !rec.front_face,
            call_ensures(M::default, (), rec.mat),
    {
        HitRecord {
            p: Vec3::default(),
            normal: Vec3::default(),
            mat: M::default(),
            t: ZERO,
            front_face: false,
        }
    }
}

} // verus!
