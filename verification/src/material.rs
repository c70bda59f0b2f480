//! Materials: what becomes of a ray at a surface.
//!
//! A material either absorbs the ray or sends it on in a new direction with an
//! attenuation. The directions and the numbers that decide are computed by the
//! embedding program; the rules that pick among them, and the draw on which
//! glass decides, are here.

use vstd::prelude::*;
use crate::color::Color;
use crate::commons::{drawn, random_double, top_bits};
use crate::hittable::HitRecord;
use crate::ray::Ray;
use crate::scalar::{at_most, lemma_constants, less, stands_for, Scalar, FRACTIONS, ONE, ZERO};
use crate::vec3::Vec3;

verus! {

/// A surface material. Materials are only read while an image is rendered, by
/// as many threads as the embedding program likes.
pub trait Material: Sized + Send + Sync {
    /// Scatters `ray` at the hit `rec`: the attenuation and the ray that
    /// leaves, or nothing where the ray is absorbed. A material that does not
    /// say otherwise absorbs every ray.
    fn scatter(&self, ray: &Ray, rec: &HitRecord<Self>) -> (out: Option<(Color, Ray)>)
        default_ensures
            out is None,
    {
        None
    }
}

/// Whether `out` is something that `mat` may do with `ray` at the hit `rec`.
pub open spec fn scatters<M: Material>(mat: M, ray: Ray, rec: HitRecord<M>, out: Option<(Color, Ray)>) -> bool {
    call_ensures(M::scatter, (&mat, &ray, &rec), out)
}

/// A diffuse material: it scatters every ray, tinted by its albedo.
#[derive(Debug, Clone, Copy)]
pub struct Lambertian {
    pub albedo: Color,
}

/// A reflecting material: its albedo tints the mirrored ray, and its fuzz, a
/// number from zero to one, blurs the mirror.
#[derive(Debug)]
pub struct Metal {
    albedo: Color,
    fuzz: Scalar,
}

/// A clear material that bends light, such as glass. The refractive index is
/// that of the material over that of its surroundings.
#[derive(Debug, Clone, Copy)]
pub struct Dielectric {
    pub refraction_index: Scalar,
}

/// The fuzz that a metal gets for the fuzz asked for: zero below zero, the
/// same from zero up to one, and one for anything else.
pub open spec fn usable_fuzz(fuzz: Scalar) -> Scalar {
    if less(fuzz, ZERO) {
        ZERO
    } else if less(fuzz, ONE) {
        fuzz
    } else {
        ONE
    }
}

/// The attenuation that leaves light as it is.
pub open spec fn white() -> Color {
    Vec3 { x: ONE, y: ONE, z: ONE }
}

/// Whether a clear surface mirrors the ray. `sine_ratio` is the refractive
/// ratio times the sine of the angle of incidence: above one no refracted ray
/// exists. Below that the surface still mirrors the ray where its
/// `reflectance` for the angle is above `chance`, a number drawn from zero to
/// one.
pub open spec fn mirrors(sine_ratio: Scalar, reflectance: Scalar, chance: Scalar) -> bool {
    less(ONE, sine_ratio) || less(chance, reflectance)
}

impl Lambertian {
    /// The diffuse material of the given albedo.
    pub fn new(albedo: Color) -> (mat: Self)
        ensures
            mat.albedo == albedo,
    {
        Lambertian { albedo }
    }

    /// Scatters a ray at the hit `rec`. `scatter_direction` is the normal of
    /// the hit plus a random unit vector; where the two have all but
    /// cancelled, the ray leaves along the normal. The ray is never absorbed,
    /// and the attenuation is the albedo.
    pub fn scatter<M>(&self, rec: &HitRecord<M>, scatter_direction: Vec3) -> (out: Option<(Color, Ray)>)
        ensures
            out matches Some((tint, _)) && tint == self.albedo,
            out == Some(
                (
                    self.albedo,
                    Ray {
                        origin: rec.p,
                        direction: if scatter_direction.near_zero() {
                            rec.normal
                        } else {
                            scatter_direction
                        },
                    },
                ),
            ),
    {
        let direction = if scatter_direction.near_zero() {
            rec.normal()
        } else {
            scatter_direction
        };
        Some((self.albedo, Ray::new(rec.p(), direction)))
    }
}

impl Metal {
    /// The albedo.
    pub closed spec fn spec_albedo(&self) -> Color {
        self.albedo
    }

    /// The fuzz.
    pub closed spec fn spec_fuzz(&self) -> Scalar {
        self.fuzz
    }

    #[verifier::type_invariant]
    closed spec fn fuzz_is_a_share(&self) -> bool {
        ZERO <= self.fuzz <= ONE
    }

    /// The metal of the given albedo, with the fuzz brought into the range
    /// from zero to one; a fuzz that is no number at all counts as one.
    pub fn new(albedo: Color, fuzz: Scalar) -> (mat: Self)
        ensures
            mat.spec_albedo() == albedo,
            mat.spec_fuzz() == usable_fuzz(fuzz),
    {
        let fuzz = if less(fuzz, ZERO) {
            ZERO
        } else if less(fuzz, ONE) {
            fuzz
        } else {
            ONE
        };
        Metal { albedo, fuzz }
    }

    /// The fuzz, a number from zero to one.
    #[verifier::when_used_as_spec(spec_fuzz)]
    pub fn fuzz(&self) -> (fuzz: Scalar)
        ensures
            fuzz == self.spec_fuzz(),
            ZERO <= fuzz <= ONE,
    {
        proof {
            use_type_invariant(self);
        }
        self.fuzz
    }

    /// The albedo.
    #[verifier::when_used_as_spec(spec_albedo)]
    pub fn albedo(&self) -> (albedo: Color)
        ensures
            albedo == self.spec_albedo(),
    {
        self.albedo
    }

    /// Scatters a ray at the hit `rec`. `reflected` is the mirrored and
    /// blurred direction, and `facing` its dot product with the normal of the
    /// hit. The ray leaves along `reflected`, tinted by the albedo, where that
    /// points away from the surface, and is absorbed where the blur has
    /// pushed it into the surface.
    pub fn scatter<M>(&self, rec: &HitRecord<M>, reflected: Vec3, facing: Scalar) -> (out: Option<
        (Color, Ray),
    >)
        ensures
            out == (if less(ZERO, facing) {
                Some((self.spec_albedo(), Ray { origin: rec.p, direction: reflected }))
            } else {
                None
            }),
    {
        if less(ZERO, facing) {
            Some((self.albedo, Ray::new(rec.p(), reflected)))
        } else {
            None
        }
    }
}

impl Clone for Metal {
    /// The same metal.
    fn clone(&self) -> (mat: Self)
        ensures
            mat == *self,
    {
        proof {
            use_type_invariant(self);
        }
        Metal { albedo: self.albedo, fuzz: self.fuzz }
    }
}

impl Copy for Metal {

}

impl Dielectric {
    /// The clear material of the given refractive index.
    pub fn new(refraction_index: Scalar) -> (mat: Self)
        ensures
            mat.refraction_index == refraction_index,
    {
        Dielectric { refraction_index }
    }

    /// The refractive ratio for a ray that meets the surface: `inverse`, which
    /// is one over the index, where the ray enters through the front face,
    /// and the index itself where it leaves the material.
    pub fn ratio(&self, front_face: bool, inverse: Scalar) -> (ratio: Scalar)
        ensures
            ratio == (if front_face { inverse } else { self.refraction_index }),
    {
        if front_face {
            inverse
        } else {
            self.refraction_index
        }
    }

    /// What becomes of a ray at the hit `rec` when `chance` is the number
    /// drawn: the ray is never absorbed and never tinted, and leaves along
    /// `reflected` where the surface mirrors it (see [`mirrors`]), along
    /// `refracted` otherwise.
    pub open spec fn spec_scatter_by<M>(
        rec: HitRecord<M>,
        sine_ratio: Scalar,
        reflectance: Scalar,
        chance: Scalar,
        reflected: Vec3,
        refracted: Vec3,
    ) -> Option<(Color, Ray)> {
        Some(
            (
                white(),
                Ray {
                    origin: rec.p,
                    direction: if mirrors(sine_ratio, reflectance, chance) {
                        reflected
                    } else {
                        refracted
                    },
                },
            ),
        )
    }

    /// Scatters a ray at the hit `rec`, given the number drawn, `chance`. The
    /// ray is never absorbed and never tinted: the attenuation is white. It
    /// leaves along `reflected` where the surface mirrors it, as it must when
    /// `sine_ratio` is above one, and along `refracted` otherwise.
    pub fn scatter_by<M>(
        &self,
        rec: &HitRecord<M>,
        sine_ratio: Scalar,
        reflectance: Scalar,
        chance: Scalar,
        reflected: Vec3,
        refracted: Vec3,
    ) -> (out: Option<(Color, Ray)>)
        ensures
            out == Self::spec_scatter_by(*rec, sine_ratio, reflectance, chance, reflected, refracted),
            less(ONE, sine_ratio) ==> out == Some((white(), Ray { origin: rec.p, direction: reflected })),
    {
        let direction = if less(ONE, sine_ratio) || less(chance, reflectance) {
            reflected
        } else {
            refracted
        };
        Some((Vec3::new(ONE, ONE, ONE), Ray::new(rec.p(), direction)))
    }

    /// Scatters a ray at the hit `rec`. Where `sine_ratio` is above one, no
    /// refracted ray exists and the ray leaves along `reflected`. Otherwise a
    /// number is drawn, and the ray leaves along `reflected` where the
    /// `reflectance` is above it, along `refracted` where not.
    pub fn scatter<M>(
        &self,
        rec: &HitRecord<M>,
        sine_ratio: Scalar,
        reflectance: Scalar,
        reflected: Vec3,
        refracted: Vec3,
    ) -> (out: Option<(Color, Ray)>)
        ensures
            out matches Some((tint, _)) && tint == white(),
            less(ONE, sine_ratio) ==> out == Some((white(), Ray { origin: rec.p, direction: reflected })),
            exists|chance: Scalar|
                {
                    &&& drawn(chance, 0, FRACTIONS as int)
                    &&& at_most(ZERO, chance) && less(chance, ONE)
                    &&& out == #[trigger] Self::spec_scatter_by(
                        *rec,
                        sine_ratio,
                        reflectance,
                        chance,
                        reflected,
                        refracted,
                    )
                },
    {
        let chance = if less(ONE, sine_ratio) {
            // Nothing is drawn where the draw decides nothing.
            proof {
                lemma_constants();
                assert(top_bits(0) == 0);
                assert(stands_for(ZERO, top_bits(0) - 0, FRACTIONS as int));
            }
            ZERO
        } else {
            random_double()
        };
        self.scatter_by(rec, sine_ratio, reflectance, chance, reflected, refracted)
    }
}

} // verus!
