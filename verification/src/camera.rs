//! The camera: what it is told, and what a ray sees, bounce by bounce.

use vstd::prelude::*;
use vstd::arithmetic::power2::{lemma2_to64, lemma2_to64_rest};
use crate::color::Color;
use crate::commons::{drawn, random_offset};
use crate::hittable::{reports, HitRecord, Hittable};
use crate::hittable_list::{lemma_empty_list_is_missed, HittableList};
use crate::interval::Interval;
use crate::material::{scatters, Material};
use crate::ray::Ray;
use crate::scalar::{
    at_most, lemma_stands_for, lemma_stands_nearly_for, less, stands_for, stands_nearly_for, truncated, Scalar,
    FRACTIONS, HALF, INFINITY, NEG_HALF, ONE, ZERO,
};
use crate::vec3::{Point3, Vec3};

verus! {

/// The code of a thousandth, the parameter from which a ray sees: nearer hits
/// are the surface that the ray has just left.
pub const NEAREST_VISIBLE: Scalar = 0x3F50_624D_D2F1_A9FC;

/// The code of a hundred and eighty, the angle in degrees below which a
/// vertical field of view has to stay.
pub const STRAIGHT_ANGLE: Scalar = 0x4066_8000_0000_0000;

/// The code of ninety, the field of view in degrees that a camera has unless
/// told otherwise.
pub const RIGHT_ANGLE: Scalar = 0x4056_8000_0000_0000;

/// The code of ten, the focus distance that a camera has unless told
/// otherwise.
pub const TEN: Scalar = 0x4024_0000_0000_0000;

/// What a camera is told: the raster, the sampling and the view, and the
/// number of rows that follows from them. What else it derives, the viewport
/// and its basis, is arithmetic on vectors and belongs to the embedding
/// program.
#[derive(Debug, Clone, Copy)]
pub struct Camera {
    /// Width over height of the image, above zero.
    pub aspect_ratio: Scalar,
    /// Pixels in a row, at least one.
    pub image_width: i32,
    /// Rays drawn for each pixel, at least one.
    pub samples_per_pixel: i32,
    /// Bounces that a ray has before it counts as spent, zero or more.
    pub max_depth: i32,
    /// Vertical field of view in degrees, strictly between zero and
    /// [`STRAIGHT_ANGLE`].
    pub vfov: Scalar,
    /// Where the camera stands.
    pub lookfrom: Point3,
    /// What it looks at.
    pub lookat: Point3,
    /// Which way is up.
    pub vup: Vec3,
    /// Angle in degrees of the cone of rays through each pixel, zero or more;
    /// zero switches depth of field off.
    pub defocus_angle: Scalar,
    /// Distance to the plane that is in focus, above zero.
    pub focus_dist: Scalar,
    /// Rows of the image: derived, at least one once the camera is
    /// initialised.
    pub image_height: i32,
}

/// The setting that makes a camera unusable.
#[derive(Debug, Clone, Copy, PartialEq, Eq, Structural)]
pub enum ConfigError {
    /// The aspect ratio is not above zero.
    AspectRatio,
    /// The image is less than one pixel wide.
    ImageWidth,
    /// Less than one ray is drawn for a pixel.
    SamplesPerPixel,
    /// The number of bounces is negative.
    MaxDepth,
    /// The field of view is not strictly between zero and a hundred and
    /// eighty degrees.
    FieldOfView,
    /// The defocus angle is negative.
    DefocusAngle,
    /// The focus distance is not above zero.
    FocusDistance,
}

/// What becomes of a ray that still has bounces left.
#[derive(Debug, Clone)]
pub enum Bounce {
    /// It hits nothing.
    Missed,
    /// It hits a surface that absorbs it.
    Absorbed,
    /// It hits a surface that sends it on as the given ray, with the given
    /// attenuation.
    Scattered(Color, Ray),
}

/// The light that arrives along a ray, as a recipe for the colour.
#[derive(Debug)]
pub enum Light {
    /// No light.
    Black,
    /// The background, as seen along the given ray.
    Sky(Ray),
    /// The light that follows, each channel multiplied by the attenuation.
    Tinted(Color, Box<Light>),
}

/// The range of parameters in which a ray sees: from [`NEAREST_VISIBLE`] to
/// infinity, both excluded.
pub open spec fn spec_visible() -> Interval {
    Interval { min: NEAREST_VISIBLE, max: INFINITY }
}

/// The range of parameters in which a ray sees.
#[verifier::when_used_as_spec(spec_visible)]
pub fn visible() -> (t: Interval)
    ensures
        t == spec_visible(),
{
    Interval::new(NEAREST_VISIBLE, INFINITY)
}

/// What becomes of a ray of which the world and the material have said
/// `found` and `out`: a ray that hits nothing is missed, one that a material
/// does not scatter is absorbed.
pub open spec fn fate_of<M>(found: Option<HitRecord<M>>, out: Option<(Color, Ray)>) -> Bounce {
    match found {
        None => Bounce::Missed,
        Some(_) => match out {
            None => Bounce::Absorbed,
            Some((tint, next)) => Bounce::Scattered(tint, next),
        },
    }
}

/// Whether `fate` is something that may become of `r` in `world`: the world
/// is asked for the closest visible hit, and the material of that hit for what
/// it does with the ray.
pub open spec fn bounced<M: Material, W: Hittable<M>>(
    world: W,
    r: Ray,
    fate: Bounce,
) -> bool {
    exists|found: Option<HitRecord<M>>, out: Option<(Color, Ray)>|
        {
            &&& #[trigger] reports(world, r, visible(), found)
            &&& found is Some ==> scatters(found->0.mat, r, found->0, out)
            &&& fate == #[trigger] fate_of(found, out)
        }
}

/// Whether `light` is something that may arrive along `r` in `world` when the
/// ray has `depth` bounces left. Without bounces left there is no light. A ray
/// that is missed sees the sky along itself, one that is absorbed sees
/// nothing, and one that is scattered sees what the scattered ray sees with
/// one bounce less, tinted by the attenuation.
pub open spec fn lit<M: Material, W: Hittable<M>>(
    world: W,
    r: Ray,
    depth: int,
    light: Light,
) -> bool
    decreases light,
{
    if depth <= 0 {
        light is Black
    } else {
        match light {
            Light::Black => bounced::<M, W>(world, r, Bounce::Absorbed),
            Light::Sky(seen) => seen == r && bounced::<M, W>(world, r, Bounce::Missed),
            Light::Tinted(tint, rest) => exists|next: Ray|
                {
                    &&& #[trigger] bounced::<M, W>(world, r, Bounce::Scattered(tint, next))
                    &&& lit::<M, W>(world, next, depth - 1, *rest)
                },
        }
    }
}

/// The number of surfaces that have tinted `light`.
pub open spec fn bounces(light: Light) -> nat
    decreases light,
{
    match light {
        Light::Tinted(_, rest) => 1 + bounces(*rest),
        _ => 0,
    }
}

impl ConfigError {
    /// Says in words what is wrong.
    pub fn message(&self) -> (text: &'static str)
        ensures
            text@ == (match *self {
                ConfigError::AspectRatio => "aspect ratio must be above zero"@,
                ConfigError::ImageWidth => "image width must be at least one pixel"@,
                ConfigError::SamplesPerPixel => "samples per pixel must be at least one"@,
                ConfigError::MaxDepth => "maximum depth must not be negative"@,
                ConfigError::FieldOfView => "vertical field of view must lie strictly between 0 and 180 degrees"@,
                ConfigError::DefocusAngle => "defocus angle must not be negative"@,
                ConfigError::FocusDistance => "focus distance must be above zero"@,
            }),
    {
        match *self {
            ConfigError::AspectRatio => "aspect ratio must be above zero",
            ConfigError::ImageWidth => "image width must be at least one pixel",
            ConfigError::SamplesPerPixel => "samples per pixel must be at least one",
            ConfigError::MaxDepth => "maximum depth must not be negative",
            ConfigError::FieldOfView => "vertical field of view must lie strictly between 0 and 180 degrees",
            ConfigError::DefocusAngle => "defocus angle must not be negative",
            ConfigError::FocusDistance => "focus distance must be above zero",
        }
    }
}

impl Camera {
    /// The camera with the given settings, taken as they are, not yet
    /// initialised.
    pub fn new(
        aspect_ratio: Scalar,
        image_width: i32,
        samples_per_pixel: i32,
        max_depth: i32,
        vfov: Scalar,
        lookfrom: Point3,
        lookat: Point3,
        vup: Vec3,
        defocus_angle: Scalar,
        focus_dist: Scalar,
    ) -> (camera: Self)
        ensures
            camera == (Camera {
                aspect_ratio,
                image_width,
                samples_per_pixel,
                max_depth,
                vfov,
                lookfrom,
                lookat,
                vup,
                defocus_angle,
                focus_dist,
                image_height: 0,
            }),
    {
        Camera {
            aspect_ratio,
            image_width,
            samples_per_pixel,
            max_depth,
            vfov,
            lookfrom,
            lookat,
            vup,
            defocus_angle,
            focus_dist,
            image_height: 0,
        }
    }

    /// The first setting, in the order of the fields, that is out of its
    /// range, if any is.
    pub open spec fn flaw(&self) -> Option<ConfigError> {
        if !less(ZERO, self.aspect_ratio) {
            Some(ConfigError::AspectRatio)
        } else if self.image_width < 1 {
            Some(ConfigError::ImageWidth)
        } else if self.samples_per_pixel < 1 {
            Some(ConfigError::SamplesPerPixel)
        } else if self.max_depth < 0 {
            Some(ConfigError::MaxDepth)
        } else if !(less(ZERO, self.vfov) && less(self.vfov, STRAIGHT_ANGLE)) {
            Some(ConfigError::FieldOfView)
        } else if !at_most(ZERO, self.defocus_angle) {
            Some(ConfigError::DefocusAngle)
        } else if !less(ZERO, self.focus_dist) {
            Some(ConfigError::FocusDistance)
        } else {
            None
        }
    }

    /// Checks every setting against its range, and names the first that is out
    /// of it.
    pub fn validate(&self) -> (r: Result<(), ConfigError>)
        ensures
            r == (match self.flaw() {
                Some(e) => Err::<(), ConfigError>(e),
                None => Ok(()),
            }),
    {
        if !less(ZERO, self.aspect_ratio) {
            Err(ConfigError::AspectRatio)
        } else if self.image_width < 1 {
            Err(ConfigError::ImageWidth)
        } else if self.samples_per_pixel < 1 {
            Err(ConfigError::SamplesPerPixel)
        } else if self.max_depth < 0 {
            Err(ConfigError::MaxDepth)
        } else if !(less(ZERO, self.vfov) && less(self.vfov, STRAIGHT_ANGLE)) {
            Err(ConfigError::FieldOfView)
        } else if !at_most(ZERO, self.defocus_angle) {
            Err(ConfigError::DefocusAngle)
        } else if !less(ZERO, self.focus_dist) {
            Err(ConfigError::FocusDistance)
        } else {
            Ok(())
        }
    }

    /// The number of rows of an image for which the width divided by the
    /// aspect ratio is `rows`: the whole part of that, and one at least.
    pub open spec fn rows_for(rows: Scalar) -> i32 {
        if truncated(rows) < 1 {
            1
        } else {
            truncated(rows)
        }
    }

    /// Derives the number of rows of the image, given `rows`, the width
    /// divided by the aspect ratio. The other settings stay.
    pub fn initialize(&mut self, rows: Scalar)
        ensures
            *final(self) == (Camera { image_height: Self::rows_for(rows), ..*old(self) }),
            final(self).image_height >= 1,
    {
        let whole = truncated(rows);
        self.image_height = if whole < 1 { 1 } else { whole };
    }

    /// A random point of the square of side one round the origin, by which a
    /// ray through a pixel is moved off the middle of the pixel: either of
    /// the first two components from minus a half up to a half, the third one
    /// zero.
    pub fn sample_square() -> (offset: Vec3)
        ensures
            drawn(offset.x, 0x8_0000_0000_0000, FRACTIONS as int),
            drawn(offset.y, 0x8_0000_0000_0000, FRACTIONS as int),
            at_most(NEG_HALF, offset.x) && less(offset.x, HALF),
            at_most(NEG_HALF, offset.y) && less(offset.y, HALF),
            offset.z == ZERO,
    {
        let x = random_offset();
        let y = random_offset();
        Vec3::new(x, y, ZERO)
    }

    /// Whether rays start on the defocus disk, for depth of field. They start
    /// at the camera itself where the defocus angle is zero or less.
    pub fn defocused(&self) -> (r: bool)
        ensures
            r == !at_most(self.defocus_angle, ZERO),
    {
        !at_most(self.defocus_angle, ZERO)
    }
}

impl Default for Camera {
    /// A square image of a hundred pixels a side, a hundred samples a pixel
    /// and fifty bounces, seen from the origin with a field of view of ninety
    /// degrees, the second axis up, without depth of field, in focus at ten.
    fn default() -> (camera: Self)
        ensures
            camera == (Camera {
                aspect_ratio: ONE,
                image_width: 100,
                samples_per_pixel: 100,
                max_depth: 50,
                vfov: RIGHT_ANGLE,
                lookfrom: Vec3 { x: ZERO, y: ZERO, z: ZERO },
                lookat: Vec3 { x: ZERO, y: ZERO, z: ZERO },
                vup: Vec3 { x: ZERO, y: ONE, z: ZERO },
                defocus_angle: ZERO,
                focus_dist: TEN,
                image_height: 100,
            }),
    {
        Camera {
            aspect_ratio: ONE,
            image_width: 100,
            samples_per_pixel: 100,
            max_depth: 50,
            vfov: RIGHT_ANGLE,
            lookfrom: Vec3::new(ZERO, ZERO, ZERO),
            lookat: Vec3::new(ZERO, ZERO, ZERO),
            vup: Vec3::new(ZERO, ONE, ZERO),
            defocus_angle: ZERO,
            focus_dist: TEN,
            image_height: 100,
        }
    }
}

/// Follows `r` to the closest visible surface of `world` and lets the material
/// there scatter it.
pub fn bounce<M: Material, W: Hittable<M>>(r: &Ray, world: &W) -> (fate: Bounce)
    ensures
        bounced(*world, *r, fate),
{
    let range = visible();
    let found = world.hit(r, &range);
    assert(reports(*world, *r, visible(), found));
    match &found {
        None => {
            assert(fate_of::<M>(found, None) == Bounce::Missed);
            Bounce::Missed
        },
        Some(rec) => {
            let out = rec.mat.scatter(r, rec);
            assert(scatters(found->0.mat, *r, found->0, out));
            let fate = match out {
                None => Bounce::Absorbed,
                Some((tint, next)) => Bounce::Scattered(tint, next),
            };
            assert(fate == fate_of(found, out));
            fate
        },
    }
}

impl Camera {
    /// The light that arrives along `r` in `world` when the ray has `depth`
    /// bounces left. A ray without bounces left brings no light, whatever the
    /// world holds.
    pub fn ray_color<M: Material, W: Hittable<M>>(r: &Ray, depth: i32, world: &W) -> (light:
        Light)
        ensures
            lit(*world, *r, depth as int, light),
            depth <= 0 ==> light is Black,
            bounces(light) <= (if depth > 0 { depth } else { 0 }),
        decreases depth,
    {
        if depth <= 0 {
            return Light::Black;
        }
        match bounce(r, world) {
            Bounce::Missed => {
                let light = Light::Sky(*r);
                assert(lit::<M, W>(*world, *r, depth as int, light));
                light
            },
            Bounce::Absorbed => {
                let light = Light::Black;
                assert(lit::<M, W>(*world, *r, depth as int, light));
                light
            },
            Bounce::Scattered(tint, next) => {
                let rest = Self::ray_color(&next, depth - 1, world);
                let light = Light::Tinted(tint, Box::new(rest));
                assert(exists|n: Ray|
                    {
                        &&& #[trigger] bounced::<M, W>(*world, *r, Bounce::Scattered(tint, n))
                        &&& lit::<M, W>(*world, n, depth - 1, rest)
                    });
                assert(light matches Light::Tinted(c, kept) && c == tint && *kept == rest);
                assert(lit::<M, W>(*world, *r, depth as int, light));
                assert(bounces(light) == 1 + bounces(rest));
                light
            },
        }
    }

    /// The lights of one pixel: one for each of the camera's samples, each
    /// arriving along a ray that `get_ray` has drawn and followed for the
    /// camera's maximum depth.
    pub fn sample<M: Material, W: Hittable<M>, F: Fn() -> Ray>(
        &self,
        world: &W,
        get_ray: F,
    ) -> (lights: Vec<Light>)
        requires
            call_requires(get_ray, ()),
        ensures
            lights@.len() == (if self.samples_per_pixel > 0 { self.samples_per_pixel as int } else { 0 }),
            forall|k: int|
                0 <= k < lights@.len() ==> sampled::<M, W, F>(
                    *world,
                    get_ray,
                    self.max_depth as int,
                    #[trigger] lights@[k],
                ),
    {
        let mut lights: Vec<Light> = Vec::new();
        let mut drawn: i32 = 0;
        while drawn < self.samples_per_pixel
            invariant
                0 <= drawn,
                drawn <= self.samples_per_pixel || drawn == 0,
                lights@.len() == drawn,
                call_requires(get_ray, ()),
                forall|k: int|
                    0 <= k < lights@.len() ==> sampled::<M, W, F>(
                        *world,
                        get_ray,
                        self.max_depth as int,
                        #[trigger] lights@[k],
                    ),
            decreases self.samples_per_pixel - drawn,
        {
            let r = get_ray();
            let light = Self::ray_color(&r, self.max_depth, world);
            assert(sampled::<M, W, F>(*world, get_ray, self.max_depth as int, light)) by {
                assert(call_ensures(get_ray, (), r) && lit::<M, W>(
                    *world,
                    r,
                    self.max_depth as int,
                    light,
                ));
            }
            lights.push(light);
            drawn += 1;
        }
        lights
    }
}

/// Whether `light` is something that may arrive along a ray that `get_ray`
/// has drawn, followed in `world` for `depth` bounces.
pub open spec fn sampled<M: Material, W: Hittable<M>, F: Fn() -> Ray>(
    world: W,
    get_ray: F,
    depth: int,
    light: Light,
) -> bool {
    exists|r: Ray| #[trigger] call_ensures(get_ray, (), r) && lit::<M, W>(world, r, depth, light)
}

/// In a scene without shapes, every light of a pixel is the sky along a ray
/// that was drawn for the pixel, as long as rays have a bounce at all.
pub proof fn lemma_empty_scene_samples_sky<M: Material, H: Hittable<M>, F: Fn() -> Ray>(
    scene: HittableList<H>,
    get_ray: F,
    depth: int,
    light: Light,
)
    requires
        scene@.len() == 0,
        depth > 0,
        sampled::<M, HittableList<H>, F>(scene, get_ray, depth, light),
    ensures
        exists|r: Ray| #[trigger] call_ensures(get_ray, (), r) && light == Light::Sky(r),
{
    let r = choose|r: Ray| #[trigger]
        call_ensures(get_ray, (), r) && lit::<M, HittableList<H>>(scene, r, depth, light);
    lemma_empty_scene_shows_sky::<M, H>(scene, r, depth, light);
}

/// The constants of the camera stand for the numbers they are named after:
/// the double nearest to a thousandth, a hundred and eighty, ninety and ten.
pub proof fn lemma_camera_constants()
    ensures
        stands_nearly_for(NEAREST_VISIBLE, 1, 1000),
        stands_for(STRAIGHT_ANGLE, 180, 1),
        stands_for(RIGHT_ANGLE, 90, 1),
        stands_for(TEN, 10, 1),
{
    lemma2_to64();
    lemma2_to64_rest();
    lemma_stands_nearly_for(NEAREST_VISIBLE, 62, 1, 1000);
    lemma_stands_for(STRAIGHT_ANGLE, 45, 180, 1);
    lemma_stands_for(RIGHT_ANGLE, 46, 90, 1);
    lemma_stands_for(TEN, 49, 10, 1);
}

/// Light passes at most as many surfaces as the ray had bounces.
pub proof fn lemma_light_within_depth<M: Material, W: Hittable<M>>(
    world: W,
    r: Ray,
    depth: int,
    light: Light,
)
    requires
        lit(world, r, depth, light),
    ensures
        bounces(light) <= (if depth > 0 { depth } else { 0 }),
    decreases light,
{
    if depth > 0 {
        match light {
            Light::Tinted(tint, rest) => {
                let next = choose|next: Ray|
                    {
                        &&& #[trigger] bounced::<M, W>(world, r, Bounce::Scattered(tint, next))
                        &&& lit::<M, W>(world, next, depth - 1, *rest)
                    };
                lemma_light_within_depth(world, next, depth - 1, *rest);
            },
            _ => {},
        }
    }
}

/// In a world that never reports a hit, a ray with bounces left sees the sky
/// along itself, and nothing else.
pub proof fn lemma_unhit_world_shows_sky<M: Material, W: Hittable<M>>(
    world: W,
    r: Ray,
    depth: int,
    light: Light,
)
    requires
        depth > 0,
        lit(world, r, depth, light),
        forall|t: Interval, rec: Option<HitRecord<M>>| #[trigger] reports(world, r, t, rec) ==> rec is None,
    ensures
        light == Light::Sky(r),
{
}

/// In a scene without shapes, a ray with bounces left sees the sky along
/// itself, and nothing else.
pub proof fn lemma_empty_scene_shows_sky<M: Material, H: Hittable<M>>(
    scene: HittableList<H>,
    r: Ray,
    depth: int,
    light: Light,
)
    requires
        scene@.len() == 0,
        depth > 0,
        lit(scene, r, depth, light),
    ensures
        light == Light::Sky(r),
{
    assert forall|t: Interval, rec: Option<HitRecord<M>>| #[trigger]
        reports(scene, r, t, rec) implies rec is None by {
        lemma_empty_list_is_missed(scene, r, t, rec);
    }
    lemma_unhit_world_shows_sky(scene, r, depth, light);
}

} // verus!
