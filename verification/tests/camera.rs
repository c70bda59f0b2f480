use pathtracer::camera::{visible, Camera, ConfigError};
use pathtracer::color::{intensity, linear_to_gamma, write_color, Color};
use pathtracer::scalar::{from_bits, to_bits, Scalar};
use pathtracer::vec3::{Point3, Vec3};

fn code(x: f64) -> Scalar {
    from_bits(x.to_bits())
}

fn number(c: Scalar) -> f64 {
    f64::from_bits(to_bits(c))
}

fn point3(x: f64, y: f64, z: f64) -> Point3 {
    Vec3::new(code(x), code(y), code(z))
}

fn wide_camera() -> Camera {
    Camera::new(
        code(2.0),
        200,
        100,
        10,
        code(90.0),
        point3(0.0, 0.0, -1.0),
        point3(0.0, 0.0, 0.0),
        point3(0.0, 1.0, 0.0),
        code(0.0),  // defocus_angle
        code(10.0), // focus_dist
    )
}

#[test]
fn test_camera_default() {
    let camera = Camera::default();
    assert_eq!(number(camera.aspect_ratio), 1.0);
    assert_eq!(camera.image_width, 100);
    assert_eq!(camera.image_height, 100);
}

#[test]
fn test_camera_new() {
    let camera = wide_camera();
    assert_eq!(number(camera.aspect_ratio), 2.0);
    assert_eq!(camera.image_width, 200);
    assert_eq!(camera.lookfrom, point3(0.0, 0.0, -1.0));
    assert_eq!(camera.lookat, point3(0.0, 0.0, 0.0));
}

// The viewport that follows from the settings: the arithmetic that the library
// leaves to its user.
fn pixel_deltas(camera: &Camera) -> ([f64; 3], [f64; 3]) {
    let xyz = |v: Vec3| [number(v.x()), number(v.y()), number(v.z())];
    let minus = |a: [f64; 3], b: [f64; 3]| [a[0] - b[0], a[1] - b[1], a[2] - b[2]];
    let times = |a: [f64; 3], k: f64| [a[0] * k, a[1] * k, a[2] * k];
    let cross = |a: [f64; 3], b: [f64; 3]| {
        [a[1] * b[2] - a[2] * b[1], a[2] * b[0] - a[0] * b[2], a[0] * b[1] - a[1] * b[0]]
    };
    let unit = |a: [f64; 3]| times(a, 1.0 / length(a));

    let theta = number(camera.vfov).to_radians();
    let h = (theta / 2.0).tan();
    let viewport_height = 2.0 * h * number(camera.focus_dist);
    let viewport_width = viewport_height * (camera.image_width as f64 / camera.image_height as f64);

    let w = unit(minus(xyz(camera.lookfrom), xyz(camera.lookat)));
    let u = unit(cross(xyz(camera.vup), w));
    let v = cross(w, u);

    let viewport_u = times(u, viewport_width);
    let viewport_v = times(v, -viewport_height);
    (times(viewport_u, 1.0 / camera.image_width as f64), times(viewport_v, 1.0 / camera.image_height as f64))
}

fn length(a: [f64; 3]) -> f64 {
    (a[0] * a[0] + a[1] * a[1] + a[2] * a[2]).sqrt()
}

#[test]
fn test_camera_initialize() {
    let mut camera = wide_camera();
    camera.initialize(code(camera.image_width as f64 / number(camera.aspect_ratio)));
    let (pixel_du, pixel_dv) = pixel_deltas(&camera);
    let center = camera.lookfrom;
    assert_eq!(camera.image_height, 100); // 200/2.0 = 100
    assert!(length(pixel_du) > 0.0);
    assert!(length(pixel_dv) > 0.0);
    assert_eq!(center, point3(0.0, 0.0, -1.0));
}

#[test]
fn test_camera_new_takes_every_setting() {
    let camera = Camera::new(
        code(1.5),
        300,
        7,
        11,
        code(20.0),
        point3(13.0, 2.0, 3.0),
        point3(0.0, 0.5, 0.0),
        point3(0.0, 1.0, 0.0),
        code(0.6),
        code(10.5),
    );
    assert_eq!(number(camera.aspect_ratio), 1.5);
    assert_eq!(camera.image_width, 300);
    assert_eq!(camera.samples_per_pixel, 7);
    assert_eq!(camera.max_depth, 11);
    assert_eq!(number(camera.vfov), 20.0);
    assert_eq!(camera.lookfrom, point3(13.0, 2.0, 3.0));
    assert_eq!(camera.lookat, point3(0.0, 0.5, 0.0));
    assert_eq!(camera.vup, point3(0.0, 1.0, 0.0));
    assert_eq!(number(camera.defocus_angle), 0.6);
    assert_eq!(number(camera.focus_dist), 10.5);
    assert_eq!(camera.image_height, 0);
}

#[test]
fn test_camera_default_settings() {
    let camera = Camera::default();
    assert_eq!(camera.samples_per_pixel, 100);
    assert_eq!(camera.max_depth, 50);
    assert_eq!(number(camera.vfov), 90.0);
    assert_eq!(camera.lookfrom, point3(0.0, 0.0, 0.0));
    assert_eq!(camera.lookat, point3(0.0, 0.0, 0.0));
    assert_eq!(camera.vup, point3(0.0, 1.0, 0.0));
    assert_eq!(number(camera.defocus_angle), 0.0);
    assert_eq!(number(camera.focus_dist), 10.0);
    assert_eq!(camera.validate(), Ok(()));
}

#[test]
fn test_camera_rows() {
    let mut camera = wide_camera();
    camera.initialize(code(camera.image_width as f64 / number(camera.aspect_ratio)));
    assert_eq!(camera.image_height, 100); // 200/2.0 = 100
    assert_eq!(camera.image_width, 200);
    assert_eq!(camera.lookfrom, point3(0.0, 0.0, -1.0));

    for (rows, height) in [
        (0.0, 1),
        (-7.0, 1),
        (0.999, 1),
        (1.0, 1),
        (1.999, 1),
        (2.0, 2),
        (225.0, 225),
        (224.99999999999997, 224),
        (400.0 / (16.0 / 9.0), 225),
        (2147483647.0, i32::MAX),
        (1e300, i32::MAX),
        (f64::INFINITY, i32::MAX),
        (f64::NEG_INFINITY, 1),
        (f64::NAN, 1),
    ] {
        camera.initialize(code(rows));
        assert_eq!(camera.image_height, height);
        assert_eq!(camera.image_height, ((rows as f64) as i32).max(1));
    }
}

#[test]
fn test_write_color() {
    let bytes = |r: f64, g: f64, b: f64| write_color(&Vec3::new(code(r), code(g), code(b)));
    assert_eq!(bytes(0.0, 127.9995, 255.999), (0, 127, 255));
    assert_eq!(bytes(255.999 * 0.999, 255.999 * 0.5, 255.999 * 0.25), (255, 127, 63));
    assert_eq!(bytes(0.9999, 1.0, 1.0001), (0, 1, 1));
    assert_eq!(bytes(-0.5, -1.0, -1.5), (0, -1, -1));
    assert_eq!(bytes(f64::NAN, f64::INFINITY, f64::NEG_INFINITY), (0, i32::MAX, i32::MIN));
    // The reddest pixel of all.
    let red = [1.0_f64, 0.0, 0.0];
    assert_eq!(bytes(255.999 * red[0], 255.999 * red[1], 255.999 * red[2]), (255, 0, 0));
}

#[test]
fn test_camera_validate_accepts() {
    assert_eq!(wide_camera().validate(), Ok(()));
    let mut camera = wide_camera();
    camera.max_depth = 0;
    camera.samples_per_pixel = 1;
    camera.image_width = 1;
    camera.vfov = code(179.999);
    camera.defocus_angle = code(0.0);
    camera.focus_dist = code(1e-300);
    camera.aspect_ratio = code(f64::INFINITY);
    assert_eq!(camera.validate(), Ok(()));
}

#[test]
fn test_camera_validate_aspect_ratio() {
    for aspect_ratio in [0.0, -0.0, -1.0, f64::NAN, f64::NEG_INFINITY] {
        let mut camera = wide_camera();
        camera.aspect_ratio = code(aspect_ratio);
        assert_eq!(camera.validate(), Err(ConfigError::AspectRatio));
    }
}

#[test]
fn test_camera_validate_image_width() {
    for image_width in [0, -1, i32::MIN] {
        let mut camera = wide_camera();
        camera.image_width = image_width;
        assert_eq!(camera.validate(), Err(ConfigError::ImageWidth));
    }
}

#[test]
fn test_camera_validate_samples() {
    for samples in [0, -1, i32::MIN] {
        let mut camera = wide_camera();
        camera.samples_per_pixel = samples;
        assert_eq!(camera.validate(), Err(ConfigError::SamplesPerPixel));
    }
}

#[test]
fn test_camera_validate_depth() {
    for depth in [-1, i32::MIN] {
        let mut camera = wide_camera();
        camera.max_depth = depth;
        assert_eq!(camera.validate(), Err(ConfigError::MaxDepth));
    }
}

#[test]
fn test_camera_validate_field_of_view() {
    for vfov in [0.0, -10.0, 180.0, 180.5, 360.0, f64::NAN, f64::INFINITY] {
        let mut camera = wide_camera();
        camera.vfov = code(vfov);
        assert_eq!(camera.validate(), Err(ConfigError::FieldOfView));
    }
}

#[test]
fn test_camera_validate_defocus_angle() {
    for angle in [-0.001, -90.0, f64::NAN] {
        let mut camera = wide_camera();
        camera.defocus_angle = code(angle);
        assert_eq!(camera.validate(), Err(ConfigError::DefocusAngle));
    }
}

#[test]
fn test_camera_validate_focus_distance() {
    for focus_dist in [0.0, -1.0, f64::NAN] {
        let mut camera = wide_camera();
        camera.focus_dist = code(focus_dist);
        assert_eq!(camera.validate(), Err(ConfigError::FocusDistance));
    }
}

#[test]
fn test_camera_validate_names_the_first_flaw() {
    let mut camera = wide_camera();
    camera.focus_dist = code(0.0);
    camera.vfov = code(200.0);
    assert_eq!(camera.validate(), Err(ConfigError::FieldOfView));
    camera.samples_per_pixel = 0;
    assert_eq!(camera.validate(), Err(ConfigError::SamplesPerPixel));
    camera.max_depth = -1;
    assert_eq!(camera.validate(), Err(ConfigError::SamplesPerPixel));
    camera.image_width = 0;
    assert_eq!(camera.validate(), Err(ConfigError::ImageWidth));
    camera.aspect_ratio = code(0.0);
    assert_eq!(camera.validate(), Err(ConfigError::AspectRatio));
}

#[test]
fn test_config_error_messages() {
    assert_eq!(ConfigError::AspectRatio.message(), "aspect ratio must be above zero");
    assert_eq!(ConfigError::ImageWidth.message(), "image width must be at least one pixel");
    assert_eq!(ConfigError::SamplesPerPixel.message(), "samples per pixel must be at least one");
    assert_eq!(ConfigError::MaxDepth.message(), "maximum depth must not be negative");
    assert_eq!(
        ConfigError::FieldOfView.message(),
        "vertical field of view must lie strictly between 0 and 180 degrees"
    );
    assert_eq!(ConfigError::DefocusAngle.message(), "defocus angle must not be negative");
    assert_eq!(ConfigError::FocusDistance.message(), "focus distance must be above zero");
}

#[test]
fn test_camera_defocused() {
    let mut camera = wide_camera();
    assert!(!camera.defocused());
    camera.defocus_angle = code(-1.0);
    assert!(!camera.defocused());
    camera.defocus_angle = code(-0.0);
    assert!(!camera.defocused());
    camera.defocus_angle = code(0.6);
    assert!(camera.defocused());
    camera.defocus_angle = code(10.0);
    assert!(camera.defocused());
}

#[test]
fn test_sample_square() {
    let mut corners = [0; 4];
    for _ in 0..4000 {
        let offset = Camera::sample_square();
        let (x, y) = (number(offset.x()), number(offset.y()));
        assert!(-0.5 <= x && x < 0.5);
        assert!(-0.5 <= y && y < 0.5);
        assert_eq!(number(offset.z()), 0.0);
        corners[(x < 0.0) as usize * 2 + (y < 0.0) as usize] += 1;
    }
    assert!(corners.iter().all(|n| 800 < *n && *n < 1200));
}

#[test]
fn test_visible_range() {
    let range = visible();
    assert_eq!(number(range.min()), 0.001);
    assert_eq!(number(range.max()), f64::INFINITY);
    assert!(!range.surrounds(code(0.001)));
    assert!(!range.surrounds(code(0.0)));
    assert!(range.surrounds(code(0.0011)));
    assert!(range.surrounds(code(1e300)));
    assert!(!range.surrounds(code(f64::INFINITY)));
}

#[test]
fn test_intensity_range() {
    let range = intensity();
    assert_eq!(number(range.min()), 0.0);
    assert_eq!(number(range.max()), 0.999);
}

#[test]
fn test_linear_to_gamma() {
    let shown = |linear: f64| number(linear_to_gamma(code(linear)));
    assert_eq!(shown(0.25), 0.5);
    assert_eq!(shown(0.81), 0.81_f64.sqrt());
    assert_eq!(shown(0.0), 0.0);
    assert_eq!(shown(-0.5), 0.0);
    assert_eq!(shown(-f64::INFINITY), 0.0);
    assert_eq!(shown(1.0), 0.999);
    assert_eq!(shown(4.0), 0.999);
    assert_eq!(shown(f64::INFINITY), 0.999);
    assert_eq!(shown(0.998001), 0.998001_f64.sqrt());
    assert_eq!(shown(f64::NAN), 0.0);
}

#[test]
fn test_linear_to_gamma_is_the_clamped_root() {
    let mut linear = 1e-320_f64;
    while linear < 1e300 {
        let shown = number(linear_to_gamma(code(linear)));
        assert_eq!(shown, linear.sqrt().clamp(0.0, 0.999), "{}", linear);
        assert_eq!(number(linear_to_gamma(code(-linear))), 0.0);
        linear *= 1.37;
    }
    assert_eq!(number(linear_to_gamma(code(0.998001))), 0.998001_f64.sqrt());
    assert_eq!(number(linear_to_gamma(code(0.99800100000001))), 0.999);
}

#[test]
fn test_gamma_stays_in_range_and_keeps_the_order() {
    let shown = |linear: f64| number(linear_to_gamma(code(linear)));
    let mut before = shown(-1.0);
    let mut linear = -1.0;
    while linear < 3.0 {
        let now = shown(linear);
        assert!(0.0 <= now && now <= 0.999);
        assert!(before <= now);
        // What is in range already is left alone by one more clamp.
        assert_eq!(number(intensity().clamp(code(now))), now);
        before = now;
        linear += 0.001953125;
    }
}

#[test]
fn test_colour_is_a_vector() {
    let c: Color = Vec3::new(code(0.5), code(0.7), code(1.0));
    assert_eq!(number(c.x()), 0.5);
    assert_eq!(number(c.y()), 0.7);
    assert_eq!(number(c.z()), 1.0);
}
