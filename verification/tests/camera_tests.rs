use raytracer::camera::{
    band_bytes, channel, disk_from_sample, half, image_height, intensity, linear_to_gamma,
    random_in_unit_disk, shading_range, sky_blue, sky_color, write_color, Camera,
    Sample,
};
use raytracer::fixed::{Fixed, SCALE};
use raytracer::hittable::HittableList;
use raytracer::interval::Interval;
use raytracer::material::{Lambertian, Material, Metal};
use raytracer::ray::Ray;
use raytracer::sphere::Sphere;
use raytracer::vec3::Vec3;

fn c(x: i32, y: i32, z: i32) -> Vec3 {
    Vec3::new(Fixed::from_int(x), Fixed::from_int(y), Fixed::from_int(z))
}

fn approx(x: Fixed) -> f64 {
    x.raw as f64 / 4294967296.0
}

fn black_matte() -> Material {
    Material::Lambertian(Lambertian::new(Vec3::zero()))
}

fn still_sample() -> Sample {
    Sample { offset: Vec3::zero(), lens: Vec3::zero(), time: Fixed::zero() }
}

fn narrow_camera(width: i32, aspect_ratio: Fixed) -> Camera {
    let mut camera = Camera::new();
    camera.width = width;
    camera.aspect_ratio = aspect_ratio;
    camera.samples_per_pixel = 1;
    camera.max_depth = 1;
    camera.vfov_tan = Fixed::from_ratio(1, 10);
    camera.focus_distance = Fixed::one();
    camera
}

#[test]
fn camera_new_has_the_defaults() {
    let camera = Camera::new();
    assert_eq!(camera.aspect_ratio, Fixed::one());
    assert_eq!(camera.width, 100);
    assert_eq!(camera.samples_per_pixel, 10);
    assert_eq!(camera.max_depth, 10);
    assert_eq!(camera.vfov_tan, Fixed::one());
    assert_eq!(camera.lookfrom, Vec3::zero());
    assert_eq!(camera.lookat, c(0, 0, -1));
    assert_eq!(camera.vup, c(0, 1, 0));
    assert_eq!(camera.defocus_tan, Fixed::zero());
    assert_eq!(camera.focus_distance, Fixed::from_int(10));
    assert_eq!(camera.height, 0);
    assert_eq!(camera.pixel_samples_scale, Fixed::zero());
}

#[test]
fn camera_default_is_all_zero() {
    let camera = Camera::default();
    assert_eq!(camera.aspect_ratio, Fixed::zero());
    assert_eq!(camera.width, 0);
    assert_eq!(camera.samples_per_pixel, 0);
    assert_eq!(camera.max_depth, 0);
    assert_eq!(camera.vfov_tan, Fixed::zero());
    assert_eq!(camera.lookfrom, Vec3::zero());
    assert_eq!(camera.lookat, Vec3::zero());
    assert_eq!(camera.vup, Vec3::zero());
    assert_eq!(camera.defocus_tan, Fixed::zero());
    assert_eq!(camera.focus_distance, Fixed::zero());
    assert_eq!(camera.height, 0);
    assert_eq!(camera.center, Vec3::zero());
    assert_eq!(camera.pixel00_loc, Vec3::zero());
    assert_eq!(camera.u, Vec3::zero());
    assert_eq!(camera.defocus_disk_v, Vec3::zero());
    assert_ne!(camera, Camera::new());
}

#[test]
fn camera_initialize_with_nothing_to_look_at_has_no_frame() {
    let mut camera = Camera::new();
    camera.lookat = camera.lookfrom;
    camera.initialize();
    assert_eq!(camera.w, Vec3::zero());
    assert_eq!(camera.u, Vec3::zero());
    assert_eq!(camera.v, Vec3::zero());
    assert_eq!(camera.pixel_delta_u, Vec3::zero());
    assert_eq!(camera.pixel00_loc, Vec3::zero());
    assert_eq!(camera.height, 100);
}

#[test]
fn sky_color_stays_in_range_for_every_direction() {
    let horizon = Vec3::one().scale(half()).add(sky_blue().scale(half()));
    // a direction without length counts as level
    let tiny = Vec3::new(Fixed::zero(), Fixed::from_raw(100), Fixed::zero());
    assert_eq!(sky_color(tiny), horizon);
    let directions = [
        tiny,
        Vec3::new(Fixed::zero(), Fixed::from_raw(92681), Fixed::zero()),
        Vec3::new(Fixed::zero(), Fixed::from_raw(-92681), Fixed::zero()),
        Vec3::new(Fixed::from_int(3), Fixed::infinity(), Fixed::zero()),
        Vec3::new(Fixed::from_int(3), Fixed::neg_infinity(), Fixed::infinity()),
        c(2000000, -2000000, 5),
        c(0, -1, 0),
        c(1, 1, 1),
    ];
    for direction in directions {
        let color = sky_color(direction);
        for part in [color.x, color.y, color.z] {
            assert!(0 <= part.raw && part.raw <= SCALE, "{direction:?} gives {color:?}");
        }
    }
}

#[test]
fn render_one_pixel_of_an_absorbing_sphere_is_black() {
    let mut camera = narrow_camera(1, Fixed::one());
    camera.max_depth = 50;
    let mut world = HittableList::new();
    world.add(Sphere::new(c(0, 0, -1), Fixed::from_ratio(1, 2), Material::Absorbing));
    for _ in 0..20 {
        assert_eq!(camera.render(&world), vec![(0, 0, 0)]);
    }
    let ray = Ray::new(Vec3::zero(), c(0, 0, -1), Fixed::zero());
    assert_eq!(camera.ray_color(&ray, 50, &world), Vec3::zero());
}

#[test]
fn image_height_is_floored_and_at_least_one() {
    assert_eq!(image_height(100, Fixed::one()), 100);
    assert_eq!(image_height(400, Fixed::from_ratio(16, 9)), 225);
    assert_eq!(image_height(100, Fixed::from_int(3)), 33);
    assert_eq!(image_height(1, Fixed::from_int(2)), 1);
    assert_eq!(image_height(0, Fixed::one()), 1);
    assert_eq!(image_height(-5, Fixed::one()), 1);
    assert_eq!(image_height(7, Fixed::zero()), i32::MAX);
}

#[test]
fn camera_initialize_exact_values() {
    let mut camera = Camera::new();
    camera.initialize();
    assert_eq!(camera.height, 100);
    assert_eq!(camera.center, Vec3::zero());
    assert_eq!(camera.w, c(0, 0, 1));
    assert_eq!(camera.u, c(1, 0, 0));
    assert_eq!(camera.v, c(0, 1, 0));
    // the viewport is 20 by 20 at distance 10: a pixel is a fifth wide
    let fifth = Fixed::from_ratio(1, 5);
    assert_eq!(fifth.raw, 858993459);
    assert_eq!(camera.pixel_delta_u, Vec3::new(fifth, Fixed::zero(), Fixed::zero()));
    assert_eq!(camera.pixel_delta_v, Vec3::new(Fixed::zero(), fifth.neg(), Fixed::zero()));
    let tenth = Fixed::from_raw(429496729);
    assert_eq!(
        camera.pixel00_loc,
        Vec3::new(Fixed::from_int(-10).add(tenth), Fixed::from_int(10).sub(tenth), Fixed::from_int(-10))
    );
    assert_eq!(camera.pixel_samples_scale, Fixed::from_ratio(1, 10));
    assert_eq!(camera.defocus_disk_u, Vec3::zero());
    assert_eq!(camera.defocus_disk_v, Vec3::zero());
    // the view is left as it was
    assert_eq!(camera.width, 100);
    assert_eq!(camera.lookat, c(0, 0, -1));
}

#[test]
fn camera_initialize_with_a_lens_and_a_slanted_view() {
    let mut camera = Camera::new();
    camera.width = 400;
    camera.aspect_ratio = Fixed::from_ratio(16, 9);
    camera.lookfrom = c(0, 0, 5);
    camera.lookat = c(0, 0, 0);
    camera.focus_distance = Fixed::from_int(4);
    camera.defocus_tan = Fixed::from_ratio(1, 8);
    camera.vfov_tan = Fixed::from_ratio(1, 2);
    camera.samples_per_pixel = 4;
    camera.initialize();
    assert_eq!(camera.height, 225);
    assert_eq!(camera.center, c(0, 0, 5));
    assert_eq!(camera.w, c(0, 0, 1));
    assert_eq!(camera.pixel_samples_scale, Fixed::from_ratio(1, 4));
    // the lens has the radius 4 / 8
    assert_eq!(camera.defocus_disk_u, Vec3::new(Fixed::from_ratio(1, 2), Fixed::zero(), Fixed::zero()));
    assert_eq!(camera.defocus_disk_v, Vec3::new(Fixed::zero(), Fixed::from_ratio(1, 2), Fixed::zero()));
    // viewport: 4 high, 4 * 400 / 225 wide
    assert!((approx(camera.pixel_delta_v.y) + 4.0 / 225.0).abs() < 1e-8);
    assert!((approx(camera.pixel_delta_u.x) - 4.0 / 225.0).abs() < 1e-8);
    assert!((approx(camera.pixel00_loc.z) - 1.0).abs() < 1e-8);
    assert!((approx(camera.pixel00_loc.y) - (2.0 - 2.0 / 225.0)).abs() < 1e-7);
}

#[test]
fn sky_color_at_the_horizon_is_halfway_between_white_and_sky_blue() {
    let expected = Vec3::one().scale(half()).add(sky_blue().scale(half()));
    assert_eq!(expected.x, Fixed::from_ratio(3, 4));
    assert_eq!(expected.y.raw, 3650722201);
    assert_eq!(expected.z, Fixed::one());
    for direction in [c(1, 0, 0), c(0, 0, -1), c(-3, 0, 4), c(1000, 0, 1)] {
        assert_eq!(sky_color(direction), expected);
    }
}

#[test]
fn sky_color_runs_from_white_below_to_sky_blue_above() {
    assert_eq!(sky_color(c(0, 1, 0)), sky_blue());
    assert_eq!(sky_color(c(0, 7, 0)), sky_blue());
    assert_eq!(sky_color(c(0, -1, 0)), Vec3::one());
    assert_eq!(sky_blue().y.raw, 3006477107);
    let slanted = sky_color(c(3, 4, 0));
    // a = 0.5 * (0.8 + 1) = 0.9
    assert!((approx(slanted.x) - 0.55).abs() < 1e-8);
    assert!((approx(slanted.y) - 0.73).abs() < 1e-8);
    assert!((approx(slanted.z) - 1.0).abs() < 1e-8);
}

#[test]
fn ray_color_of_a_ray_that_misses_is_the_sky() {
    let camera = Camera::new();
    let mut world = HittableList::new();
    for direction in [c(1, 0, 0), c(0, 1, 0), c(2, -5, 1)] {
        let ray = Ray::new(Vec3::zero(), direction, Fixed::zero());
        assert_eq!(camera.ray_color(&ray, 5, &world), sky_color(direction));
    }
    world.add(Sphere::new(c(0, 0, -1), Fixed::from_ratio(1, 2), black_matte()));
    let beside = Ray::new(Vec3::zero(), c(1, 0, 0), Fixed::zero());
    let expected = Vec3::one().scale(half()).add(sky_blue().scale(half()));
    for _ in 0..20 {
        assert_eq!(camera.ray_color(&beside, 50, &world), expected);
    }
}

#[test]
fn ray_color_without_depth_is_black() {
    let camera = Camera::new();
    let mut world = HittableList::new();
    let ray = Ray::new(Vec3::zero(), c(0, 0, -1), Fixed::zero());
    assert_eq!(camera.ray_color(&ray, 0, &world), Vec3::zero());
    assert_eq!(camera.ray_color(&ray, -3, &world), Vec3::zero());
    world.add(Sphere::new(c(0, 0, -1), Fixed::from_ratio(1, 2), black_matte()));
    assert_eq!(camera.ray_color(&ray, 0, &world), Vec3::zero());
}

#[test]
fn ray_color_tints_what_the_scattered_ray_brings() {
    let camera = Camera::new();
    let mut world = HittableList::new();
    let tint = Vec3::new(Fixed::from_ratio(1, 2), Fixed::from_ratio(1, 4), Fixed::one());
    world.add(Sphere::new(c(0, 0, -2), Fixed::one(), Material::Metal(Metal::new(tint, Fixed::zero()))));
    // the mirror sends the ray straight back, into the sky at the horizon
    let ray = Ray::new(Vec3::zero(), c(0, 0, -1), Fixed::zero());
    let horizon = sky_color(c(0, 0, 1));
    assert_eq!(camera.ray_color(&ray, 2, &world), tint.mul(horizon));
    assert_eq!(camera.ray_color(&ray, 50, &world), tint.mul(horizon));
    // with one bounce the scattered ray brings black
    assert_eq!(camera.ray_color(&ray, 1, &world), Vec3::zero());
}

#[test]
fn ray_color_skips_hits_nearer_than_the_shading_range() {
    let camera = Camera::new();
    let mut world = HittableList::new();
    world.add(Sphere::new(c(0, 0, -1), Fixed::one(), black_matte()));
    // the ray starts on the sphere and leaves it
    let ray = Ray::new(Vec3::zero(), c(0, 0, 1), Fixed::zero());
    assert_eq!(camera.ray_color(&ray, 5, &world), sky_color(c(0, 0, 1)));
    assert_eq!(shading_range(), Interval::new(Fixed::from_ratio(1, 1000), Fixed::infinity()));
}

#[test]
fn linear_to_gamma_is_the_square_root_above_zero() {
    assert_eq!(linear_to_gamma(Fixed::from_ratio(1, 4)), Fixed::from_ratio(1, 2));
    assert_eq!(linear_to_gamma(Fixed::from_int(9)), Fixed::from_int(3));
    assert_eq!(linear_to_gamma(Fixed::zero()), Fixed::zero());
    assert_eq!(linear_to_gamma(Fixed::from_int(-4)), Fixed::zero());
}

#[test]
fn channel_of_one_is_255_and_of_zero_is_0() {
    assert_eq!(channel(Fixed::one()), 255);
    assert_eq!(channel(Fixed::zero()), 0);
    assert_eq!(channel(Fixed::from_int(7)), 255);
    assert_eq!(channel(Fixed::infinity()), 255);
    assert_eq!(channel(Fixed::from_int(-7)), 0);
    assert_eq!(channel(Fixed::neg_infinity()), 0);
    assert_eq!(channel(Fixed::from_ratio(1, 4)), 128);
    assert_eq!(channel(Fixed::from_ratio(1, 16)), 64);
    assert_eq!(channel(Fixed::from_ratio(1, 2)), 181);
    assert_eq!(intensity(), Interval::new(Fixed::zero(), Fixed::from_ratio(999, 1000)));
}

#[test]
fn channel_agrees_with_floating_point() {
    for i in 0..=1000 {
        let linear = i as f64 / 1000.0;
        let expected = (256.0 * linear.sqrt().clamp(0.0, 0.999)) as i32;
        let got = channel(Fixed::from_raw((linear * 4294967296.0) as i64)) as i32;
        assert!((got - expected).abs() <= 1, "channel of {linear}: {got} vs {expected}");
    }
}

#[test]
fn write_color_gives_the_three_bytes() {
    let color = Vec3::new(Fixed::one(), Fixed::from_ratio(1, 4), Fixed::zero());
    assert_eq!(write_color(&color), (255, 128, 0));
    assert_eq!(write_color(&sky_blue()), (181, 214, 255));
    assert_eq!(write_color(&Vec3::zero()), (0, 0, 0));
    let band = vec![color, Vec3::zero(), sky_blue()];
    assert_eq!(band_bytes(&band), vec![(255, 128, 0), (0, 0, 0), (181, 214, 255)]);
}

#[test]
fn sample_square_and_disk_stay_in_their_bounds() {
    let camera = Camera::new();
    let mut moved = false;
    for _ in 0..200 {
        let s = camera.sample_square();
        assert!(-SCALE / 2 <= s.x.raw && s.x.raw <= SCALE / 2);
        assert!(-SCALE / 2 <= s.y.raw && s.y.raw <= SCALE / 2);
        assert_eq!(s.z, Fixed::zero());
        moved = moved || s.x.raw != -SCALE / 2 || s.y.raw != -SCALE / 2;
        let d = random_in_unit_disk();
        assert_eq!(d.z, Fixed::zero());
        assert!(d.length_squared().raw < SCALE);
    }
    assert!(moved);
}

#[test]
fn disk_from_sample_keeps_points_inside_the_circle() {
    let inside = Vec3::new(Fixed::from_ratio(1, 2), Fixed::from_ratio(-1, 2), Fixed::zero());
    assert_eq!(disk_from_sample(inside), Some(inside));
    assert_eq!(disk_from_sample(c(1, 0, 0)), None);
    assert_eq!(disk_from_sample(c(1, 1, 0)), None);
    assert_eq!(disk_from_sample(Vec3::zero()), Some(Vec3::zero()));
}

#[test]
fn ray_through_aims_at_the_pixel() {
    let mut camera = Camera::new();
    camera.initialize();
    let ray = camera.ray_through(0, 0, &still_sample());
    assert_eq!(ray.origin, Vec3::zero());
    assert_eq!(ray.direction, camera.pixel00_loc);
    assert_eq!(ray.time, Fixed::zero());
    // pixel (50, 50) lies a tenth right of and below the axis
    let middle = camera.ray_through(50, 50, &still_sample());
    assert!((approx(middle.direction.x) - 0.1).abs() < 1e-7);
    assert!((approx(middle.direction.y) + 0.1).abs() < 1e-7);
    assert_eq!(middle.direction.z, Fixed::from_int(-10));
    // half a pixel up and to the left is the corner of the viewport
    let corner = Sample {
        offset: Vec3::new(Fixed::from_ratio(-1, 2), Fixed::from_ratio(-1, 2), Fixed::zero()),
        lens: Vec3::zero(),
        time: Fixed::from_ratio(1, 2),
    };
    let ray = camera.ray_through(0, 0, &corner);
    assert!((approx(ray.direction.x) + 10.0).abs() < 1e-8);
    assert!((approx(ray.direction.y) - 10.0).abs() < 1e-8);
    assert_eq!(ray.time, Fixed::from_ratio(1, 2));
}

#[test]
fn ray_through_starts_on_the_lens_when_there_is_one() {
    let mut camera = Camera::new();
    camera.focus_distance = Fixed::from_int(8);
    camera.defocus_tan = Fixed::from_ratio(1, 8);
    camera.initialize();
    assert_eq!(camera.defocus_disk_u, c(1, 0, 0));
    assert_eq!(camera.defocus_disk_v, c(0, 1, 0));
    let sample = Sample {
        offset: Vec3::zero(),
        lens: Vec3::new(Fixed::from_ratio(1, 2), Fixed::from_ratio(-1, 4), Fixed::zero()),
        time: Fixed::zero(),
    };
    let ray = camera.ray_through(0, 0, &sample);
    let on_the_lens = Vec3::new(Fixed::from_ratio(1, 2), Fixed::from_ratio(-1, 4), Fixed::zero());
    assert_eq!(ray.origin, on_the_lens);
    assert_eq!(camera.defocus_disk_point(sample.lens), on_the_lens);
    assert_eq!(ray.direction, camera.pixel00_loc.sub(on_the_lens));
    for _ in 0..50 {
        let point = camera.defocus_disk_sample();
        assert!(point.length_squared().raw < SCALE);
        assert_eq!(point.z, Fixed::zero());
    }
    // a pinhole ignores the lens sample
    let mut pinhole = Camera::new();
    pinhole.initialize();
    assert_eq!(pinhole.ray_through(0, 0, &sample).origin, Vec3::zero());
}

#[test]
fn get_ray_passes_through_the_square_of_the_pixel() {
    let mut camera = Camera::new();
    camera.initialize();
    for _ in 0..200 {
        let ray = camera.get_ray(10, 20);
        assert_eq!(ray.origin, Vec3::zero());
        assert!(0 <= ray.time.raw && ray.time.raw <= SCALE);
        let x = approx(ray.direction.x);
        let y = approx(ray.direction.y);
        assert!(-10.0 + 10.0 * 0.2 - 1e-6 <= x && x <= -10.0 + 11.0 * 0.2 + 1e-6);
        assert!(10.0 - 21.0 * 0.2 - 1e-6 <= y && y <= 10.0 - 20.0 * 0.2 + 1e-6);
        assert_eq!(ray.direction.z, Fixed::from_int(-10));
    }
}

#[test]
fn render_one_pixel_of_a_black_sphere_is_black() {
    let mut camera = narrow_camera(1, Fixed::one());
    let mut world = HittableList::new();
    world.add(Sphere::new(c(0, 0, -1), Fixed::from_ratio(1, 2), black_matte()));
    for _ in 0..20 {
        assert_eq!(camera.render(&world), vec![(0, 0, 0)]);
    }
    assert_eq!(camera.height, 1);
}

#[test]
fn render_one_pixel_of_the_zenith_is_sky_blue() {
    let mut camera = narrow_camera(1, Fixed::one());
    camera.vfov_tan = Fixed::from_ratio(1, 1000);
    camera.lookat = c(0, 1, 0);
    camera.vup = c(0, 0, 1);
    let world = HittableList::new();
    for _ in 0..20 {
        let image = camera.render(&world);
        assert_eq!(image.len(), 1);
        let (r, g, b) = image[0];
        assert!((r as i32 - 181).abs() <= 1);
        assert!((g as i32 - 214).abs() <= 1);
        assert_eq!(b, 255);
    }
    // the ray straight up brings the sky blue exactly
    let up = Ray::new(Vec3::zero(), c(0, 1, 0), Fixed::zero());
    let color = camera.ray_color(&up, 1, &world);
    assert_eq!(color, sky_blue());
    assert_eq!(write_color(&color), (181, 214, 255));
}

#[test]
fn render_without_samples_is_black() {
    let mut camera = narrow_camera(2, Fixed::one());
    camera.samples_per_pixel = 0;
    let world = HittableList::new();
    assert_eq!(camera.render(&world), vec![(0, 0, 0); 4]);
}

#[test]
fn render_without_depth_is_black() {
    let mut camera = narrow_camera(3, Fixed::from_int(3));
    camera.max_depth = 0;
    camera.samples_per_pixel = 5;
    let world = HittableList::new();
    assert_eq!(camera.render(&world), vec![(0, 0, 0); 3]);
}

#[test]
fn render_without_width_is_empty() {
    let mut camera = narrow_camera(0, Fixed::one());
    let world = HittableList::new();
    assert_eq!(camera.render(&world), vec![]);
    assert_eq!(camera.render_band(&world, 0), vec![]);
}

#[test]
fn render_goes_from_left_to_right() {
    // three pixels in a row; a black sphere covers the right one only
    let mut camera = narrow_camera(3, Fixed::from_int(3));
    let mut world = HittableList::new();
    let center = Vec3::new(Fixed::from_ratio(1, 5), Fixed::zero(), Fixed::from_int(-1));
    world.add(Sphere::new(center, Fixed::from_ratio(19, 100), black_matte()));
    for _ in 0..20 {
        let image = camera.render(&world);
        assert_eq!(camera.height, 1);
        assert_eq!(image.len(), 3);
        assert!(image[0].0 >= 181 && image[0].2 == 255);
        assert_eq!(image[2], (0, 0, 0));
    }
}

#[test]
fn render_goes_from_top_to_bottom() {
    // three pixels in a column; a black sphere covers the upper one only
    let mut camera = narrow_camera(1, Fixed::from_ratio(1, 3));
    camera.vfov_tan = Fixed::from_ratio(3, 10);
    let mut world = HittableList::new();
    let center = Vec3::new(Fixed::zero(), Fixed::from_ratio(1, 5), Fixed::from_int(-1));
    world.add(Sphere::new(center, Fixed::from_ratio(19, 100), black_matte()));
    for _ in 0..20 {
        let image = camera.render(&world);
        assert_eq!(camera.height, 3);
        assert_eq!(image.len(), 3);
        assert_eq!(image[0], (0, 0, 0));
        assert!(image[2].0 >= 181 && image[2].2 == 255);
    }
}

#[test]
fn render_band_has_one_colour_for_each_column() {
    let mut camera = narrow_camera(7, Fixed::one());
    camera.samples_per_pixel = 3;
    camera.initialize();
    let world = HittableList::new();
    let band = camera.render_band(&world, 2);
    assert_eq!(band.len(), 7);
    for color in band {
        // an average of three sky colours
        assert!(approx(color.x) > 0.49 && approx(color.x) < 1.01);
        assert!((approx(color.z) - 1.0).abs() < 1e-6);
    }
    let pixel = camera.render_pixel(&world, 3, 3);
    assert!((approx(pixel.z) - 1.0).abs() < 1e-6);
}

#[test]
fn render_fills_every_row() {
    let mut camera = narrow_camera(4, Fixed::from_ratio(4, 3));
    let world = HittableList::new();
    let image = camera.render(&world);
    assert_eq!(camera.height, 3);
    assert_eq!(image.len(), 12);
    for (_, _, b) in image {
        assert_eq!(b, 255);
    }
}

#[test]
fn sky_color_of_no_direction_is_the_horizon() {
    let expected = Vec3::one().scale(half()).add(sky_blue().scale(half()));
    assert_eq!(sky_color(Vec3::zero()), expected);
}

#[test]
fn ray_color_with_one_bounce_left_is_black_on_any_surface() {
    let camera = Camera::new();
    let ray = Ray::new(Vec3::zero(), c(0, 0, -1), Fixed::zero());
    let white = Vec3::one();
    let materials = [
        Material::Lambertian(Lambertian::new(white)),
        Material::Metal(Metal::new(white, Fixed::from_ratio(1, 2))),
        Material::Dialetric(raytracer::material::Dialetric::new(Fixed::from_ratio(3, 2))),
    ];
    for material in materials {
        let mut world = HittableList::new();
        world.add(Sphere::new(c(0, 0, -1), Fixed::from_ratio(1, 2), material));
        for _ in 0..20 {
            assert_eq!(camera.ray_color(&ray, 1, &world), Vec3::zero());
        }
    }
}

#[test]
fn ray_color_through_glass_reaches_the_sky() {
    let camera = Camera::new();
    let mut world = HittableList::new();
    let glass = Material::Dialetric(raytracer::material::Dialetric::new(Fixed::one()));
    world.add(Sphere::new(c(0, 0, -2), Fixed::one(), glass));
    // head on, glass of index one lets the ray through unchanged
    let ray = Ray::new(Vec3::zero(), c(0, 0, -1), Fixed::zero());
    for _ in 0..20 {
        assert_eq!(camera.ray_color(&ray, 10, &world), sky_color(c(0, 0, -1)));
    }
}

#[test]
fn ray_color_on_a_diffuse_surface_stays_within_the_tint() {
    let camera = Camera::new();
    let mut world = HittableList::new();
    let tint = Vec3::new(Fixed::from_ratio(1, 2), Fixed::from_ratio(1, 4), Fixed::from_ratio(1, 8));
    world.add(Sphere::new(c(0, 0, -2), Fixed::one(), Material::Lambertian(Lambertian::new(tint))));
    let ray = Ray::new(Vec3::zero(), c(0, 0, -1), Fixed::zero());
    for _ in 0..50 {
        let color = camera.ray_color(&ray, 10, &world);
        assert!(0 <= color.x.raw && color.x.raw <= tint.x.raw);
        assert!(0 <= color.y.raw && color.y.raw <= tint.y.raw);
        assert!(0 <= color.z.raw && color.z.raw <= tint.z.raw);
    }
}
