use raytracer::fixed::{Fixed, SCALE};
use raytracer::hittable::HitRecord;
use raytracer::material::{reflect, refract, Dialetric, Lambertian, Material, Metal};
use raytracer::ray::Ray;
use raytracer::vec3::Vec3;

fn w(x: i32, y: i32, z: i32) -> Vec3 {
    Vec3::new(Fixed::from_int(x), Fixed::from_int(y), Fixed::from_int(z))
}

fn num(v: f64) -> Fixed {
    Fixed::from_raw((v * 4294967296.0).round() as i64)
}

fn val(x: Fixed) -> f64 {
    x.raw as f64 / 4294967296.0
}

fn close(a: Vec3, x: f64, y: f64, z: f64, tolerance: f64) -> bool {
    (val(a.x) - x).abs() < tolerance && (val(a.y) - y).abs() < tolerance && (val(a.z) - z).abs() < tolerance
}

fn tint() -> Vec3 {
    Vec3::new(Fixed::from_ratio(4, 5), Fixed::from_ratio(3, 10), Fixed::from_ratio(1, 10))
}

fn floor_hit(front_face: bool) -> HitRecord {
    HitRecord {
        point: w(3, 0, -2),
        normal: w(0, 1, 0),
        t: Fixed::from_int(5),
        front_face,
        material: Material::Lambertian(Lambertian::new(tint())),
    }
}

fn falling_ray() -> Ray {
    Ray::new(w(2, 1, -2), w(1, -1, 0), Fixed::from_ratio(1, 4))
}

#[test]
fn reflect_exact_values() {
    assert_eq!(reflect(&w(1, -1, 0), &w(0, 1, 0)), w(1, 1, 0));
    assert_eq!(reflect(&w(0, 0, -3), &w(0, 0, 1)), w(0, 0, 3));
    assert_eq!(reflect(&w(2, 0, 0), &w(0, 1, 0)), w(2, 0, 0));
}

#[test]
fn refract_at_normal_incidence_keeps_the_direction() {
    for (num_, den) in [(1, 1), (2, 3), (3, 2)] {
        let bent = refract(&w(0, 0, -1), &w(0, 0, 1), Fixed::from_ratio(num_, den));
        assert_eq!(bent, w(0, 0, -1));
    }
}

#[test]
fn refract_follows_the_law_of_refraction() {
    let s = 0.5f64.sqrt();
    let uv = Vec3::new(num(s), num(-s), Fixed::zero());
    let bent = refract(&uv, &w(0, 1, 0), Fixed::from_ratio(2, 3));
    let sine = s * 2.0 / 3.0;
    assert!(close(bent, sine, -(1.0 - sine * sine).sqrt(), 0.0, 1e-6));
}

#[test]
fn reflectance_exact_values() {
    let glass = Fixed::from_ratio(3, 2);
    // head on: r0 = ((1 - 1.5) / (1 + 1.5))^2 = 0.04
    assert!((val(Dialetric::reflectance(Fixed::one(), glass)) - 0.04).abs() < 1e-8);
    // grazing: everything is reflected
    assert!((val(Dialetric::reflectance(Fixed::zero(), glass)) - 1.0).abs() < 1e-8);
    // cos = 0.5: 0.04 + 0.96 / 32 = 0.07
    assert!((val(Dialetric::reflectance(Fixed::from_ratio(1, 2), glass)) - 0.07).abs() < 1e-8);
    // matching media, head on: nothing is reflected
    assert_eq!(Dialetric::reflectance(Fixed::one(), Fixed::one()), Fixed::zero());
}

#[test]
fn lambertian_scatter_with_adds_the_unit_direction_to_the_normal() {
    let material = Lambertian::new(tint());
    let ray = falling_ray();
    let hit = floor_hit(true);
    let (scattered, attenuation) = material.scatter_with(&ray, &hit, w(1, 0, 0));
    assert_eq!(scattered, Ray::new(w(3, 0, -2), w(1, 1, 0), Fixed::from_ratio(1, 4)));
    assert_eq!(attenuation, tint());
}

#[test]
fn lambertian_scatter_with_falls_back_to_the_normal() {
    let material = Lambertian::new(tint());
    let ray = falling_ray();
    let hit = floor_hit(true);
    let (scattered, _) = material.scatter_with(&ray, &hit, w(0, -1, 0));
    assert_eq!(scattered.direction, w(0, 1, 0));
    let almost = Vec3::new(Fixed::from_raw(65535), Fixed::from_raw(-SCALE + 65535), Fixed::from_raw(-65535));
    let (scattered, _) = material.scatter_with(&ray, &hit, almost);
    assert_eq!(scattered.direction, w(0, 1, 0));
    let not_quite = Vec3::new(Fixed::from_raw(65536), Fixed::from_raw(-SCALE), Fixed::zero());
    let (scattered, _) = material.scatter_with(&ray, &hit, not_quite);
    assert_eq!(scattered.direction, Vec3::new(Fixed::from_raw(65536), Fixed::zero(), Fixed::zero()));
    assert!(scattered.direction.length().raw > 0);
}

#[test]
fn lambertian_scatter_with_falls_back_where_the_sum_has_no_length() {
    let material = Lambertian::new(tint());
    let ray = falling_ray();
    let mut hit = floor_hit(true);
    hit.normal = w(0, 0, 1);
    // the sum (100 * 2^-32, 0, 0) is not zero, but its length is
    let draw = Vec3::new(Fixed::from_raw(100), Fixed::zero(), Fixed::from_int(-1));
    let sum = hit.normal.add(draw);
    assert_eq!(sum, Vec3::new(Fixed::from_raw(100), Fixed::zero(), Fixed::zero()));
    assert_eq!(sum.length(), Fixed::zero());
    let (scattered, attenuation) = material.scatter_with(&ray, &hit, draw);
    assert_eq!(scattered.direction, w(0, 0, 1));
    assert_eq!(scattered.direction.length(), Fixed::one());
    assert_eq!(attenuation, tint());
}

#[test]
fn lambertian_scatter_never_returns_a_zero_direction() {
    let material = Lambertian::new(tint());
    let ray = falling_ray();
    for normal in [w(0, 1, 0), w(0, 0, 0), w(-1, 0, 0)] {
        let mut hit = floor_hit(true);
        hit.normal = normal;
        for _ in 0..300 {
            let (scattered, attenuation) = material.scatter(&ray, &hit).expect("always scatters");
            assert_ne!(scattered.direction, Vec3::zero());
            assert!(scattered.direction.length().raw > 0);
            assert!(!scattered.direction.near_zero());
            assert_eq!(scattered.origin, hit.point);
            assert_eq!(scattered.time, ray.time);
            assert_eq!(attenuation, tint());
        }
    }
}

#[test]
fn metal_new_clamps_the_fuzz() {
    assert_eq!(Metal::new(tint(), Fixed::from_int(2)).fuzz, Fixed::one());
    assert_eq!(Metal::new(tint(), Fixed::from_int(-1)).fuzz, Fixed::zero());
    assert_eq!(Metal::new(tint(), Fixed::from_ratio(3, 10)).fuzz, Fixed::from_ratio(3, 10));
    assert_eq!(Metal::new(tint(), Fixed::one()).fuzz, Fixed::one());
    assert_eq!(Metal::new(tint(), Fixed::one()).albedo, tint());
}

#[test]
fn metal_scatter_without_fuzz_is_a_mirror() {
    let material = Metal::new(tint(), Fixed::zero());
    let ray = falling_ray();
    let hit = floor_hit(true);
    let mirrored = reflect(&ray.direction, &hit.normal).unit_vector();
    assert_eq!(reflect(&ray.direction, &hit.normal), w(1, 1, 0));
    let s = 0.5f64.sqrt();
    assert!(close(mirrored, s, s, 0.0, 1e-9));
    for _ in 0..100 {
        let (scattered, attenuation) = material.scatter(&ray, &hit).expect("a mirror sends on");
        assert_eq!(scattered.direction, mirrored);
        assert_eq!(scattered.origin, hit.point);
        assert_eq!(scattered.time, ray.time);
        assert_eq!(attenuation, tint());
    }
    for unit in [w(1, 0, 0), w(0, -1, 0), Vec3::zero()] {
        let out = material.scatter_with(&ray, &hit, unit).expect("a mirror sends on");
        assert_eq!(out.0.direction, mirrored);
    }
}

#[test]
fn metal_scatter_with_fuzz_moves_the_direction() {
    let material = Metal::new(tint(), Fixed::from_ratio(1, 2));
    let ray = falling_ray();
    let hit = floor_hit(true);
    let mirrored = reflect(&ray.direction, &hit.normal).unit_vector();
    let out = material.scatter_with(&ray, &hit, w(1, 0, 0)).expect("points away from the surface");
    assert_eq!(out.0.direction, mirrored.add(Vec3::new(Fixed::from_ratio(1, 2), Fixed::zero(), Fixed::zero())));
    assert_eq!(out.1, tint());
}

#[test]
fn metal_absorbs_a_ray_scattered_into_the_surface() {
    let material = Metal::new(tint(), Fixed::one());
    let ray = falling_ray();
    let hit = floor_hit(true);
    assert_eq!(material.scatter_with(&ray, &hit, w(0, -1, 0)), None);
    assert!(material.scatter_with(&ray, &hit, w(0, 1, 0)).is_some());
}

#[test]
fn metal_absorbs_a_ray_whose_direction_has_no_length() {
    let material = Metal::new(tint(), Fixed::one());
    let ray = falling_ray();
    let hit = floor_hit(true);
    let mirrored = reflect(&ray.direction, &hit.normal).unit_vector();
    // the drawn direction cancels the mirrored one
    assert_eq!(material.scatter_with(&ray, &hit, mirrored.neg()), None);
    let almost = mirrored.neg().add(Vec3::new(Fixed::zero(), Fixed::from_raw(65535), Fixed::zero()));
    assert_eq!(material.scatter_with(&ray, &hit, almost), None);
    let not_quite = mirrored.neg().add(Vec3::new(Fixed::zero(), Fixed::from_raw(65536), Fixed::zero()));
    let out = material.scatter_with(&ray, &hit, not_quite).expect("the direction has a length");
    assert_eq!(out.0.direction, Vec3::new(Fixed::zero(), Fixed::from_raw(65536), Fixed::zero()));
    // a ray without direction has nothing to mirror
    let still = Ray::new(w(2, 1, -2), Vec3::zero(), Fixed::zero());
    let mirror = Metal::new(tint(), Fixed::zero());
    assert_eq!(mirror.scatter_with(&still, &hit, w(1, 0, 0)), None);
    assert_eq!(mirror.scatter(&still, &hit), None);
}

#[test]
fn absorbing_material_absorbs_every_ray() {
    let material = Material::Absorbing;
    for front_face in [true, false] {
        let hit = floor_hit(front_face);
        for _ in 0..20 {
            assert_eq!(material.scatter(&falling_ray(), &hit), None);
        }
    }
}

#[test]
fn dielectric_of_index_one_passes_rays_through() {
    let material = Dialetric::new(Fixed::one());
    // head on, the direction is unchanged exactly, whatever is drawn
    let head_on = Ray::new(w(0, 0, 1), w(0, 0, -1), Fixed::zero());
    let mut hit = floor_hit(true);
    hit.normal = w(0, 0, 1);
    for _ in 0..100 {
        let (scattered, attenuation) = material.scatter(&head_on, &hit).expect("glass sends on");
        assert_eq!(scattered.direction, w(0, 0, -1));
        assert_eq!(attenuation, Vec3::one());
        assert_eq!(scattered.origin, hit.point);
    }
    // at a slant, the direction is unchanged up to rounding when the ray is refracted
    let slanted = Ray::new(w(0, 0, 1), w(1, 2, -2), Fixed::zero());
    for front_face in [true, false] {
        hit.front_face = front_face;
        let (scattered, _) = material.scatter_with(&slanted, &hit, Fixed::from_ratio(1, 2));
        assert!(close(scattered.direction, 1.0 / 3.0, 2.0 / 3.0, -2.0 / 3.0, 1e-6));
    }
}

#[test]
fn dielectric_reflects_when_the_draw_is_below_the_reflectance() {
    let material = Dialetric::new(Fixed::from_ratio(3, 2));
    let ray = Ray::new(w(0, 0, 1), w(0, 0, -1), Fixed::from_ratio(1, 2));
    let mut hit = floor_hit(true);
    hit.normal = w(0, 0, 1);
    // head on the reflectance is 0.04
    let (reflected, _) = material.scatter_with(&ray, &hit, Fixed::from_ratio(3, 100));
    assert_eq!(reflected.direction, w(0, 0, 1));
    let (refracted, tint_) = material.scatter_with(&ray, &hit, Fixed::from_ratio(5, 100));
    assert_eq!(refracted.direction, w(0, 0, -1));
    assert_eq!(tint_, Vec3::one());
    assert_eq!(refracted.time, Fixed::from_ratio(1, 2));
}

#[test]
fn dielectric_reflects_totally_from_inside() {
    let material = Dialetric::new(Fixed::from_ratio(3, 2));
    // leaving the glass at a sine of 0.8: 1.5 * 0.8 > 1
    let ray = Ray::new(w(0, 1, 0), w(4, -3, 0), Fixed::zero());
    let hit = floor_hit(false);
    let (scattered, _) = material.scatter_with(&ray, &hit, Fixed::from_raw(SCALE - 1));
    assert!(close(scattered.direction, 0.8, 0.6, 0.0, 1e-8));
    for _ in 0..50 {
        let (scattered, _) = material.scatter(&ray, &hit).expect("glass sends on");
        assert!(close(scattered.direction, 0.8, 0.6, 0.0, 1e-8));
    }
    // entering the glass at the same angle the ray is bent toward the normal
    let entering = floor_hit(true);
    let (bent, _) = material.scatter_with(&ray, &entering, Fixed::from_raw(SCALE - 1));
    let sine = 0.8 / 1.5;
    assert!(close(bent.direction, sine, -(1.0 - sine * sine).sqrt(), 0.0, 1e-6));
}

#[test]
fn material_scatter_dispatches_on_the_variant() {
    let ray = falling_ray();
    let hit = floor_hit(true);
    let diffuse = Material::Lambertian(Lambertian::new(tint()));
    let (_, attenuation) = diffuse.scatter(&ray, &hit).expect("diffuse surfaces scatter");
    assert_eq!(attenuation, tint());
    let mirror = Material::Metal(Metal::new(Vec3::one(), Fixed::zero()));
    let (scattered, attenuation) = mirror.scatter(&ray, &hit).expect("a mirror sends on");
    assert_eq!(scattered.direction, w(1, 1, 0).unit_vector());
    assert_eq!(attenuation, Vec3::one());
    let glass = Material::Dialetric(Dialetric::new(Fixed::from_ratio(3, 2)));
    let (scattered, attenuation) = glass.scatter(&ray, &hit).expect("glass sends on");
    assert_eq!(attenuation, Vec3::one());
    assert_eq!(scattered.origin, hit.point);
}

#[test]
fn dielectric_lets_a_ray_go_on_where_the_bent_direction_has_no_length() {
    let material = Dialetric::new(Fixed::from_ratio(3, 2));
    // a normal of length 0.707 along the ray: the mirrored direction cancels
    let ray = Ray::new(w(0, 0, 0), w(2, 0, 0), Fixed::zero());
    let mut hit = floor_hit(false);
    hit.normal = Vec3::new(num(0.5f64.sqrt()), Fixed::zero(), Fixed::zero());
    let mirrored = reflect(&w(1, 0, 0), &hit.normal);
    assert!(mirrored.near_zero());
    let (scattered, attenuation) = material.scatter_with(&ray, &hit, Fixed::zero());
    assert_eq!(scattered.direction, w(1, 0, 0));
    assert_eq!(attenuation, Vec3::one());
    for _ in 0..20 {
        let (scattered, _) = material.scatter(&ray, &hit).expect("glass sends on");
        assert!(scattered.direction.length().raw > 0);
    }
    // a ray without direction stays without direction
    let still = Ray::new(w(0, 0, 0), Vec3::new(Fixed::from_raw(100), Fixed::zero(), Fixed::zero()), Fixed::zero());
    let (scattered, _) = material.scatter_with(&still, &floor_hit(false), Fixed::zero());
    assert_eq!(scattered.direction, Vec3::zero());
}

#[test]
fn materials_send_rays_on_in_directions_with_a_length() {
    let ray = falling_ray();
    let materials = [
        Material::Lambertian(Lambertian::new(tint())),
        Material::Metal(Metal::new(tint(), Fixed::one())),
        Material::Metal(Metal::new(tint(), Fixed::zero())),
        Material::Dialetric(Dialetric::new(Fixed::from_ratio(3, 2))),
        Material::Dialetric(Dialetric::new(Fixed::one())),
        Material::Absorbing,
    ];
    for material in materials {
        for front_face in [true, false] {
            let hit = floor_hit(front_face);
            for _ in 0..100 {
                if let Some((scattered, _)) = material.scatter(&ray, &hit) {
                    assert!(scattered.direction.length().raw > 0);
                    assert!(!scattered.direction.near_zero());
                }
            }
        }
    }
}

#[test]
fn metal_without_fuzz_sends_on_every_ray_that_runs_against_the_normal() {
    let material = Metal::new(tint(), Fixed::zero());
    let mut sent = 0;
    for _ in 0..3000 {
        let normal = Vec3::random_unit_vector();
        let reach = Fixed::from_int(1 + (Fixed::random().raw % 200) as i32);
        let direction = Vec3::random_range(reach.neg(), reach);
        let length = reflect(&direction, &normal).length();
        // against the normal by 256 steps for each unit of length
        if length.raw < SCALE / 4 || direction.dot(&normal).raw > -256 * (length.raw / SCALE + 1) {
            continue;
        }
        let ray = Ray::new(w(1, 2, 3), direction, Fixed::from_ratio(1, 3));
        let mut hit = floor_hit(true);
        hit.normal = normal;
        let mirrored = reflect(&direction, &normal);
        let (scattered, attenuation) = material.scatter(&ray, &hit).expect("a mirror sends on");
        assert_eq!(scattered.direction, mirrored.unit_vector());
        assert_eq!(scattered.origin, hit.point);
        assert_eq!(scattered.time, ray.time);
        assert_eq!(attenuation, tint());
        assert!(scattered.direction.dot(&normal).raw > 0);
        sent += 1;
    }
    assert!(sent > 1000);
}
