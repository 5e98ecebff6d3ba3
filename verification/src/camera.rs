//! The camera: the view it is set up for, the rays it casts through each
//! pixel, and the colour that each ray brings back.

use crate::fixed::{Fixed, SCALE};
use crate::hittable::{Hittable, HittableList};
use crate::interval::Interval;
use crate::ray::Ray;
use crate::rng::raw_between;
use crate::vec3::{Color, Vec3, MAX_ATTEMPTS};
use vstd::prelude::*;

verus! {

pub open spec fn spec_half() -> Fixed {
    Fixed::from_ratio(1, 2)
}

/// The number one half.
#[verifier::when_used_as_spec(spec_half)]
pub fn half() -> (r: Fixed)
    ensures
        r == spec_half(),
{
    Fixed::from_ratio(1, 2)
}

pub open spec fn spec_sky_blue() -> Color {
    Vec3::new(Fixed::from_ratio(1, 2), Fixed::from_ratio(7, 10), Fixed::one())
}

/// The colour of the sky straight above: `(0.5, 0.7, 1.0)`.
#[verifier::when_used_as_spec(spec_sky_blue)]
pub fn sky_blue() -> (r: Color)
    ensures
        r == spec_sky_blue(),
{
    Vec3::new(Fixed::from_ratio(1, 2), Fixed::from_ratio(7, 10), Fixed::one())
}

pub open spec fn spec_sky_color(direction: Vec3) -> Color {
    let a = half().mul(direction.unit_vector().y.add(Fixed::one()));
    Vec3::one().scale(Fixed::one().sub(a)).add(sky_blue().scale(a))
}

/// The colour of the sky in the given direction: white blended into sky
/// blue by `a = 0.5 (y + 1)`, where `y` is the height of the direction
/// scaled to unit length.
#[verifier::when_used_as_spec(spec_sky_color)]
pub fn sky_color(direction: Vec3) -> (r: Color)
    ensures
        r == spec_sky_color(direction),
        r.within(Fixed::zero(), Fixed::one()),
{
    proof {
        lemma_sky_color_in_range(direction);
    }
    let unit_direction = direction.unit_vector();
    let a = half().mul(unit_direction.y.add(Fixed::one()));
    Vec3::one().scale(Fixed::one().sub(a)).add(sky_blue().scale(a))
}

/// Each part of the colour of the sky lies in `[0, 1]`, whatever the
/// direction, one of length zero included.
pub proof fn lemma_sky_color_in_range(direction: Vec3)
    ensures
        sky_color(direction).within(Fixed::zero(), Fixed::one()),
{
    direction.lemma_unit_vector_is_long();
    let y = direction.unit_vector().y;
    let a = half().mul(y.add(Fixed::one()));
    let n = y@ + SCALE;
    assert(half()@ == SCALE / 2);
    assert(0 <= n <= 2 * SCALE);
    assert(0 <= ((SCALE / 2) * n) / (SCALE as int) <= SCALE) by (nonlinear_arith)
        requires
            0 <= n <= 2 * SCALE,
            SCALE == 0x1_0000_0000,
    ;
    assert((SCALE / 2) * n >= 0) by (nonlinear_arith)
        requires
            0 <= n,
            SCALE == 0x1_0000_0000,
    ;
    assert(0 <= a@ <= SCALE);
    let rest = Fixed::one().sub(a);
    rest.lemma_mul_one();
    assert(7 * SCALE == 30064771072);
    assert(30064771072int / 10 == 3006477107);
    assert(SCALE / 2 == 2147483648);
    lemma_part_of(a, sky_blue().x);
    lemma_part_of(a, sky_blue().y);
    lemma_part_of(a, sky_blue().z);
}

/// The product of a number of `[0, 1]` with one not below zero lies between
/// zero and that number.
pub proof fn lemma_part_of(a: Fixed, b: Fixed)
    requires
        0 <= a@ <= SCALE,
        0 <= b@ <= SCALE,
    ensures
        0 <= a.mul(b)@ <= a@,
        0 <= a.mul(b)@ <= b@,
{
    let n = a@ * b@;
    assert(0 <= n && n <= a@ * SCALE && n <= b@ * SCALE) by (nonlinear_arith)
        requires
            n == a@ * b@,
            0 <= a@ <= SCALE,
            0 <= b@ <= SCALE,
    ;
    assert(0 <= n / (SCALE as int) <= a@ && n / (SCALE as int) <= b@) by (nonlinear_arith)
        requires
            0 <= n,
            n <= a@ * SCALE,
            n <= b@ * SCALE,
            SCALE == 0x1_0000_0000,
    ;
}

pub open spec fn spec_shading_range() -> Interval {
    Interval { min: Fixed::from_ratio(1, 1000), max: Fixed::infinity() }
}

/// The range of ray parameters in which a hit counts: from `0.001`, which
/// keeps a scattered ray from hitting the surface it leaves, to infinity.
#[verifier::when_used_as_spec(spec_shading_range)]
pub fn shading_range() -> (r: Interval)
    ensures
        r == spec_shading_range(),
{
    Interval::new(Fixed::from_ratio(1, 1000), Fixed::infinity())
}

/// Whether tracing `ray` through `world` with `depth` bounces left can give
/// `color`.
///
/// With no bounce left the colour is black. A ray that hits nothing brings
/// the colour of the sky. A ray that hits a surface is scattered by its
/// material: absorbed, it brings black; sent on, it brings what the scattered
/// ray brings with one bounce fewer, tinted by the attenuation.
pub open spec fn radiance(ray: Ray, depth: int, world: &HittableList, color: Color) -> bool
    decreases depth,
{
    if depth <= 0 {
        color == Vec3::zero()
    } else {
        match world.spec_hit(&ray, shading_range()) {
            None => color == sky_color(ray.direction),
            Some(rec) => exists|out: Option<(Ray, Color)>|
                #![trigger rec.material.can_scatter(&ray, &rec, out)]
                rec.material.can_scatter(&ray, &rec, out) && match out {
                    None => color == Vec3::zero(),
                    Some(sent) => exists|inner: Color|
                        #![trigger sent.1.mul(inner)]
                        radiance(sent.0, depth - 1, world, inner) && color == sent.1.mul(inner),
                },
        }
    }
}

/// A ray that hits nothing brings the colour of the sky in its direction,
/// and nothing else, whatever is drawn.
pub proof fn lemma_miss_brings_sky(ray: Ray, depth: int, world: &HittableList, color: Color)
    requires
        depth > 0,
        world.spec_hit(&ray, shading_range()) is None,
    ensures
        radiance(ray, depth, world, color) <==> color == sky_color(ray.direction),
{
}

/// In a scene without shapes every ray brings the colour of the sky.
pub proof fn lemma_empty_world_is_sky(ray: Ray, depth: int, world: &HittableList, color: Color)
    requires
        depth > 0,
        world.objects@.len() == 0,
    ensures
        radiance(ray, depth, world, color) <==> color == sky_color(ray.direction),
{
}

/// With no bounce left a ray brings black, and nothing else.
pub proof fn lemma_no_depth_is_black(ray: Ray, depth: int, world: &HittableList, color: Color)
    requires
        depth <= 0,
    ensures
        radiance(ray, depth, world, color) <==> color == Vec3::zero(),
{
}

/// With one bounce left a ray that hits a surface brings black, whatever the
/// material: the scattered ray has no bounce left.
pub proof fn lemma_last_bounce_is_black(ray: Ray, world: &HittableList, color: Color)
    requires
        world.spec_hit(&ray, shading_range()) is Some,
        radiance(ray, 1, world, color),
    ensures
        color == Vec3::zero(),
{
    let rec = world.spec_hit(&ray, shading_range())->0;
    let out = choose|out: Option<(Ray, Color)>|
        #![trigger rec.material.can_scatter(&ray, &rec, out)]
        rec.material.can_scatter(&ray, &rec, out) && match out {
            None => color == Vec3::zero(),
            Some(sent) => exists|inner: Color|
                #![trigger sent.1.mul(inner)]
                radiance(sent.0, 0, world, inner) && color == sent.1.mul(inner),
        };
    match out {
        None => {},
        Some(sent) => {
            let inner = choose|inner: Color|
                #![trigger sent.1.mul(inner)]
                radiance(sent.0, 0, world, inner) && color == sent.1.mul(inner);
            assert(inner == Vec3::zero());
            assert(sent.1.x@ * 0 == 0 && sent.1.y@ * 0 == 0 && sent.1.z@ * 0 == 0);
        },
    }
}

/// In a scene whose materials have tints in `[0, 1]`, each part of the
/// colour that a ray brings lies in `[0, 1]`, whatever is drawn.
pub proof fn lemma_radiance_in_range(ray: Ray, depth: int, world: &HittableList, color: Color)
    requires
        world.tints_in_range(),
        radiance(ray, depth, world, color),
    ensures
        color.within(Fixed::zero(), Fixed::one()),
    decreases depth,
{
    if depth > 0 {
        match world.spec_hit(&ray, shading_range()) {
            None => {
                lemma_sky_color_in_range(ray.direction);
            },
            Some(rec) => {
                HittableList::lemma_closest_is_nearest(world.objects@, &ray, shading_range());
                let k = choose|k: int|
                    0 <= k < world.objects@.len() && (#[trigger] world.objects@[k]).spec_hit(
                        &ray,
                        shading_range(),
                    ) == Some(rec);
                world.objects@[k].lemma_hit_within(&ray, shading_range());
                let out = choose|out: Option<(Ray, Color)>|
                    #![trigger rec.material.can_scatter(&ray, &rec, out)]
                    rec.material.can_scatter(&ray, &rec, out) && match out {
                        None => color == Vec3::zero(),
                        Some(sent) => exists|inner: Color|
                            #![trigger sent.1.mul(inner)]
                            radiance(sent.0, depth - 1, world, inner) && color == sent.1.mul(
                                inner,
                            ),
                    };
                match out {
                    None => {},
                    Some(sent) => {
                        let inner = choose|inner: Color|
                            #![trigger sent.1.mul(inner)]
                            radiance(sent.0, depth - 1, world, inner) && color == sent.1.mul(
                                inner,
                            );
                        lemma_radiance_in_range(sent.0, depth - 1, world, inner);
                        rec.material.lemma_scatter_tint(&ray, &rec, out);
                        lemma_part_of(sent.1.x, inner.x);
                        lemma_part_of(sent.1.y, inner.y);
                        lemma_part_of(sent.1.z, inner.z);
                    },
                }
            },
        }
    }
}

pub open spec fn spec_linear_to_gamma(linear_component: Fixed) -> Fixed {
    if linear_component@ > 0 {
        linear_component.sqrt()
    } else {
        Fixed::zero()
    }
}

/// Gamma correction: the square root of a part above zero, zero otherwise.
#[verifier::when_used_as_spec(spec_linear_to_gamma)]
pub fn linear_to_gamma(linear_component: Fixed) -> (r: Fixed)
    ensures
        r == spec_linear_to_gamma(linear_component),
        r@ >= 0,
{
    if linear_component.raw > 0 {
        linear_component.sqrt()
    } else {
        Fixed::zero()
    }
}

pub open spec fn spec_intensity() -> Interval {
    Interval { min: Fixed::zero(), max: Fixed::from_ratio(999, 1000) }
}

/// The range `[0, 0.999]` to which a channel is clamped before it is scaled
/// to a byte.
#[verifier::when_used_as_spec(spec_intensity)]
pub fn intensity() -> (r: Interval)
    ensures
        r == spec_intensity(),
{
    Interval::new(Fixed::zero(), Fixed::from_ratio(999, 1000))
}

#[verifier::opaque]
pub open spec fn spec_channel(linear_component: Fixed) -> u8 {
    Fixed::from_int(256).mul(intensity().clamp(linear_to_gamma(linear_component))).trunc() as u8
}

/// The byte written for one part of a colour: the part is gamma corrected,
/// clamped to `[0, 0.999]`, multiplied by 256 and rounded down. A part of
/// zero or less gives 0, a part of one or more gives 255.
#[verifier::when_used_as_spec(spec_channel)]
pub fn channel(linear_component: Fixed) -> (r: u8)
    ensures
        r == spec_channel(linear_component),
        linear_component@ <= 0 ==> r == 0,
        linear_component@ >= SCALE ==> r == 255,
{
    proof {
        lemma_channel_value(linear_component);
    }
    let clamped = intensity().clamp(linear_to_gamma(linear_component));
    let scaled = Fixed::from_int(256).mul(clamped);
    scaled.trunc() as u8
}

/// The byte of a part of a colour is the whole part of 256 times the part
/// after gamma correction and clamping, which lies in `[0, 0.999]`; it is 0
/// for a part of zero or less and 255 for a part of one or more.
pub proof fn lemma_channel_value(linear_component: Fixed)
    ensures
        ({
            let c = intensity().clamp(linear_to_gamma(linear_component))@;
            &&& 0 <= c <= 4290672328
            &&& Fixed::from_int(256).mul(intensity().clamp(linear_to_gamma(linear_component)))@
                == 256 * c
            &&& spec_channel(linear_component) == (256 * c) / (SCALE as int)
        }),
        linear_component@ <= 0 ==> spec_channel(linear_component) == 0,
        linear_component@ >= SCALE ==> spec_channel(linear_component) == 255,
{
    reveal(spec_channel);
    let clamped = intensity().clamp(linear_to_gamma(linear_component));
    let scaled = Fixed::from_int(256).mul(clamped);
    let c = clamped@;
    let top = Fixed::from_ratio(999, 1000)@;
    assert(999 * SCALE == 4290672328704);
    assert(4290672328704int / 1000 == 4290672328);
    assert(top == 4290672328);
    if linear_component@ > 0 {
        linear_component.lemma_sqrt_bounds();
    }
    assert(0 <= c <= top);
    assert(Fixed::from_int(256)@ == 256 * SCALE);
    assert((256 * SCALE) * c == (256 * c) * SCALE) by (nonlinear_arith);
    assert(((256 * c) * SCALE) / (SCALE as int) == 256 * c) by (nonlinear_arith);
    assert(scaled@ == 256 * c);
    if linear_component@ >= SCALE {
        linear_component.lemma_sqrt_at_least_one();
        assert(c == top);
    }
}

pub open spec fn spec_write_color(color: &Color) -> (u8, u8, u8) {
    (channel(color.x), channel(color.y), channel(color.z))
}

/// The red, green and blue bytes that stand for `color` in the image.
#[verifier::when_used_as_spec(spec_write_color)]
pub fn write_color(color: &Color) -> (r: (u8, u8, u8))
    ensures
        r == spec_write_color(color),
{
    (channel(color.x), channel(color.y), channel(color.z))
}

/// The random numbers that go into one ray of the camera.
#[derive(Clone, Copy, Debug, PartialEq, Eq, Structural)]
pub struct Sample {
    /// Where in the square of the pixel the ray passes: `x` and `y` lie in
    /// `[-0.5, 0.5]`, `z` is zero.
    pub offset: Vec3,
    /// Where on the lens the ray starts: a point of the unit disk.
    pub lens: Vec3,
    /// When the ray is cast: a moment of `[0, 1]`.
    pub time: Fixed,
}

/// What `Camera::sample_square` can return.
pub open spec fn is_square_draw(p: Vec3) -> bool {
    &&& -(SCALE / 2) <= p.x@ <= SCALE / 2
    &&& -(SCALE / 2) <= p.y@ <= SCALE / 2
    &&& p.z@ == 0
}

pub open spec fn spec_disk_from_sample(p: Vec3) -> Option<Vec3> {
    if p.length_squared()@ < SCALE {
        Some(p)
    } else {
        None
    }
}

/// The sample `p` if it lies inside the unit circle; nothing otherwise.
#[verifier::when_used_as_spec(spec_disk_from_sample)]
pub fn disk_from_sample(p: Vec3) -> (r: Option<Vec3>)
    ensures
        r == spec_disk_from_sample(p),
{
    if p.length_squared().raw < SCALE {
        Some(p)
    } else {
        None
    }
}

/// What `random_in_unit_disk` can return: a point of the square
/// `[-1, 1]^2` that lies inside the unit circle, or the centre.
pub open spec fn is_disk_draw(p: Vec3) -> bool {
    ||| p == Vec3::zero()
    ||| p.within(Fixed::one().neg(), Fixed::one()) && p.z@ == 0 && disk_from_sample(p) == Some(p)
}

/// A random point of the unit disk in the plane `z = 0`, by rejection:
/// points of the square `[-1, 1]^2` are drawn until one lies inside the unit
/// circle. After `MAX_ATTEMPTS` rejections the centre is returned.
pub fn random_in_unit_disk() -> (r: Vec3)
    ensures
        is_disk_draw(r),
{
    let mut attempts: u32 = 0;
    while attempts < MAX_ATTEMPTS
        invariant
            attempts <= MAX_ATTEMPTS,
        decreases MAX_ATTEMPTS - attempts,
    {
        let x: i64 = raw_between(-SCALE, SCALE);
        let y: i64 = raw_between(-SCALE, SCALE);
        let point = Vec3::new(Fixed::from_raw(x), Fixed::from_raw(y), Fixed::zero());
        match disk_from_sample(point) {
            Some(p) => {
                return p;
            },
            None => {},
        }
        attempts = attempts + 1;
    }
    Vec3::zero()
}

impl Sample {
    /// Whether the numbers are ones that the camera can draw.
    pub open spec fn valid(&self) -> bool {
        &&& is_square_draw(self.offset)
        &&& is_disk_draw(self.lens)
        &&& 0 <= self.time@ <= SCALE
    }
}

pub open spec fn spec_image_height(width: i32, aspect_ratio: Fixed) -> i32 {
    let height = Fixed::from_int(width).div(aspect_ratio).trunc();
    if height < 1 {
        1
    } else {
        height as i32
    }
}

/// The number of rows of an image that is `width` pixels wide:
/// `width / aspect_ratio` rounded down, and at least one.
#[verifier::when_used_as_spec(spec_image_height)]
pub fn image_height(width: i32, aspect_ratio: Fixed) -> (r: i32)
    ensures
        r == spec_image_height(width, aspect_ratio),
        r >= 1,
{
    let height: i64 = Fixed::from_int(width).div(aspect_ratio).trunc();
    if height < 1 {
        1
    } else {
        height as i32
    }
}

/// The camera. The first ten fields describe the view and are set by the
/// caller; `initialize` derives the others from them.
#[derive(Clone, Copy, Debug, PartialEq, Eq, Structural)]
pub struct Camera {
    /// Width of the image over its height.
    pub aspect_ratio: Fixed,
    /// Width of the image in pixels.
    pub width: i32,
    /// Number of rays cast through each pixel.
    pub samples_per_pixel: i32,
    /// Number of bounces after which a ray brings black.
    pub max_depth: i32,
    /// Tangent of half the vertical angle of view.
    pub vfov_tan: Fixed,
    /// Where the camera stands.
    pub lookfrom: Vec3,
    /// The point it looks at.
    pub lookat: Vec3,
    /// The direction that is up in the image.
    pub vup: Vec3,
    /// Tangent of half the angle under which the lens is seen from the
    /// point in focus; zero or less for a pinhole.
    pub defocus_tan: Fixed,
    /// Distance from the camera to the plane in focus.
    pub focus_distance: Fixed,
    /// Height of the image in pixels.
    pub height: i32,
    /// Centre of the lens.
    pub center: Vec3,
    /// Centre of the pixel in the upper left corner.
    pub pixel00_loc: Vec3,
    /// Step from a pixel to its right neighbour.
    pub pixel_delta_u: Vec3,
    /// Step from a pixel to the one below.
    pub pixel_delta_v: Vec3,
    /// One over the number of rays per pixel.
    pub pixel_samples_scale: Fixed,
    /// The camera's right, up and backward directions.
    pub u: Vec3,
    pub v: Vec3,
    pub w: Vec3,
    /// Horizontal and vertical radius of the lens.
    pub defocus_disk_u: Vec3,
    pub defocus_disk_v: Vec3,
}

impl Camera {
    /// A camera at the origin that looks along `-z`: a square image of 100
    /// pixels, 10 rays per pixel, 10 bounces, a right angle of view, a
    /// pinhole lens and focus at distance 10. It is not yet initialized.
    pub fn new() -> (r: Camera)
        ensures
            r.aspect_ratio == Fixed::one(),
            r.width == 100,
            r.samples_per_pixel == 10,
            r.max_depth == 10,
            r.vfov_tan == Fixed::one(),
            r.lookfrom == Vec3::zero(),
            r.lookat == Vec3::new(Fixed::zero(), Fixed::zero(), Fixed::one().neg()),
            r.vup == Vec3::new(Fixed::zero(), Fixed::one(), Fixed::zero()),
            r.defocus_tan == Fixed::zero(),
            r.focus_distance == Fixed::from_int(10),
    {
        Camera {
            aspect_ratio: Fixed::one(),
            width: 100,
            samples_per_pixel: 10,
            max_depth: 10,
            vfov_tan: Fixed::one(),
            lookfrom: Vec3::zero(),
            lookat: Vec3::new(Fixed::zero(), Fixed::zero(), Fixed::from_int(-1)),
            vup: Vec3::new(Fixed::zero(), Fixed::one(), Fixed::zero()),
            defocus_tan: Fixed::zero(),
            focus_distance: Fixed::from_int(10),
            height: 0,
            center: Vec3::zero(),
            pixel00_loc: Vec3::zero(),
            pixel_delta_u: Vec3::zero(),
            pixel_delta_v: Vec3::zero(),
            pixel_samples_scale: Fixed::zero(),
            u: Vec3::zero(),
            v: Vec3::zero(),
            w: Vec3::zero(),
            defocus_disk_u: Vec3::zero(),
            defocus_disk_v: Vec3::zero(),
        }
    }

    /// The camera with the derived fields set from the view.
    ///
    /// The image is `width / aspect_ratio` pixels high. The camera looks
    /// along `-w`, with `u` to its right and `v` up:
    /// `w = unit(lookfrom - lookat)`, `u = unit(vup x w)`, `v = w x u`.
    /// Where the camera stands on the point it looks at, or `vup` runs along
    /// the view, the vector has no length to scale and is zero.
    /// The viewport lies at `focus_distance` before the camera and is
    /// `2 vfov_tan focus_distance` high; the pixel steps divide its edges by
    /// the numbers of pixels. The lens has the radius
    /// `focus_distance defocus_tan`.
    pub open spec fn initialized(self) -> Camera {
        let height = image_height(self.width, self.aspect_ratio);
        let viewport_height = Fixed::from_int(2).mul(self.vfov_tan).mul(self.focus_distance);
        let viewport_width = viewport_height.mul(
            Fixed::from_int(self.width).div(Fixed::from_int(height)),
        );
        let w = self.lookfrom.sub(self.lookat).unit_vector();
        let u = self.vup.cross(&w).unit_vector();
        let v = w.cross(&u);
        let viewport_u = u.scale(viewport_width);
        let viewport_v = v.neg().scale(viewport_height);
        let pixel_delta_u = viewport_u.div_scalar(Fixed::from_int(self.width));
        let pixel_delta_v = viewport_v.div_scalar(Fixed::from_int(height));
        let viewport_upper_left = self.lookfrom.sub(w.scale(self.focus_distance)).sub(
            viewport_u.div_scalar(Fixed::from_int(2)),
        ).sub(viewport_v.div_scalar(Fixed::from_int(2)));
        let defocus_radius = self.focus_distance.mul(self.defocus_tan);
        Camera {
            height,
            center: self.lookfrom,
            pixel00_loc: viewport_upper_left.add(pixel_delta_u.add(pixel_delta_v).scale(half())),
            pixel_delta_u,
            pixel_delta_v,
            pixel_samples_scale: Fixed::one().div(Fixed::from_int(self.samples_per_pixel)),
            u,
            v,
            w,
            defocus_disk_u: u.scale(defocus_radius),
            defocus_disk_v: v.scale(defocus_radius),
            ..self
        }
    }

    /// Derives the image height, the camera's frame, the pixel grid and the
    /// lens from the view.
    pub fn initialize(&mut self)
        ensures
            *final(self) == old(self).initialized(),
            final(self).height >= 1,
            final(self).w.within(Fixed::one().neg(), Fixed::one()),
            final(self).u.within(Fixed::one().neg(), Fixed::one()),
            old(self).lookfrom.sub(old(self).lookat).length()@ == 0 ==> final(self).w
                == Vec3::zero(),
    {
        self.height = image_height(self.width, self.aspect_ratio);
        self.pixel_samples_scale = Fixed::one().div(Fixed::from_int(self.samples_per_pixel));
        self.center = self.lookfrom;

        // viewport dimensions
        let viewport_height = Fixed::from_int(2).mul(self.vfov_tan).mul(self.focus_distance);
        let viewport_width = viewport_height.mul(
            Fixed::from_int(self.width).div(Fixed::from_int(self.height)),
        );

        // unit basis vectors of the camera's frame
        self.w = self.lookfrom.sub(self.lookat).unit_vector();
        self.u = self.vup.cross(&self.w).unit_vector();
        self.v = self.w.cross(&self.u);

        // vectors across the horizontal and down the vertical viewport edge
        let viewport_u = self.u.scale(viewport_width);
        let viewport_v = self.v.neg().scale(viewport_height);

        // steps from pixel to pixel
        self.pixel_delta_u = viewport_u.div_scalar(Fixed::from_int(self.width));
        self.pixel_delta_v = viewport_v.div_scalar(Fixed::from_int(self.height));

        // location of the upper left pixel
        let viewport_upper_left = self.center.sub(self.w.scale(self.focus_distance)).sub(
            viewport_u.div_scalar(Fixed::from_int(2)),
        ).sub(viewport_v.div_scalar(Fixed::from_int(2)));
        self.pixel00_loc = viewport_upper_left.add(
            self.pixel_delta_u.add(self.pixel_delta_v).scale(half()),
        );

        // basis vectors of the lens
        let defocus_radius = self.focus_distance.mul(self.defocus_tan);
        self.defocus_disk_u = self.u.scale(defocus_radius);
        self.defocus_disk_v = self.v.scale(defocus_radius);
    }

    pub open spec fn spec_defocus_disk_point(&self, lens: Vec3) -> Vec3 {
        self.center.add(self.defocus_disk_u.scale(lens.x)).add(self.defocus_disk_v.scale(lens.y))
    }

    /// The point of the lens that stands for the point `lens` of the unit
    /// disk.
    #[verifier::when_used_as_spec(spec_defocus_disk_point)]
    pub fn defocus_disk_point(&self, lens: Vec3) -> (r: Vec3)
        ensures
            r == self.spec_defocus_disk_point(lens),
    {
        self.center.add(self.defocus_disk_u.scale(lens.x)).add(self.defocus_disk_v.scale(lens.y))
    }

    /// A random point of the lens.
    pub fn defocus_disk_sample(&self) -> (r: Vec3)
        ensures
            exists|lens: Vec3| is_disk_draw(lens) && r == self.defocus_disk_point(lens),
    {
        let point = random_in_unit_disk();
        self.defocus_disk_point(point)
    }

    pub open spec fn spec_ray_through(&self, x: i32, y: i32, sample: &Sample) -> Ray {
        let pixel_sample = self.pixel00_loc.add(
            self.pixel_delta_u.scale(Fixed::from_int(x).add(sample.offset.x)),
        ).add(self.pixel_delta_v.scale(Fixed::from_int(y).add(sample.offset.y)));
        let ray_origin = if self.defocus_tan@ <= 0 {
            self.center
        } else {
            self.defocus_disk_point(sample.lens)
        };
        Ray { origin: ray_origin, direction: pixel_sample.sub(ray_origin), time: sample.time }
    }

    /// The ray for the pixel in column `x` and row `y` and the numbers of
    /// `sample`: it starts at the centre of the lens, or with a lens that is
    /// no pinhole at the point of the lens that `sample.lens` selects; it
    /// runs toward the centre of the pixel moved by `sample.offset`; it is
    /// cast at `sample.time`.
    #[verifier::when_used_as_spec(spec_ray_through)]
    pub fn ray_through(&self, x: i32, y: i32, sample: &Sample) -> (r: Ray)
        ensures
            r == self.spec_ray_through(x, y, sample),
    {
        let pixel_sample = self.pixel00_loc.add(
            self.pixel_delta_u.scale(Fixed::from_int(x).add(sample.offset.x)),
        ).add(self.pixel_delta_v.scale(Fixed::from_int(y).add(sample.offset.y)));
        let ray_origin = if self.defocus_tan.raw <= 0 {
            self.center
        } else {
            self.defocus_disk_point(sample.lens)
        };
        let ray_direction = pixel_sample.sub(ray_origin);
        Ray::new(ray_origin, ray_direction, sample.time)
    }

    /// What `get_ray` can return for the pixel in column `x` and row `y`.
    pub open spec fn can_get_ray(&self, x: i32, y: i32, ray: Ray) -> bool {
        exists|sample: Sample| sample.valid() && ray == self.ray_through(x, y, &sample)
    }

    /// A ray from the lens through a random point of the pixel in column `x`
    /// and row `y`, cast at a random moment.
    pub fn get_ray(&self, x: i32, y: i32) -> (r: Ray)
        ensures
            self.can_get_ray(x, y, r),
    {
        let offset = self.sample_square();
        let lens = if self.defocus_tan.raw <= 0 {
            Vec3::zero()
        } else {
            random_in_unit_disk()
        };
        let ray_time: i64 = raw_between(0, SCALE);
        let sample = Sample { offset, lens, time: Fixed::from_raw(ray_time) };
        assert(sample.valid());
        self.ray_through(x, y, &sample)
    }

    /// A point of the square `[-0.5, 0.5]^2` about the origin, with `z` zero.
    pub fn sample_square(&self) -> (r: Vec3)
        ensures
            is_square_draw(r),
    {
        let x: i64 = raw_between(0, SCALE);
        let y: i64 = raw_between(0, SCALE);
        Vec3::new(Fixed::from_raw(x).sub(half()), Fixed::from_raw(y).sub(half()), Fixed::zero())
    }

    /// The colour that `ray` brings back from `world`, with at most `depth`
    /// bounces.
    pub fn ray_color(&self, ray: &Ray, depth: i32, world: &HittableList) -> (r: Color)
        ensures
            radiance(*ray, depth as int, world, r),
            depth <= 0 ==> r == Vec3::zero(),
            depth > 0 && world.spec_hit(ray, shading_range()) is None ==> r == sky_color(
                ray.direction,
            ),
            depth == 1 && world.spec_hit(ray, shading_range()) is Some ==> r == Vec3::zero(),
            world.tints_in_range() ==> r.within(Fixed::zero(), Fixed::one()),
        decreases depth,
    {
        if depth <= 0 {
            return Vec3::zero();
        }
        match world.hit(ray, shading_range()) {
            Some(hit) => {
                let out = hit.material.scatter(ray, &hit);
                match out {
                    Some(sent) => {
                        let inner = self.ray_color(&sent.0, depth - 1, world);
                        let color = sent.1.mul(inner);
                        proof {
                            assert(radiance(sent.0, depth - 1, world, inner) && color == sent.1.mul(
                                inner,
                            ));
                            assert(radiance(*ray, depth as int, world, color));
                            if depth == 1 {
                                lemma_last_bounce_is_black(*ray, world, color);
                            }
                            if world.tints_in_range() {
                                lemma_radiance_in_range(*ray, depth as int, world, color);
                            }
                        }
                        color
                    },
                    None => {
                        proof {
                            assert(radiance(*ray, depth as int, world, Vec3::zero()));
                        }
                        Vec3::zero()
                    },
                }
            },
            None => {
                let color = sky_color(ray.direction);
                assert(radiance(*ray, depth as int, world, color));
                color
            },
        }
    }

    /// What one ray through the pixel in column `x` and row `y` can bring.
    pub open spec fn can_sample(&self, x: i32, y: i32, world: &HittableList, color: Color) -> bool {
        exists|ray: Ray|
            self.can_get_ray(x, y, ray) && radiance(ray, self.max_depth as int, world, color)
    }

    /// What `n` rays through the pixel can add up to.
    pub open spec fn can_sum(&self, x: i32, y: i32, world: &HittableList, n: int, sum: Color) -> bool
        decreases n,
    {
        if n <= 0 {
            sum == Vec3::zero()
        } else {
            exists|before: Color, color: Color|
                #![trigger before.add(color)]
                self.can_sum(x, y, world, n - 1, before) && self.can_sample(x, y, world, color)
                    && sum == before.add(color)
        }
    }

    /// What the pixel in column `x` and row `y` can come to: the sum of
    /// `samples_per_pixel` rays, times `pixel_samples_scale`.
    pub open spec fn can_render_pixel(&self, x: i32, y: i32, world: &HittableList, color: Color) -> bool {
        exists|sum: Color|
            #![trigger sum.scale(self.pixel_samples_scale)]
            self.can_sum(x, y, world, self.samples_per_pixel as int, sum) && color == sum.scale(
                self.pixel_samples_scale,
            )
    }

    /// Whether every ray that the camera can cast through the pixel in
    /// column `x` and row `y` hits a surface.
    pub open spec fn pixel_is_covered(&self, x: i32, y: i32, world: &HittableList) -> bool {
        forall|ray: Ray|
            self.can_get_ray(x, y, ray) ==> (#[trigger] world.spec_hit(&ray, shading_range()))
                is Some
    }

    /// A ray of a covered pixel brings black where the rays have one bounce
    /// at most or every surface absorbs.
    pub proof fn lemma_covered_sample_is_black(
        &self,
        x: i32,
        y: i32,
        world: &HittableList,
        color: Color,
    )
        requires
            self.pixel_is_covered(x, y, world),
            self.max_depth <= 1 || world.absorbs_every_ray(),
            self.can_sample(x, y, world, color),
        ensures
            color == Vec3::zero(),
    {
        let ray = choose|ray: Ray|
            self.can_get_ray(x, y, ray) && radiance(ray, self.max_depth as int, world, color);
        assert(world.spec_hit(&ray, shading_range()) is Some);
        if self.max_depth == 1 {
            lemma_last_bounce_is_black(ray, world, color);
        } else if self.max_depth > 1 {
            let rec = world.spec_hit(&ray, shading_range())->0;
            HittableList::lemma_closest_is_nearest(world.objects@, &ray, shading_range());
            let k = choose|k: int|
                0 <= k < world.objects@.len() && (#[trigger] world.objects@[k]).spec_hit(
                    &ray,
                    shading_range(),
                ) == Some(rec);
            world.objects@[k].lemma_hit_within(&ray, shading_range());
            assert(rec.material is Absorbing);
        }
    }

    /// The rays of a covered pixel add up to black where the rays have one
    /// bounce at most or every surface absorbs.
    pub proof fn lemma_covered_sum_is_black(
        &self,
        x: i32,
        y: i32,
        world: &HittableList,
        n: int,
        sum: Color,
    )
        requires
            self.pixel_is_covered(x, y, world),
            self.max_depth <= 1 || world.absorbs_every_ray(),
            self.can_sum(x, y, world, n, sum),
        ensures
            sum == Vec3::zero(),
        decreases n,
    {
        if n > 0 {
            let (before, color) = choose|before: Color, color: Color|
                #![trigger before.add(color)]
                self.can_sum(x, y, world, n - 1, before) && self.can_sample(x, y, world, color)
                    && sum == before.add(color);
            self.lemma_covered_sum_is_black(x, y, world, n - 1, before);
            self.lemma_covered_sample_is_black(x, y, world, color);
        }
    }

    /// A covered pixel is black, whatever is drawn, where the rays have one
    /// bounce at most or every surface absorbs: its three bytes are zero.
    pub proof fn lemma_covered_pixel_is_black(
        &self,
        x: i32,
        y: i32,
        world: &HittableList,
        color: Color,
    )
        requires
            self.pixel_is_covered(x, y, world),
            self.max_depth <= 1 || world.absorbs_every_ray(),
            self.can_render_pixel(x, y, world, color),
        ensures
            color == Vec3::zero(),
            write_color(&color) == (0u8, 0u8, 0u8),
    {
        let sum = choose|sum: Color|
            #![trigger sum.scale(self.pixel_samples_scale)]
            self.can_sum(x, y, world, self.samples_per_pixel as int, sum) && color == sum.scale(
                self.pixel_samples_scale,
            );
        self.lemma_covered_sum_is_black(x, y, world, self.samples_per_pixel as int, sum);
        assert(self.pixel_samples_scale@ * 0 == 0);
        lemma_channel_value(Fixed::zero());
    }

    /// The colour of the pixel in column `x` and row `y`.
    pub fn render_pixel(&self, world: &HittableList, x: i32, y: i32) -> (r: Color)
        ensures
            self.can_render_pixel(x, y, world, r),
            self.samples_per_pixel <= 0 ==> r == Vec3::zero(),
    {
        let mut pixel_color = Vec3::zero();
        let mut sample: i32 = 0;
        while sample < self.samples_per_pixel
            invariant
                0 <= sample,
                sample <= self.samples_per_pixel || sample == 0,
                self.can_sum(x, y, world, sample as int, pixel_color),
                sample == 0 ==> pixel_color == Vec3::zero(),
            decreases self.samples_per_pixel - sample,
        {
            let ray = self.get_ray(x, y);
            let color = self.ray_color(&ray, self.max_depth, world);
            let ghost before = pixel_color;
            pixel_color.add_assign(color);
            proof {
                assert(self.can_sum(x, y, world, sample as int, before) && pixel_color
                    == before.add(color));
                assert(self.can_sum(x, y, world, sample + 1, pixel_color));
            }
            sample = sample + 1;
        }
        let color = pixel_color.scale(self.pixel_samples_scale);
        proof {
            if self.samples_per_pixel <= 0 {
                assert(self.pixel_samples_scale@ * 0 == 0);
                assert(self.can_sum(x, y, world, self.samples_per_pixel as int, pixel_color));
            }
            assert(self.can_render_pixel(x, y, world, color));
        }
        color
    }

    /// The colours of row `y`, from left to right.
    pub fn render_band(&self, world: &HittableList, y: i32) -> (r: Vec<Color>)
        ensures
            r@.len() == (if self.width > 0 {
                self.width as int
            } else {
                0
            }),
            forall|x: int|
                0 <= x < r@.len() ==> self.can_render_pixel(x as i32, y, world, #[trigger] r@[x]),
    {
        let mut band: Vec<Color> = Vec::new();
        let mut x: i32 = 0;
        while x < self.width
            invariant
                0 <= x,
                x <= self.width || x == 0,
                band@.len() == x,
                forall|i: int|
                    0 <= i < band@.len() ==> self.can_render_pixel(
                        i as i32,
                        y,
                        world,
                        #[trigger] band@[i],
                    ),
            decreases self.width - x,
        {
            let color = self.render_pixel(world, x, y);
            band.push(color);
            x = x + 1;
        }
        band
    }
}

/// The pixel in column `x` and row `y` of an image that is stored row by
/// row, each row from left to right, with `columns` pixels in a row.
pub open spec fn pixel_at(pixels: Seq<(u8, u8, u8)>, columns: int, x: int, y: int) -> (u8, u8, u8) {
    pixels[y * columns + x]
}

/// The pixel in column `x` and row `y` lies at a place of its own among the
/// `rows * columns` places, behind all the pixels of the rows above.
pub proof fn lemma_pixel_index(columns: int, rows: int, x: int, y: int)
    by (nonlinear_arith)
    requires
        0 <= x < columns,
        0 <= y < rows,
    ensures
        y * columns <= y * columns + x < (y + 1) * columns,
        (y + 1) * columns <= rows * columns,
        (y + 1) * columns == y * columns + columns,
{
}

/// The bytes of each colour of `band`, in order.
pub fn band_bytes(band: &Vec<Color>) -> (r: Vec<(u8, u8, u8)>)
    ensures
        r@.len() == band@.len(),
        forall|i: int| 0 <= i < r@.len() ==> #[trigger] r@[i] == write_color(&band@[i]),
{
    let mut bytes: Vec<(u8, u8, u8)> = Vec::new();
    let mut i: usize = 0;
    while i < band.len()
        invariant
            i <= band.len(),
            bytes@.len() == i,
            forall|j: int| 0 <= j < i ==> #[trigger] bytes@[j] == write_color(&band@[j]),
        decreases band.len() - i,
    {
        bytes.push(write_color(&band[i]));
        i = i + 1;
    }
    bytes
}

impl Camera {
    /// The number of pixels in a row.
    pub open spec fn columns(&self) -> int {
        if self.width > 0 {
            self.width as int
        } else {
            0
        }
    }

    /// What the image can show at the pixel in column `x` and row `y`: the
    /// bytes of a colour that the pixel can come to.
    pub open spec fn can_show(&self, x: i32, y: i32, world: &HittableList, pixel: (u8, u8, u8)) -> bool {
        exists|color: Color|
            #![trigger write_color(&color)]
            self.can_render_pixel(x, y, world, color) && pixel == write_color(&color)
    }

    /// Initializes the camera and renders `world`. The image comes row by
    /// row from the top, each row from left to right, three bytes a pixel.
    pub fn render(&mut self, world: &HittableList) -> (r: Vec<(u8, u8, u8)>)
        ensures
            *final(self) == old(self).initialized(),
            r@.len() == final(self).height * final(self).columns(),
            forall|x: int, y: int|
                0 <= x < final(self).columns() && 0 <= y < final(self).height
                    ==> final(self).can_show(
                    x as i32,
                    y as i32,
                    world,
                    #[trigger] pixel_at(r@, final(self).columns(), x, y),
                ),
    {
        self.initialize();
        let camera: Camera = *self;
        let ghost columns = camera.columns();
        let mut pixels: Vec<(u8, u8, u8)> = Vec::new();
        let mut y: i32 = 0;
        while y < camera.height
            invariant
                0 <= y <= camera.height,
                columns == camera.columns(),
                pixels@.len() == y * columns,
                forall|i: int, j: int|
                    0 <= i < columns && 0 <= j < y ==> camera.can_show(
                        i as i32,
                        j as i32,
                        world,
                        #[trigger] pixel_at(pixels@, columns, i, j),
                    ),
            decreases camera.height - y,
        {
            let band = camera.render_band(world, y);
            let mut bytes = band_bytes(&band);
            let ghost above = pixels@;
            let ghost row = bytes@;
            pixels.append(&mut bytes);
            proof {
                assert(pixels@ == above + row);
                assert((y + 1) * columns == y * columns + columns) by (nonlinear_arith);
                assert forall|i: int, j: int| 0 <= i < columns && 0 <= j < y + 1 implies camera.can_show(
                    i as i32,
                    j as i32,
                    world,
                    #[trigger] pixel_at(pixels@, columns, i, j),
                ) by {
                    lemma_pixel_index(columns, y + 1, i, j);
                    if j < y {
                        lemma_pixel_index(columns, y as int, i, j);
                        assert(pixel_at(pixels@, columns, i, j) == pixel_at(above, columns, i, j));
                    } else {
                        assert(pixel_at(pixels@, columns, i, j) == row[i]);
                        assert(row[i] == write_color(&band@[i]));
                        assert(camera.can_render_pixel(i as i32, y, world, band@[i]));
                    }
                }
            }
            y = y + 1;
        }
        pixels
    }
}

impl Default for Camera {
    /// The camera whose every field is zero.
    fn default() -> (r: Camera)
        ensures
            r == (Camera {
                aspect_ratio: Fixed::zero(),
                width: 0,
                samples_per_pixel: 0,
                max_depth: 0,
                vfov_tan: Fixed::zero(),
                lookfrom: Vec3::zero(),
                lookat: Vec3::zero(),
                vup: Vec3::zero(),
                defocus_tan: Fixed::zero(),
                focus_distance: Fixed::zero(),
                height: 0,
                center: Vec3::zero(),
                pixel00_loc: Vec3::zero(),
                pixel_delta_u: Vec3::zero(),
                pixel_delta_v: Vec3::zero(),
                pixel_samples_scale: Fixed::zero(),
                u: Vec3::zero(),
                v: Vec3::zero(),
                w: Vec3::zero(),
                defocus_disk_u: Vec3::zero(),
                defocus_disk_v: Vec3::zero(),
            }),
    {
        Camera {
            aspect_ratio: Fixed::zero(),
            width: 0,
            samples_per_pixel: 0,
            max_depth: 0,
            vfov_tan: Fixed::zero(),
            lookfrom: Vec3::zero(),
            lookat: Vec3::zero(),
            vup: Vec3::zero(),
            defocus_tan: Fixed::zero(),
            focus_distance: Fixed::zero(),
            height: 0,
            center: Vec3::zero(),
            pixel00_loc: Vec3::zero(),
            pixel_delta_u: Vec3::zero(),
            pixel_delta_v: Vec3::zero(),
            pixel_samples_scale: Fixed::zero(),
            u: Vec3::zero(),
            v: Vec3::zero(),
            w: Vec3::zero(),
            defocus_disk_u: Vec3::zero(),
            defocus_disk_v: Vec3::zero(),
        }
    }
}

} // verus!
