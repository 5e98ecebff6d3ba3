//! How surfaces scatter light: diffuse, mirror-like and glass-like.

use crate::fixed::{lemma_mirror_side, magnitude, Fixed, RAW_MAX, SCALE};
use crate::hittable::HitRecord;
use crate::ray::Ray;
use crate::vec3::{Color, Vec3};
use vstd::prelude::*;

verus! {

pub open spec fn spec_reflect(v: &Vec3, n: &Vec3) -> Vec3 {
    v.sub(n.scale(Fixed::from_int(2).mul(v.dot(n))))
}

/// `v` mirrored at the plane with normal `n`: `v - 2 (v . n) n`.
#[verifier::when_used_as_spec(spec_reflect)]
pub fn reflect(v: &Vec3, n: &Vec3) -> (r: Vec3)
    ensures
        r == spec_reflect(v, n),
{
    v.sub(n.scale(Fixed::from_int(2).mul(v.dot(n))))
}

pub open spec fn spec_refract(uv: &Vec3, n: &Vec3, etai_over_etat: Fixed) -> Vec3 {
    let cos_theta = uv.dot(n).neg().min(Fixed::one());
    let r_out_perp = uv.add(n.scale(cos_theta)).scale(etai_over_etat);
    let r_out_parallel = n.scale(Fixed::one().sub(r_out_perp.length_squared()).abs().sqrt().neg());
    r_out_perp.add(r_out_parallel)
}

/// The unit direction `uv` bent at the surface with normal `n`, for the
/// ratio `etai_over_etat` of the refraction indices.
#[verifier::when_used_as_spec(spec_refract)]
pub fn refract(uv: &Vec3, n: &Vec3, etai_over_etat: Fixed) -> (r: Vec3)
    ensures
        r == spec_refract(uv, n, etai_over_etat),
{
    let cos_theta = uv.dot(n).neg().min(Fixed::one());
    let r_out_perp = uv.add(n.scale(cos_theta)).scale(etai_over_etat);
    let r_out_parallel = n.scale(Fixed::one().sub(r_out_perp.length_squared()).abs().sqrt().neg());
    r_out_perp.add(r_out_parallel)
}

/// A diffuse surface.
#[derive(Clone, Copy, Debug, PartialEq, Eq, Structural)]
pub struct Lambertian {
    pub albedo: Color,
}

impl Lambertian {
    pub fn new(albedo: Color) -> (r: Lambertian)
        ensures
            r.albedo == albedo,
    {
        Lambertian { albedo }
    }

    pub open spec fn spec_scatter_with(&self, ray: &Ray, hit: &HitRecord, unit: Vec3) -> (
        Ray,
        Color,
    ) {
        let direction = hit.normal.add(unit);
        (
            Ray {
                origin: hit.point,
                direction: if direction.near_zero() {
                    hit.normal
                } else {
                    direction
                },
                time: ray.time,
            },
            self.albedo,
        )
    }

    /// The scattered ray and its tint for the unit direction `unit`: the ray
    /// leaves the hit point along `normal + unit`, or along the normal when
    /// that sum is near zero; the tint is the albedo.
    #[verifier::when_used_as_spec(spec_scatter_with)]
    pub fn scatter_with(&self, ray: &Ray, hit: &HitRecord, unit: Vec3) -> (r: (Ray, Color))
        ensures
            r == self.spec_scatter_with(ray, hit, unit),
            r.1 == self.albedo,
            r.0.origin == hit.point,
            r.0.direction == hit.normal.add(unit) || r.0.direction == hit.normal,
            hit.normal.length()@ > 0 || Vec3::is_unit_draw(unit) ==> r.0.direction.length()@ > 0,
    {
        proof {
            self.lemma_never_degenerate(ray, hit, unit);
        }
        let mut direction = hit.normal.add(unit);
        if direction.near_zero() {
            direction = hit.normal;
        }
        (Ray::new(hit.point, direction, ray.time), self.albedo)
    }

    /// The scattered ray never has a direction of length zero, where the
    /// normal has a length above zero or the unit direction is one that
    /// `Vec3::random_unit_vector` can draw: a sum of length zero gives way
    /// to the normal, and the normal and the unit direction cannot cancel
    /// where the normal has no length.
    pub proof fn lemma_never_degenerate(&self, ray: &Ray, hit: &HitRecord, unit: Vec3)
        ensures
            hit.normal.length()@ > 0 || Vec3::is_unit_draw(unit) ==> self.scatter_with(
                ray,
                hit,
                unit,
            ).0.direction.length()@ > 0,
    {
        let sum = hit.normal.add(unit);
        sum.lemma_near_zero_is_no_length();
        hit.normal.lemma_near_zero_is_no_length();
        if hit.normal.length()@ == 0 && Vec3::is_unit_draw(unit) {
            Vec3::lemma_unit_draw_is_long(unit);
        }
    }

    /// What `scatter` can return: always a ray, for some unit direction that
    /// `Vec3::random_unit_vector` can draw.
    pub open spec fn can_scatter(&self, ray: &Ray, hit: &HitRecord, out: Option<(Ray, Color)>) -> bool {
        exists|u: Vec3| Vec3::is_unit_draw(u) && out == Some(self.scatter_with(ray, hit, u))
    }

    /// Scatters `ray` at `hit` in a random direction about the normal.
    pub fn scatter(&self, ray: &Ray, hit: &HitRecord) -> (r: Option<(Ray, Color)>)
        ensures
            self.can_scatter(ray, hit, r),
            r matches Some(out) && out.1 == self.albedo && out.0.origin == hit.point
                && out.0.direction.length()@ > 0,
    {
        let unit = Vec3::random_unit_vector();
        Some(self.scatter_with(ray, hit, unit))
    }
}

/// A mirror-like surface. `fuzz` lies in `[0, 1]`: zero is a perfect mirror.
#[derive(Clone, Copy, Debug, PartialEq, Eq, Structural)]
pub struct Metal {
    pub albedo: Color,
    pub fuzz: Fixed,
}

impl Metal {
    /// What the constructor establishes: `fuzz` lies in `[0, 1]`.
    pub open spec fn well_formed(&self) -> bool {
        0 <= self.fuzz@ <= SCALE
    }

    /// A metal of the given tint; `fuzz` is clamped to `[0, 1]`.
    pub fn new(albedo: Color, fuzz: Fixed) -> (r: Metal)
        ensures
            r.albedo == albedo,
            r.fuzz == fuzz.max(Fixed::zero()).min(Fixed::one()),
            r.well_formed(),
    {
        Metal { albedo, fuzz: fuzz.max(Fixed::zero()).min(Fixed::one()) }
    }

    /// The direction along which the metal sends the ray on, for the unit
    /// direction `unit`: the mirrored direction scaled to unit length, plus
    /// `fuzz * unit`.
    pub open spec fn scattered_direction(&self, ray: &Ray, hit: &HitRecord, unit: Vec3) -> Vec3 {
        reflect(&ray.direction, &hit.normal).unit_vector().add(unit.scale(self.fuzz))
    }

    pub open spec fn spec_scatter_with(&self, ray: &Ray, hit: &HitRecord, unit: Vec3) -> Option<
        (Ray, Color),
    > {
        let direction = self.scattered_direction(ray, hit, unit);
        if direction.near_zero() || direction.dot(&hit.normal)@ < 0 {
            None
        } else {
            Some((Ray { origin: hit.point, direction, time: ray.time }, self.albedo))
        }
    }

    /// The scattered ray and its tint for the unit direction `unit`, or
    /// nothing when the scattered direction has no length or points into
    /// the surface.
    #[verifier::when_used_as_spec(spec_scatter_with)]
    pub fn scatter_with(&self, ray: &Ray, hit: &HitRecord, unit: Vec3) -> (r: Option<(Ray, Color)>)
        ensures
            r == self.spec_scatter_with(ray, hit, unit),
            r matches Some(out) ==> {
                &&& out.0.origin == hit.point
                &&& out.0.time == ray.time
                &&& out.0.direction == self.scattered_direction(ray, hit, unit)
                &&& out.0.direction.length()@ > 0
                &&& out.0.direction.dot(&hit.normal)@ >= 0
                &&& out.1 == self.albedo
            },
    {
        let reflected = reflect(&ray.direction, &hit.normal);
        let reflected = reflected.unit_vector().add(unit.scale(self.fuzz));
        let scattered = Ray::new(hit.point, reflected, ray.time);
        if scattered.direction.near_zero() || scattered.direction.dot(&hit.normal).raw < 0 {
            return None;
        }
        Some((scattered, self.albedo))
    }

    /// What `scatter` can return.
    pub open spec fn can_scatter(&self, ray: &Ray, hit: &HitRecord, out: Option<(Ray, Color)>) -> bool {
        exists|u: Vec3| Vec3::is_unit_draw(u) && out == self.scatter_with(ray, hit, u)
    }

    /// Scatters `ray` at `hit` about the mirrored direction.
    pub fn scatter(&self, ray: &Ray, hit: &HitRecord) -> (r: Option<(Ray, Color)>)
        ensures
            self.can_scatter(ray, hit, r),
            self.fuzz@ == 0 ==> r == self.scatter_with(ray, hit, Vec3::zero()),
            r matches Some(out) ==> out.0.origin == hit.point && out.0.direction.length()@ > 0
                && out.1 == self.albedo,
    {
        let unit = Vec3::random_unit_vector();
        proof {
            if self.fuzz@ == 0 {
                self.lemma_mirror(ray, hit, unit);
            }
        }
        self.scatter_with(ray, hit, unit)
    }

    /// Whether the ray and the hit are of a size for which
    /// `lemma_mirror_sends_on` holds: the direction of the ray at most
    /// `2^10` in each component, the normal at most one in each component
    /// and at least `0.87` long, the mirrored direction a quarter or more
    /// long, and the ray running against the normal by 256 steps or more
    /// for each unit of that length.
    pub open spec fn of_common_size(ray: &Ray, hit: &HitRecord) -> bool {
        let n = hit.normal;
        let len = reflect(&ray.direction, &n).length()@;
        &&& ray.direction.at_most(0x400 * SCALE)
        &&& n.at_most(SCALE as int)
        &&& 4 * (n.x@ * n.x@ + n.y@ * n.y@ + n.z@ * n.z@) >= 3 * SCALE * SCALE
        &&& len >= SCALE / 4
        &&& ray.direction.dot(&n)@ * SCALE <= -256 * len
    }

    /// A mirror sends on every ray that runs against the normal. Where the
    /// ray and the hit are of common size, a metal without fuzz never
    /// absorbs the ray: it leaves the hit point along the mirrored direction
    /// scaled to unit length, with the tint of the metal, whatever is drawn.
    pub proof fn lemma_mirror_sends_on(&self, ray: &Ray, hit: &HitRecord, unit: Vec3)
        requires
            self.fuzz@ == 0,
            Metal::of_common_size(ray, hit),
        ensures
            self.scatter_with(ray, hit, unit) == Some(
                (
                    Ray {
                        origin: hit.point,
                        direction: reflect(&ray.direction, &hit.normal).unit_vector(),
                        time: ray.time,
                    },
                    self.albedo,
                ),
            ),
    {
        self.lemma_mirror(ray, hit, unit);
        let s = SCALE as int;
        let v = ray.direction;
        let n = hit.normal;
        let d = v.dot(&n);
        assert(magnitude(v.x@ * n.x@) <= 0x400 * s * s && magnitude(v.y@ * n.y@) <= 0x400 * s * s
            && magnitude(v.z@ * n.z@) <= 0x400 * s * s) by (nonlinear_arith)
            requires
                v.at_most(0x400 * s),
                n.at_most(s),
                s == 0x1_0000_0000,
        ;
        assert(0x400 * s * s <= 0x1000_0000 * s * s) by (nonlinear_arith)
            requires
                s > 0,
        ;
        v.lemma_dot_near(&n);
        Vec3::lemma_product_near(v.x, n.x);
        Vec3::lemma_product_near(v.y, n.y);
        Vec3::lemma_product_near(v.z, n.z);
        assert(magnitude(v.x.mul(n.x)@) <= 0x400 * s && magnitude(v.y.mul(n.y)@) <= 0x400 * s
            && magnitude(v.z.mul(n.z)@) <= 0x400 * s) by (nonlinear_arith)
            requires
                magnitude(v.x.mul(n.x)@) * s <= 0x400 * s * s,
                magnitude(v.y.mul(n.y)@) * s <= 0x400 * s * s,
                magnitude(v.z.mul(n.z)@) * s <= 0x400 * s * s,
                s == 0x1_0000_0000,
        ;
        let len = reflect(&v, &n).length();
        assert(d@ < 0) by (nonlinear_arith)
            requires
                d@ * s <= -256 * len@,
                len@ >= s / 4,
                s == 0x1_0000_0000,
        ;
        assert(-0xc00 * s <= d@ < 0);
        assert(d@ * s == v.x.mul(n.x)@ * s + v.y.mul(n.y)@ * s + v.z.mul(n.z)@ * s)
            by (nonlinear_arith)
            requires
                d@ == v.x.mul(n.x)@ + v.y.mul(n.y)@ + v.z.mul(n.z)@,
        ;
        // twice the inner product
        let k = Fixed::from_int(2).mul(d);
        assert(Fixed::from_int(2)@ == 2 * s);
        assert(magnitude((2 * s) * d@) == (magnitude(d@) * 2) * s && ((2 * s) * d@ < 0))
            by (nonlinear_arith)
            requires
                d@ < 0,
                s == 0x1_0000_0000,
        ;
        assert(((magnitude(d@) * 2) * s) / s == magnitude(d@) * 2) by (nonlinear_arith)
            requires
                s == 0x1_0000_0000,
        ;
        assert(k@ == 2 * d@);
        assert(k@ * s == 2 * (d@ * s)) by (nonlinear_arith)
            requires
                k@ == 2 * d@,
        ;
        // the part of the ray that is turned round
        assert(magnitude(k@ * n.x@) <= 0x1800 * s * s && magnitude(k@ * n.y@) <= 0x1800 * s * s
            && magnitude(k@ * n.z@) <= 0x1800 * s * s) by (nonlinear_arith)
            requires
                -0x1800 * s <= k@ <= 0,
                n.at_most(s),
                s == 0x1_0000_0000,
        ;
        assert(0x1800 * s * s <= RAW_MAX * SCALE) by (nonlinear_arith)
            requires
                s == 0x1_0000_0000,
                RAW_MAX == 0x7fff_ffff_ffff_ffff,
        ;
        k.lemma_mul_near(n.x);
        k.lemma_mul_near(n.y);
        k.lemma_mul_near(n.z);
        let w = n.scale(k);
        assert(w.at_most(0x1800 * s)) by (nonlinear_arith)
            requires
                magnitude(w.x@) * s <= 0x1800 * s * s,
                magnitude(w.y@) * s <= 0x1800 * s * s,
                magnitude(w.z@) * s <= 0x1800 * s * s,
                s == 0x1_0000_0000,
        ;
        // the mirrored direction and its length
        let r = reflect(&v, &n);
        assert(r == v.sub(w));
        assert(r.x@ == v.x@ - w.x@ && r.y@ == v.y@ - w.y@ && r.z@ == v.z@ - w.z@);
        assert(r.at_most(0x1c00 * s));
        r.lemma_unit_vector_near();
        let e = r.unit_vector();
        e.lemma_long_has_length();
        assert(magnitude(e.x@ * n.x@) <= s * s && magnitude(e.y@ * n.y@) <= s * s && magnitude(
            e.z@ * n.z@,
        ) <= s * s) by (nonlinear_arith)
            requires
                e.at_most(s),
                n.at_most(s),
                s > 0,
        ;
        assert(s * s <= 0x1000_0000 * s * s) by (nonlinear_arith)
            requires
                s > 0,
        ;
        e.lemma_dot_near(&n);
        lemma_mirror_side(
            (v.x@, v.y@, v.z@),
            (n.x@, n.y@, n.z@),
            k@,
            (w.x@, w.y@, w.z@),
            len@,
            (e.x@, e.y@, e.z@),
            (e.x.mul(n.x)@, e.y.mul(n.y)@, e.z.mul(n.z)@),
        );
        assert(self.scattered_direction(ray, hit, unit) == e);
    }

    /// With `fuzz` zero the metal is a mirror: whatever unit direction is
    /// drawn, the ray leaves along the mirrored direction scaled to unit
    /// length.
    pub proof fn lemma_mirror(&self, ray: &Ray, hit: &HitRecord, unit: Vec3)
        requires
            self.fuzz@ == 0,
        ensures
            self.scattered_direction(ray, hit, unit) == reflect(
                &ray.direction,
                &hit.normal,
            ).unit_vector(),
            self.scatter_with(ray, hit, unit) == self.scatter_with(ray, hit, Vec3::zero()),
    {
        assert(0 * unit.x@ == 0 && 0 * unit.y@ == 0 && 0 * unit.z@ == 0);
    }
}

/// A clear, glass-like surface.
#[derive(Clone, Copy, Debug, PartialEq, Eq, Structural)]
pub struct Dialetric {
    pub refraction_index: Fixed,
}

impl Dialetric {
    pub fn new(refraction_index: Fixed) -> (r: Dialetric)
        ensures
            r.refraction_index == refraction_index,
    {
        Dialetric { refraction_index }
    }

    pub open spec fn spec_reflectance(cosine: Fixed, refraction_index: Fixed) -> Fixed {
        let r0 = Fixed::one().sub(refraction_index).div(Fixed::one().add(refraction_index));
        let r0 = r0.mul(r0);
        let x = Fixed::one().sub(cosine);
        let x2 = x.mul(x);
        r0.add(Fixed::one().sub(r0).mul(x2.mul(x2).mul(x)))
    }

    /// Schlick's approximation of the share of light that is reflected:
    /// `r0 + (1 - r0) (1 - cosine)^5` with `r0 = ((1 - index) / (1 + index))^2`.
    #[verifier::when_used_as_spec(spec_reflectance)]
    pub fn reflectance(cosine: Fixed, refraction_index: Fixed) -> (r: Fixed)
        ensures
            r == Dialetric::spec_reflectance(cosine, refraction_index),
    {
        let r0 = Fixed::one().sub(refraction_index).div(Fixed::one().add(refraction_index));
        let r0 = r0.mul(r0);
        let x = Fixed::one().sub(cosine);
        let x2 = x.mul(x);
        r0.add(Fixed::one().sub(r0).mul(x2.mul(x2).mul(x)))
    }

    /// The ratio of the refraction indices at the hit: `1 / index` where the
    /// ray enters, `index` where it leaves.
    pub open spec fn index_ratio(&self, hit: &HitRecord) -> Fixed {
        if hit.front_face {
            Fixed::one().div(self.refraction_index)
        } else {
            self.refraction_index
        }
    }

    /// The cosine of the angle between the ray and the normal, at most one.
    pub open spec fn cosine(ray: &Ray, hit: &HitRecord) -> Fixed {
        ray.direction.unit_vector().neg().dot(&hit.normal).min(Fixed::one())
    }

    /// Whether the ray is reflected rather than refracted, for the number
    /// `draw` of `[0, 1)`: when refraction is impossible, or when the
    /// reflectance exceeds `draw`.
    pub open spec fn reflects(&self, ray: &Ray, hit: &HitRecord, draw: Fixed) -> bool {
        let ri = self.index_ratio(hit);
        let cos_theta = Dialetric::cosine(ray, hit);
        let sin_theta = Fixed::one().sub(cos_theta.mul(cos_theta)).sqrt();
        ri.mul(sin_theta)@ > SCALE || Dialetric::reflectance(cos_theta, ri)@ > draw@
    }

    /// Where the refraction index is one the media match: the ratio of the
    /// indices is one on both sides of the surface, no ray is reflected
    /// totally, the share of reflected light is `(1 - cosine)^5`, and a ray
    /// that is not reflected leaves as `refract` bends it for the ratio one.
    pub proof fn lemma_matching_media(&self, ray: &Ray, hit: &HitRecord, draw: Fixed)
        requires
            self.refraction_index == Fixed::one(),
        ensures
            self.index_ratio(hit) == Fixed::one(),
            ({
                let x = Fixed::one().sub(Dialetric::cosine(ray, hit));
                let x2 = x.mul(x);
                self.reflects(ray, hit, draw) == (x2.mul(x2).mul(x)@ > draw@)
            }),
            !self.reflects(ray, hit, draw) ==> self.bent_direction(ray, hit, draw) == refract(
                &ray.direction.unit_vector(),
                &hit.normal,
                Fixed::one(),
            ),
    {
        let one = Fixed::one();
        let cos_theta = Dialetric::cosine(ray, hit);
        let sin_theta = one.sub(cos_theta.mul(cos_theta)).sqrt();
        assert(SCALE * SCALE == 0x1_0000_0000_0000_0000);
        assert(0x1_0000_0000_0000_0000int / 0x1_0000_0000 == 0x1_0000_0000);
        assert(one.div(one) == one);
        cos_theta.lemma_square_nonneg();
        one.sub(cos_theta.mul(cos_theta)).lemma_sqrt_at_most_one();
        one.sub(cos_theta.mul(cos_theta)).lemma_sqrt_bounds();
        sin_theta.lemma_mul_one();
        let x = one.sub(cos_theta);
        let x2 = x.mul(x);
        let x5 = x2.mul(x2).mul(x);
        x5.lemma_mul_one();
        assert(one.sub(one).div(one.add(one)) == Fixed::zero());
        assert(Fixed::zero().mul(Fixed::zero()) == Fixed::zero());
        assert(Dialetric::reflectance(cos_theta, one) == x5);
    }

    pub open spec fn spec_scatter_with(&self, ray: &Ray, hit: &HitRecord, draw: Fixed) -> (
        Ray,
        Color,
    ) {
        let direction = self.bent_direction(ray, hit, draw);
        (
            Ray {
                origin: hit.point,
                direction: if direction.near_zero() {
                    ray.direction.unit_vector()
                } else {
                    direction
                },
                time: ray.time,
            },
            Vec3::one(),
        )
    }

    /// The direction into which the surface bends the ray, for the number
    /// `draw` of `[0, 1)`: the mirrored or the refracted direction.
    pub open spec fn bent_direction(&self, ray: &Ray, hit: &HitRecord, draw: Fixed) -> Vec3 {
        let unit_direction = ray.direction.unit_vector();
        if self.reflects(ray, hit, draw) {
            reflect(&unit_direction, &hit.normal)
        } else {
            refract(&unit_direction, &hit.normal, self.index_ratio(hit))
        }
    }

    /// The ray that leaves the hit point and its tint, for the number `draw`
    /// of `[0, 1)`: the mirrored or the refracted direction; where that has
    /// no length, the ray goes on in its own direction. The tint is white.
    #[verifier::when_used_as_spec(spec_scatter_with)]
    pub fn scatter_with(&self, ray: &Ray, hit: &HitRecord, draw: Fixed) -> (r: (Ray, Color))
        ensures
            r == self.spec_scatter_with(ray, hit, draw),
            r.1 == Vec3::one(),
            r.0.origin == hit.point,
            r.0.time == ray.time,
            ray.direction.length()@ > 0 ==> r.0.direction.length()@ > 0,
    {
        proof {
            ray.direction.lemma_unit_vector_is_long();
            ray.direction.unit_vector().lemma_near_zero_is_no_length();
            if ray.direction.length()@ > 0 {
                ray.direction.unit_vector().lemma_long_has_length();
            }
        }
        let attenuation = Vec3::one();
        let ri = if hit.front_face {
            Fixed::one().div(self.refraction_index)
        } else {
            self.refraction_index
        };
        let unit_direction = ray.direction.unit_vector();
        let cos_theta = unit_direction.neg().dot(&hit.normal).min(Fixed::one());
        let sin_theta = Fixed::one().sub(cos_theta.mul(cos_theta)).sqrt();
        let cannot_refract = ri.mul(sin_theta).raw > SCALE;
        let mut direction = if cannot_refract || Dialetric::reflectance(cos_theta, ri).raw
            > draw.raw {
            reflect(&unit_direction, &hit.normal)
        } else {
            refract(&unit_direction, &hit.normal, ri)
        };
        if direction.near_zero() {
            direction = unit_direction;
        }
        (Ray::new(hit.point, direction, ray.time), attenuation)
    }

    /// What `scatter` can return: always a ray, for some number of `[0, 1)`.
    pub open spec fn can_scatter(&self, ray: &Ray, hit: &HitRecord, out: Option<(Ray, Color)>) -> bool {
        exists|draw: Fixed| 0 <= draw@ < SCALE && out == Some(self.scatter_with(ray, hit, draw))
    }

    /// Reflects or refracts `ray` at `hit`, by chance.
    pub fn scatter(&self, ray: &Ray, hit: &HitRecord) -> (r: Option<(Ray, Color)>)
        ensures
            self.can_scatter(ray, hit, r),
            r matches Some(out) && out.1 == Vec3::one() && out.0.origin == hit.point && (
            ray.direction.length()@ > 0 ==> out.0.direction.length()@ > 0),
    {
        let draw = Fixed::random();
        Some(self.scatter_with(ray, hit, draw))
    }
}

/// The material of a surface.
#[derive(Clone, Copy, Debug, PartialEq, Eq, Structural)]
pub enum Material {
    /// A surface that absorbs every ray.
    Absorbing,
    Lambertian(Lambertian),
    Metal(Metal),
    Dialetric(Dialetric),
}

impl Material {
    /// The tint that the material gives the rays that it sends on.
    pub open spec fn tint(&self) -> Color {
        match *self {
            Material::Absorbing => Vec3::zero(),
            Material::Lambertian(m) => m.albedo,
            Material::Metal(m) => m.albedo,
            Material::Dialetric(_) => Vec3::one(),
        }
    }

    /// Whether each part of the tint lies in `[0, 1]`: the material sends
    /// on no more light than it receives.
    pub open spec fn tint_in_range(&self) -> bool {
        self.tint().within(Fixed::zero(), Fixed::one())
    }

    /// A ray with a direction that has a length is sent on, if at all, in a
    /// direction that has a length: no material makes a ray that cannot be
    /// followed.
    pub proof fn lemma_sent_has_length(
        &self,
        ray: &Ray,
        hit: &HitRecord,
        out: Option<(Ray, Color)>,
    )
        requires
            self.can_scatter(ray, hit, out),
            ray.direction.length()@ > 0,
        ensures
            out matches Some(sent) ==> sent.0.direction.length()@ > 0,
    {
        match *self {
            Material::Absorbing => {},
            Material::Lambertian(m) => {
                let u = choose|u: Vec3|
                    Vec3::is_unit_draw(u) && out == Some(m.scatter_with(ray, hit, u));
                m.lemma_never_degenerate(ray, hit, u);
            },
            Material::Metal(m) => {
                let u = choose|u: Vec3| Vec3::is_unit_draw(u) && out == m.scatter_with(ray, hit, u);
                m.scattered_direction(ray, hit, u).lemma_near_zero_is_no_length();
            },
            Material::Dialetric(m) => {
                let draw = choose|draw: Fixed|
                    0 <= draw@ < SCALE && out == Some(m.scatter_with(ray, hit, draw));
                ray.direction.lemma_unit_vector_is_long();
                ray.direction.unit_vector().lemma_long_has_length();
                m.bent_direction(ray, hit, draw).lemma_near_zero_is_no_length();
            },
        }
    }

    /// A ray that the material sends on has the tint of the material.
    pub proof fn lemma_scatter_tint(&self, ray: &Ray, hit: &HitRecord, out: Option<(Ray, Color)>)
        requires
            self.can_scatter(ray, hit, out),
        ensures
            out matches Some(sent) ==> sent.1 == self.tint(),
    {
    }

    /// What `scatter` can return for this material.
    pub open spec fn can_scatter(&self, ray: &Ray, hit: &HitRecord, out: Option<(Ray, Color)>) -> bool {
        match *self {
            Material::Absorbing => out is None,
            Material::Lambertian(m) => m.can_scatter(ray, hit, out),
            Material::Metal(m) => m.can_scatter(ray, hit, out),
            Material::Dialetric(m) => m.can_scatter(ray, hit, out),
        }
    }

    /// The ray that leaves the surface and its tint, or nothing when the
    /// surface absorbs the ray.
    pub fn scatter(&self, ray: &Ray, hit: &HitRecord) -> (r: Option<(Ray, Color)>)
        ensures
            self.can_scatter(ray, hit, r),
            r matches Some(out) ==> out.0.origin == hit.point && out.0.time == ray.time,
            self is Absorbing ==> r is None,
            self is Lambertian || self is Dialetric ==> r is Some,
    {
        match self {
            Material::Absorbing => None,
            Material::Lambertian(m) => m.scatter(ray, hit),
            Material::Metal(m) => m.scatter(ray, hit),
            Material::Dialetric(m) => m.scatter(ray, hit),
        }
    }
}

} // verus!
