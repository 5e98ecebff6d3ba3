//! Spheres, at rest or moving along a straight line while the shutter is
//! open.

use crate::fixed::{lemma_exit_side, magnitude, Fixed, RAW_MAX, SCALE};
use crate::hittable::{HitRecord, Hittable};
use crate::interval::Interval;
use crate::material::Material;
use crate::ray::Ray;
use crate::vec3::Vec3;
use vstd::prelude::*;

verus! {

/// A sphere. Its centre at time `t` is `center.at(t)`: `center.origin` is
/// where it stands at time zero, `center.direction` how far it moves until
/// time one. The radius is not below zero.
#[derive(Clone, Copy, Debug, PartialEq, Eq, Structural)]
pub struct Sphere {
    pub center: Ray,
    pub radius: Fixed,
    pub material: Material,
}

impl Sphere {
    /// What the constructors establish: the radius is not below zero.
    pub open spec fn well_formed(&self) -> bool {
        self.radius@ >= 0
    }

    /// A sphere at rest. A radius below zero is taken as zero.
    pub fn new(center: Vec3, radius: Fixed, material: Material) -> (r: Sphere)
        ensures
            r.center == Ray::new(center, Vec3::zero(), Fixed::zero()),
            r.radius == Fixed::zero().max(radius),
            r.well_formed(),
            r.material == material,
    {
        Sphere {
            center: Ray::new(center, Vec3::zero(), Fixed::zero()),
            radius: Fixed::zero().max(radius),
            material,
        }
    }

    /// A sphere that moves from `begin_loc` at time zero to `end_loc` at time
    /// one. A radius below zero is taken as zero.
    pub fn new_moving(begin_loc: Vec3, end_loc: Vec3, radius: Fixed, material: Material) -> (r:
        Sphere)
        ensures
            r.center == Ray::new(begin_loc, end_loc.sub(begin_loc), Fixed::zero()),
            r.radius == Fixed::zero().max(radius),
            r.well_formed(),
            r.material == material,
    {
        Sphere {
            center: Ray::new(begin_loc, end_loc.sub(begin_loc), Fixed::zero()),
            radius: Fixed::zero().max(radius),
            material,
        }
    }

    /// The vector from the origin of `ray` to the centre of the sphere at the
    /// time of the ray.
    pub open spec fn offset(&self, ray: &Ray) -> Vec3 {
        self.center.at(ray.time).sub(ray.origin)
    }

    /// The discriminant `h^2 - a c` of the equation `|O + t D - C|^2 = r^2`,
    /// where `a = |D|^2`, `h = D . (C - O)` and `c = |C - O|^2 - r^2`.
    #[verifier::opaque]
    pub open spec fn discriminant(&self, ray: &Ray) -> Fixed {
        let oc = self.offset(ray);
        let a = ray.direction.length_squared();
        let h = ray.direction.dot(&oc);
        let c = oc.length_squared().sub(self.radius.mul(self.radius));
        h.mul(h).sub(a.mul(c))
    }

    /// The smaller solution of the equation: `(h - sqrt(disc)) / a`.
    #[verifier::opaque]
    pub open spec fn near_root(&self, ray: &Ray) -> Fixed {
        let h = ray.direction.dot(&self.offset(ray));
        h.sub(self.discriminant(ray).sqrt()).div(ray.direction.length_squared())
    }

    /// The larger solution of the equation: `(h + sqrt(disc)) / a`.
    #[verifier::opaque]
    pub open spec fn far_root(&self, ray: &Ray) -> Fixed {
        let h = ray.direction.dot(&self.offset(ray));
        h.add(self.discriminant(ray).sqrt()).div(ray.direction.length_squared())
    }

    /// The parameter at which `ray` hits the sphere within `ray_t`: the
    /// smaller solution if `ray_t` surrounds it, else the larger one if
    /// `ray_t` surrounds that. A sphere of radius zero is never hit.
    pub open spec fn hit_parameter(&self, ray: &Ray, ray_t: Interval) -> Option<Fixed> {
        if self.radius@ <= 0 || self.discriminant(ray)@ < 0 {
            None
        } else if ray_t.surrounds(self.near_root(ray)) {
            Some(self.near_root(ray))
        } else if ray_t.surrounds(self.far_root(ray)) {
            Some(self.far_root(ray))
        } else {
            None
        }
    }

    /// The record of the hit at parameter `root`: the point on the ray, and
    /// the normal `(point - centre) / radius` turned against the ray.
    #[verifier::opaque]
    pub open spec fn record_at(&self, ray: &Ray, root: Fixed) -> HitRecord {
        let point = ray.at(root);
        let outward_normal = point.sub(self.center.at(ray.time)).div_scalar(self.radius);
        (HitRecord {
            point,
            normal: Vec3::zero(),
            t: root,
            front_face: false,
            material: self.material,
        }).spec_face_normal(ray, outward_normal)
    }
}

impl Sphere {
    /// The smaller solution is not above the larger one.
    pub proof fn lemma_roots_ordered(&self, ray: &Ray)
        ensures
            self.near_root(ray)@ <= self.far_root(ray)@,
    {
        reveal(Sphere::near_root);
        reveal(Sphere::far_root);
        let h = ray.direction.dot(&self.offset(ray));
        let sqrtd = self.discriminant(ray).sqrt();
        self.discriminant(ray).lemma_sqrt_bounds();
        ray.direction.lemma_length_squared_nonneg();
        h.lemma_sub_le_add(sqrtd);
        h.sub(sqrtd).lemma_div_monotone(h.add(sqrtd), ray.direction.length_squared());
    }

    /// The hit is at the smallest solution that lies strictly inside the
    /// range; there is none exactly when the sphere has no radius, the
    /// equation has no solution, or no solution lies strictly inside the
    /// range.
    pub proof fn lemma_smallest_root(&self, ray: &Ray, ray_t: Interval)
        ensures
            match self.hit_parameter(ray, ray_t) {
                Some(t) => {
                    &&& ray_t.surrounds(t)
                    &&& t == self.near_root(ray) || t == self.far_root(ray)
                    &&& ray_t.surrounds(self.near_root(ray)) ==> t@ <= self.near_root(ray)@
                    &&& ray_t.surrounds(self.far_root(ray)) ==> t@ <= self.far_root(ray)@
                },
                None => {
                    ||| self.radius@ <= 0
                    ||| self.discriminant(ray)@ < 0
                    ||| !ray_t.surrounds(self.near_root(ray)) && !ray_t.surrounds(
                        self.far_root(ray),
                    )
                },
            },
    {
        self.lemma_roots_ordered(ray);
    }

    /// A ray whose direction has no length hits nothing at a parameter above
    /// zero: the solutions are zero or stick at the bounds of the range.
    pub proof fn lemma_no_direction_no_hit(&self, ray: &Ray, ray_t: Interval)
        requires
            ray.direction.near_zero(),
            ray_t.min@ >= 0,
        ensures
            self.spec_hit(ray, ray_t) is None,
    {
        reveal(Sphere::near_root);
        reveal(Sphere::far_root);
        ray.direction.lemma_near_zero_is_no_length();
    }

    /// A hit lies strictly inside the range it was asked for, and its record
    /// holds the parameter at which the ray meets the sphere.
    pub proof fn lemma_hit_within(&self, ray: &Ray, ray_t: Interval)
        ensures
            self.spec_hit(ray, ray_t) matches Some(rec) ==> ray_t.surrounds(rec.t) && Some(rec.t)
                == self.hit_parameter(ray, ray_t) && rec.point == ray.at(rec.t) && rec.material
                == self.material,
    {
        reveal(Sphere::record_at);
    }

    /// The sphere moved by `shift`.
    pub open spec fn moved(&self, shift: Vec3) -> Sphere {
        Sphere { center: self.center.moved(shift), ..*self }
    }

    /// Hitting is covariant under translation: a sphere and a ray that are
    /// moved by the same vector meet at the same parameter, with the same
    /// normal and on the same side, at the point moved by that vector. This
    /// holds wherever the sums with `shift` are exact: those of the centre of
    /// the sphere (at time zero and at the time of the ray), of the origin
    /// of the ray and of the hit point.
    pub proof fn lemma_translation(&self, ray: &Ray, ray_t: Interval, shift: Vec3)
        requires
            self.center.origin.adds_exactly(&shift),
            self.center.origin.adds_exactly(&self.center.direction.scale(ray.time)),
            self.center.at(ray.time).adds_exactly(&shift),
            ray.origin.adds_exactly(&shift),
            self.spec_hit(ray, ray_t) matches Some(rec) ==> ray.origin.adds_exactly(
                &ray.direction.scale(rec.t),
            ) && rec.point.adds_exactly(&shift),
        ensures
            self.moved(shift).spec_hit(&ray.moved(shift), ray_t) == (match self.spec_hit(
                ray,
                ray_t,
            ) {
                Some(rec) => Some(HitRecord { point: rec.point.add(shift), ..rec }),
                None => None,
            }),
    {
        let there = self.moved(shift);
        let cast = ray.moved(shift);
        assert(there.center.at(cast.time) == self.center.at(ray.time).add(shift));
        assert(there.offset(&cast) == self.offset(ray));
        assert(there.discriminant(&cast) == self.discriminant(ray)) by {
            reveal(Sphere::discriminant);
        }
        assert(there.near_root(&cast) == self.near_root(ray)) by {
            reveal(Sphere::near_root);
        }
        assert(there.far_root(&cast) == self.far_root(ray)) by {
            reveal(Sphere::far_root);
        }
        assert(there.hit_parameter(&cast, ray_t) == self.hit_parameter(ray, ray_t));
        self.lemma_hit_within(ray, ray_t);
        match self.hit_parameter(ray, ray_t) {
            Some(root) => {
                reveal(Sphere::record_at);
                let point = ray.at(root);
                assert(cast.at(root) == point.add(shift));
                assert(there.outward_normal(&cast, root) == self.outward_normal(ray, root));
                assert(there.record_at(&cast, root) == (HitRecord {
                    point: point.add(shift),
                    ..self.record_at(ray, root)
                }));
            },
            None => {},
        }
    }

    /// Whether the sphere and the ray are of a size for which
    /// `lemma_inside_faces_back` holds, so that no step of the arithmetic
    /// leaves the range: the centre and the origin of the ray at most `2^11`
    /// from the origin in each component, the direction at most `2^13` in
    /// each component and at least one half long, the radius between `2^-8`
    /// and `2^12`, and the length of the direction times the radius at most
    /// `2^13`.
    pub open spec fn of_common_size(&self, ray: &Ray) -> bool {
        &&& self.center.at(ray.time).at_most(0x800 * SCALE)
        &&& ray.origin.at_most(0x800 * SCALE)
        &&& ray.direction.at_most(0x2000 * SCALE)
        &&& ray.direction.length_squared()@ >= SCALE / 4
        &&& 0x100_0000 <= self.radius@ <= 0x1000 * SCALE
        &&& ray.direction.length_squared()@ * self.radius.mul(self.radius)@ <= 0x3ff_ffff * SCALE
            * SCALE
    }

    /// Whether the origin of `ray` lies strictly inside the sphere, in exact
    /// arithmetic.
    pub open spec fn holds_origin(&self, ray: &Ray) -> bool {
        let c = self.center.at(ray.time);
        let o = ray.origin;
        (c.x@ - o.x@) * (c.x@ - o.x@) + (c.y@ - o.y@) * (c.y@ - o.y@) + (c.z@ - o.z@) * (c.z@
            - o.z@) < self.radius@ * self.radius@
    }

    /// The sum of the sizes of the components of the direction.
    pub open spec fn direction_size(ray: &Ray) -> int {
        magnitude(ray.direction.x@) + magnitude(ray.direction.y@) + magnitude(ray.direction.z@)
    }

    /// For a ray that starts inside the sphere, the products of the
    /// components of the direction and of the offset are at most `2^13` in
    /// size.
    pub proof fn lemma_inside_products(&self, ray: &Ray)
        requires
            self.of_common_size(ray),
            self.holds_origin(ray),
        ensures
            magnitude(ray.direction.x@ * self.offset(ray).x@) <= 0x2000 * SCALE * SCALE,
            magnitude(ray.direction.y@ * self.offset(ray).y@) <= 0x2000 * SCALE * SCALE,
            magnitude(ray.direction.z@ * self.offset(ray).z@) <= 0x2000 * SCALE * SCALE,
            self.offset(ray).at_most(0x1000 * SCALE),
    {
        let s = SCALE as int;
        let d = ray.direction;
        let oc = self.offset(ray);
        let r = self.radius;
        assert(oc.at_most(0x1000 * SCALE));
        d.lemma_length_squared_near();
        Vec3::lemma_square_near(r);
        let a = d.length_squared()@;
        let rr = r.mul(r)@;
        let p = (a + 1) * s;
        let q = (rr + 1) * s;
        let b = 0x2000 * s * s;
        assert(oc.x@ * oc.x@ >= 0 && oc.y@ * oc.y@ >= 0 && oc.z@ * oc.z@ >= 0)
            by (nonlinear_arith);
        assert((d.x.mul(d.x)@ + 1) * s <= p && (d.y.mul(d.y)@ + 1) * s <= p && (d.z.mul(d.z)@ + 1)
            * s <= p) by (nonlinear_arith)
            requires
                d.x.mul(d.x)@ <= a,
                d.y.mul(d.y)@ <= a,
                d.z.mul(d.z)@ <= a,
                p == (a + 1) * s,
                s > 0,
        ;
        assert(p * q <= b * b) by (nonlinear_arith)
            requires
                p == (a + 1) * s,
                q == (rr + 1) * s,
                b == 0x2000 * s * s,
                a * rr <= 0x3ff_ffff * s * s,
                0 <= a <= 0xc00_0000 * s,
                0 <= rr <= 0x400_0000 * s,
                s == 0x1_0000_0000,
        ;
        Vec3::lemma_product_bound(d.x@, oc.x@, p, q, b);
        Vec3::lemma_product_bound(d.y@, oc.y@, p, q, b);
        Vec3::lemma_product_bound(d.z@, oc.z@, p, q, b);
    }

    /// The solutions for a ray that starts inside the sphere: the smaller
    /// one lies under `2^-13`, and where the larger one lies above `2^-12`
    /// the root of the discriminant outweighs what the roundings can add up
    /// to.
    pub proof fn lemma_inside_roots(&self, ray: &Ray)
        requires
            self.of_common_size(ray),
            self.holds_origin(ray),
        ensures
            self.discriminant(ray)@ >= 0,
            self.near_root(ray)@ < 0x8_0000,
            ({
                let a = ray.direction.length_squared()@;
                let h = ray.direction.dot(&self.offset(ray))@;
                let sq = self.discriminant(ray).sqrt()@;
                let t = self.far_root(ray)@;
                let size = Sphere::direction_size(ray);
                let r = self.radius@;
                t > 0x10_0000 ==> {
                    &&& t * a > (h + sq) * SCALE - a
                    &&& t * a <= 0x1_0000 * SCALE * SCALE
                    &&& t <= 0x4_0000 * SCALE
                    &&& sq * (SCALE * SCALE) >= 3 * (SCALE * SCALE) + a * SCALE + size * SCALE
                        + size * r + 3 * (SCALE * r)
                }
            }),
    {
        reveal(Sphere::discriminant);
        reveal(Sphere::near_root);
        reveal(Sphere::far_root);
        let s = SCALE as int;
        let d = ray.direction;
        let oc = self.offset(ray);
        let r = self.radius;
        self.lemma_inside_products(ray);
        d.lemma_length_squared_near();
        oc.lemma_length_squared_near();
        assert(0x2000 * s * s <= 0x1000_0000 * s * s) by (nonlinear_arith)
            requires
                s > 0,
        ;
        d.lemma_dot_near(&oc);
        Vec3::lemma_product_near(d.x, oc.x);
        Vec3::lemma_product_near(d.y, oc.y);
        Vec3::lemma_product_near(d.z, oc.z);
        Vec3::lemma_square_near(r);
        let a = d.length_squared();
        let h = d.dot(&oc);
        let lo = oc.length_squared();
        let rr = r.mul(r);
        // the origin lies inside: the constant term is not above zero
        assert(lo@ * s == oc.x.mul(oc.x)@ * s + oc.y.mul(oc.y)@ * s + oc.z.mul(oc.z)@ * s)
            by (nonlinear_arith)
            requires
                lo@ == oc.x.mul(oc.x)@ + oc.y.mul(oc.y)@ + oc.z.mul(oc.z)@,
        ;
        assert(lo@ * s < (rr@ + 1) * s);
        assert(lo@ <= rr@) by (nonlinear_arith)
            requires
                lo@ * s < (rr@ + 1) * s,
                s > 0,
        ;
        let c = lo.sub(rr);
        assert(-rr@ <= c@ <= 0);
        // the size of the inner product
        assert(magnitude(d.x.mul(oc.x)@) <= 0x2000 * s && magnitude(d.y.mul(oc.y)@) <= 0x2000 * s
            && magnitude(d.z.mul(oc.z)@) <= 0x2000 * s) by (nonlinear_arith)
            requires
                magnitude(d.x.mul(oc.x)@) * s <= 0x2000 * s * s,
                magnitude(d.y.mul(oc.y)@) * s <= 0x2000 * s * s,
                magnitude(d.z.mul(oc.z)@) * s <= 0x2000 * s * s,
                s == 0x1_0000_0000,
        ;
        assert(-0x6000 * SCALE <= h@ <= 0x6000 * SCALE);
        // the discriminant
        assert(magnitude(h@ * h@) <= 0x2400_0000 * s * s && h@ * h@ >= 0) by (nonlinear_arith)
            requires
                -0x6000 * s <= h@ <= 0x6000 * s,
                s == 0x1_0000_0000,
        ;
        assert(0x2400_0000 * s * s <= RAW_MAX * SCALE) by (nonlinear_arith)
            requires
                s == 0x1_0000_0000,
                RAW_MAX == 0x7fff_ffff_ffff_ffff,
        ;
        h.lemma_mul_near(h);
        let hh = h.mul(h);
        assert(0 <= hh@ <= 0x2400_0000 * SCALE) by (nonlinear_arith)
            requires
                0 <= hh@,
                hh@ * s <= h@ * h@,
                h@ * h@ <= 0x2400_0000 * s * s,
                s == 0x1_0000_0000,
        ;
        assert(magnitude(a@ * c@) <= 0x3ff_ffff * s * s && a@ * c@ <= 0) by (nonlinear_arith)
            requires
                0 <= a@,
                -rr@ <= c@ <= 0,
                a@ * rr@ <= 0x3ff_ffff * s * s,
        ;
        assert(0x3ff_ffff * s * s <= RAW_MAX * SCALE) by (nonlinear_arith)
            requires
                s == 0x1_0000_0000,
                RAW_MAX == 0x7fff_ffff_ffff_ffff,
        ;
        a.lemma_mul_near(c);
        let ac = a.mul(c);
        assert(-0x3ff_ffff * SCALE <= ac@ <= 0) by (nonlinear_arith)
            requires
                ac@ <= 0,
                magnitude(ac@) * s <= 0x3ff_ffff * s * s,
                s == 0x1_0000_0000,
        ;
        let disc = hh.sub(ac);
        assert(hh@ <= disc@ <= 0x5400_0000 * SCALE);
        // its root
        disc.lemma_sqrt_bounds();
        let sq = disc.sqrt();
        assert(sq@ * sq@ <= disc@ * s < (sq@ + 1) * (sq@ + 1)) by {
            if disc@ == 0 {
                assert(sq@ * sq@ == 0 && (sq@ + 1) * (sq@ + 1) == 1) by (nonlinear_arith)
                    requires
                        sq@ == 0,
                ;
            }
        }
        assert(sq@ <= 0xa000 * s) by (nonlinear_arith)
            requires
                0 <= sq@,
                sq@ * sq@ <= disc@ * s,
                disc@ <= 0x5400_0000 * s,
                s == 0x1_0000_0000,
        ;
        assert(h@ - sq@ < 0x2_0000) by (nonlinear_arith)
            requires
                0 <= sq@,
                h@ * h@ < hh@ * s + s,
                hh@ <= disc@,
                disc@ * s < (sq@ + 1) * (sq@ + 1),
                s == 0x1_0000_0000,
        ;
        // the smaller solution
        let low = h.sub(sq);
        assert(magnitude(low@) * SCALE <= RAW_MAX * a@ && 0x2_0000 * s <= 0x8_0000 * a@)
            by (nonlinear_arith)
            requires
                magnitude(low@) <= 0x2_0000 * s,
                a@ >= s / 4,
                s == 0x1_0000_0000,
                RAW_MAX == 0x7fff_ffff_ffff_ffff,
        ;
        low.lemma_div_near(a);
        let near = low.div(a);
        assert(near@ < 0x8_0000) by (nonlinear_arith)
            requires
                low@ >= 0 ==> near@ * a@ <= low@ * s,
                low@ <= 0 ==> near@ <= 0,
                low@ < 0x2_0000,
                0x2_0000 * s <= 0x8_0000 * a@,
                a@ > 0,
                s > 0,
        ;
        // the larger solution
        let high = h.add(sq);
        assert(magnitude(high@) * SCALE <= RAW_MAX * a@) by (nonlinear_arith)
            requires
                magnitude(high@) <= 0x2_0000 * s,
                a@ >= s / 4,
                s == 0x1_0000_0000,
                RAW_MAX == 0x7fff_ffff_ffff_ffff,
        ;
        high.lemma_div_near(a);
        let far = high.div(a);
        if far@ > 0x10_0000 {
            assert(high@ > 0);
            assert(far@ <= 0x4_0000 * s && far@ * a@ <= 0x1_0000 * s * s) by (nonlinear_arith)
                requires
                    far@ * a@ <= high@ * s,
                    0 < high@ <= 0x1_0000 * s,
                    a@ >= s / 4,
                    far@ >= 0,
                    s == 0x1_0000_0000,
            ;
            // twice the root is more than the sum of the solutions' terms
            assert(high@ * s > 0x10_0000 * a@) by (nonlinear_arith)
                requires
                    far@ * a@ <= high@ * s,
                    far@ > 0x10_0000,
                    a@ > 0,
            ;
            assert(2 * sq@ > high@ - 0x2_0000);
            assert(2 * (sq@ * s) > 0x8_0000 * a@) by (nonlinear_arith)
                requires
                    2 * sq@ > high@ - 0x2_0000,
                    high@ * s > 0x10_0000 * a@,
                    a@ >= s / 4,
                    s == 0x1_0000_0000,
            ;
            // what the roundings can add up to
            let size = Sphere::direction_size(ray);
            let squares = d.x@ * d.x@ + d.y@ * d.y@ + d.z@ * d.z@;
            assert(magnitude(d.x@) * s <= d.x@ * d.x@ + 0x4000_0000_0000_0000 && magnitude(d.y@)
                * s <= d.y@ * d.y@ + 0x4000_0000_0000_0000 && magnitude(d.z@) * s <= d.z@ * d.z@
                + 0x4000_0000_0000_0000) by (nonlinear_arith)
                requires
                    s == 0x1_0000_0000,
            ;
            assert(size * s == magnitude(d.x@) * s + magnitude(d.y@) * s + magnitude(d.z@) * s)
                by (nonlinear_arith)
                requires
                    size == magnitude(d.x@) + magnitude(d.y@) + magnitude(d.z@),
            ;
            assert(squares < (a@ + 3) * s) by (nonlinear_arith)
                requires
                    squares == d.x@ * d.x@ + d.y@ * d.y@ + d.z@ * d.z@,
                    d.x@ * d.x@ < (d.x.mul(d.x)@ + 1) * s,
                    d.y@ * d.y@ < (d.y.mul(d.y)@ + 1) * s,
                    d.z@ * d.z@ < (d.z.mul(d.z)@ + 1) * s,
                    a@ == d.x.mul(d.x)@ + d.y.mul(d.y)@ + d.z.mul(d.z)@,
            ;
            assert(size <= 5 * a@) by (nonlinear_arith)
                requires
                    size * s <= squares + 0xc000_0000_0000_0000,
                    squares < (a@ + 3) * s,
                    a@ >= s / 4,
                    s == 0x1_0000_0000,
            ;
            let ss = s * s;
            let sr = s * r@;
            let bound = 3 * ss + a@ * s + size * s + size * r@ + 3 * sr;
            assert(bound <= 0x2_0000 * (a@ * s)) by (nonlinear_arith)
                requires
                    bound == 3 * ss + a@ * s + size * s + size * r@ + 3 * sr,
                    ss == s * s,
                    sr == s * r@,
                    0 <= size <= 5 * a@,
                    0 < r@ <= 0x1000 * s,
                    a@ >= s / 4,
                    s == 0x1_0000_0000,
            ;
            assert(sq@ * ss >= 0x4_0000 * (a@ * s)) by (nonlinear_arith)
                requires
                    2 * (sq@ * s) > 0x8_0000 * a@,
                    ss == s * s,
                    s == 0x1_0000_0000,
            ;
            assert(0x4_0000 * (a@ * s) >= 0x2_0000 * (a@ * s)) by (nonlinear_arith)
                requires
                    a@ >= 0,
                    s > 0,
            ;
        }
    }

    /// A ray that starts inside the sphere runs along the outward normal
    /// where it leaves: at the larger solution, where that lies above
    /// `2^-12`, the inner product of the direction with the outward normal
    /// is above zero.
    pub proof fn lemma_exit_normal(&self, ray: &Ray)
        requires
            self.of_common_size(ray),
            self.holds_origin(ray),
            self.far_root(ray)@ > 0x10_0000,
        ensures
            ray.direction.dot(&self.outward_normal(ray, self.far_root(ray)))@ > 0,
            self.outward_normal(ray, self.far_root(ray)).proper(),
    {
        self.lemma_inside_roots(ray);
        self.lemma_inside_products(ray);
        let s = SCALE as int;
        let d = ray.direction;
        let oc = self.offset(ray);
        let r = self.radius;
        let a = d.length_squared();
        let h = d.dot(&oc);
        let sq = self.discriminant(ray).sqrt();
        let t = self.far_root(ray);
        d.lemma_length_squared_near();
        assert(0x2000 * s * s <= 0x1000_0000 * s * s) by (nonlinear_arith)
            requires
                s > 0,
        ;
        d.lemma_dot_near(&oc);
        assert(a@ * s == d.x.mul(d.x)@ * s + d.y.mul(d.y)@ * s + d.z.mul(d.z)@ * s)
            by (nonlinear_arith)
            requires
                a@ == d.x.mul(d.x)@ + d.y.mul(d.y)@ + d.z.mul(d.z)@,
        ;
        assert(h@ * s == d.x.mul(oc.x)@ * s + d.y.mul(oc.y)@ * s + d.z.mul(oc.z)@ * s)
            by (nonlinear_arith)
            requires
                h@ == d.x.mul(oc.x)@ + d.y.mul(oc.y)@ + d.z.mul(oc.z)@,
        ;
        // the step along the ray
        Sphere::lemma_step_size(t, d.x, a@, d.x.mul(d.x)@);
        Sphere::lemma_step_size(t, d.y, a@, d.y.mul(d.y)@);
        Sphere::lemma_step_size(t, d.z, a@, d.z.mul(d.z)@);
        let m = d.scale(t);
        // from the centre to the hit point
        let g = ray.at(t).sub(self.center.at(ray.time));
        assert(g.x@ == m.x@ - oc.x@ && g.y@ == m.y@ - oc.y@ && g.z@ == m.z@ - oc.z@);
        assert(magnitude(g.x@) * SCALE <= RAW_MAX * r@ && magnitude(g.y@) * SCALE <= RAW_MAX * r@
            && magnitude(g.z@) * SCALE <= RAW_MAX * r@) by (nonlinear_arith)
            requires
                g.at_most(0x10_0000 * s),
                r@ >= 0x100_0000,
                s == 0x1_0000_0000,
                RAW_MAX == 0x7fff_ffff_ffff_ffff,
        ;
        g.x.lemma_div_near(r);
        g.y.lemma_div_near(r);
        g.z.lemma_div_near(r);
        let out = self.outward_normal(ray, t);
        assert(out == g.div_scalar(r));
        Sphere::lemma_normal_size(g.x, r);
        Sphere::lemma_normal_size(g.y, r);
        Sphere::lemma_normal_size(g.z, r);
        // the direction times the outward normal
        Sphere::lemma_normal_product(d.x, m.x, oc.x, out.x, r);
        Sphere::lemma_normal_product(d.y, m.y, oc.y, out.y, r);
        Sphere::lemma_normal_product(d.z, m.z, oc.z, out.z, r);
        d.lemma_dot_near(&out);
        lemma_exit_side(
            (d.x@, d.y@, d.z@),
            (oc.x@, oc.y@, oc.z@),
            r@,
            a@,
            h@,
            sq@,
            t@,
            (m.x@, m.y@, m.z@),
            (out.x@, out.y@, out.z@),
            (d.x.mul(out.x)@, d.y.mul(out.y)@, d.z.mul(out.z)@),
        );
    }

    /// The step `t d` along a ray, for a component `d` of the direction
    /// whose square is `q` as computed, one of the three that add up to `a`:
    /// it is within one step of the exact product and at most `2^18` in
    /// size, and `d` times the step is at most `2^18` in size.
    pub proof fn lemma_step_size(t: Fixed, d: Fixed, a: int, q: int)
        requires
            0 <= t@ <= 0x4_0000 * SCALE,
            t@ * a <= 0x1_0000 * SCALE * SCALE,
            -0x2000 * SCALE <= d@ <= 0x2000 * SCALE,
            d@ * d@ < (q + 1) * SCALE,
            0 <= q <= a,
        ensures
            t@ * d@ - SCALE < t.mul(d)@ * SCALE < t@ * d@ + SCALE,
            -0x4_0000 * SCALE <= t.mul(d)@ <= 0x4_0000 * SCALE,
            magnitude(d@ * t.mul(d)@) <= 0x4_0000 * SCALE * SCALE,
    {
        let s = SCALE as int;
        let x = magnitude(d@);
        let n = magnitude(t@ * d@);
        assert(n == t@ * x && x * x == d@ * d@) by (nonlinear_arith)
            requires
                n == magnitude(t@ * d@),
                x == magnitude(d@),
                t@ >= 0,
        ;
        // t times d squared
        assert(t@ * (x * x) <= 0x2_0000 * s * s * s) by (nonlinear_arith)
            requires
                x * x < (q + 1) * s,
                0 <= q <= a,
                0 <= t@ <= 0x4_0000 * s,
                t@ * a <= 0x1_0000 * s * s,
                s == 0x1_0000_0000,
        ;
        if x <= s {
            assert(n <= 0x4_0000 * s * s) by (nonlinear_arith)
                requires
                    n == t@ * x,
                    0 <= x <= s,
                    0 <= t@ <= 0x4_0000 * s,
                    s > 0,
            ;
        } else {
            assert(n * s <= t@ * (x * x)) by (nonlinear_arith)
                requires
                    n == t@ * x,
                    x > s,
                    t@ >= 0,
                    s > 0,
            ;
            assert(n <= 0x2_0000 * s * s) by (nonlinear_arith)
                requires
                    n * s <= 0x2_0000 * s * s * s,
                    s == 0x1_0000_0000,
            ;
        }
        assert(0x4_0000 * s * s <= RAW_MAX * SCALE) by (nonlinear_arith)
            requires
                s == 0x1_0000_0000,
                RAW_MAX == 0x7fff_ffff_ffff_ffff,
        ;
        t.lemma_mul_near(d);
        let m = t.mul(d)@;
        assert(magnitude(m) <= 0x4_0000 * s) by (nonlinear_arith)
            requires
                magnitude(m) * s <= n,
                n <= 0x4_0000 * s * s,
                s == 0x1_0000_0000,
        ;
        // d times the step
        assert(magnitude(d@ * m) * s <= t@ * (x * x)) by (nonlinear_arith)
            requires
                magnitude(m) * s <= n,
                n == t@ * x,
                x == magnitude(d@),
                t@ >= 0,
        ;
        assert(magnitude(d@ * m) <= 0x2_0000 * s * s) by (nonlinear_arith)
            requires
                magnitude(d@ * m) * s <= 0x2_0000 * s * s * s,
                s == 0x1_0000_0000,
        ;
    }

    /// The product of a component `d` of the direction with the component
    /// `u` of the outward normal, where `u` is `(m - o) / r` as computed: it
    /// is at most `2^28` in size.
    pub proof fn lemma_normal_product(d: Fixed, m: Fixed, o: Fixed, u: Fixed, r: Fixed)
        requires
            -0x2000 * SCALE <= d@ <= 0x2000 * SCALE,
            magnitude(d@ * m@) <= 0x4_0000 * SCALE * SCALE,
            magnitude(d@ * o@) <= 0x2000 * SCALE * SCALE,
            r@ >= 0x100_0000,
            (m@ - o@) * SCALE - r@ < u@ * r@ < (m@ - o@) * SCALE + r@,
        ensures
            magnitude(d@ * u@) <= 0x1000_0000 * SCALE * SCALE,
    {
        let s = SCALE as int;
        let g = m@ - o@;
        let x = magnitude(d@ * u@);
        assert(magnitude(d@ * g) <= 0x8_0000 * s * s) by (nonlinear_arith)
            requires
                g == m@ - o@,
                magnitude(d@ * m@) <= 0x4_0000 * s * s,
                magnitude(d@ * o@) <= 0x2000 * s * s,
                s > 0,
        ;
        crate::fixed::lemma_scaled_near(d@, u@ * r@, g * s, r@);
        assert(d@ * (u@ * r@) == (d@ * u@) * r@ && d@ * (g * s) == (d@ * g) * s)
            by (nonlinear_arith);
        assert(x * r@ <= magnitude(d@ * g) * s + magnitude(d@) * r@) by (nonlinear_arith)
            requires
                x == magnitude(d@ * u@),
                (d@ * g) * s - magnitude(d@) * r@ <= (d@ * u@) * r@ <= (d@ * g) * s + magnitude(
                    d@,
                ) * r@,
                r@ > 0,
                s > 0,
        ;
        assert(x <= 0x1000_0000 * s * s) by (nonlinear_arith)
            requires
                x * r@ <= magnitude(d@ * g) * s + magnitude(d@) * r@,
                magnitude(d@ * g) <= 0x8_0000 * s * s,
                magnitude(d@) <= 0x2000 * s,
                r@ >= 0x100_0000,
                x >= 0,
                s == 0x1_0000_0000,
        ;
    }

    /// A vector of at most `2^20` in size divided by a radius of at least
    /// `2^-8` is at most `2^28` in size.
    pub proof fn lemma_normal_size(g: Fixed, r: Fixed)
        requires
            -0x10_0000 * SCALE <= g@ <= 0x10_0000 * SCALE,
            r@ >= 0x100_0000,
        ensures
            -0x1000_0000 * SCALE <= g.div(r)@ <= 0x1000_0000 * SCALE,
    {
        let s = SCALE as int;
        assert(magnitude(g@) * SCALE <= RAW_MAX * r@) by (nonlinear_arith)
            requires
                -0x10_0000 * s <= g@ <= 0x10_0000 * s,
                r@ >= 0x100_0000,
                s == 0x1_0000_0000,
                RAW_MAX == 0x7fff_ffff_ffff_ffff,
        ;
        g.lemma_div_near(r);
        let u = g.div(r)@;
        assert(-0x1000_0000 * s <= u <= 0x1000_0000 * s) by (nonlinear_arith)
            requires
                g@ >= 0 ==> 0 <= u && u * r@ <= g@ * s,
                g@ <= 0 ==> u <= 0 && u * r@ >= g@ * s,
                -0x10_0000 * s <= g@ <= 0x10_0000 * s,
                r@ >= 0x100_0000,
                s == 0x1_0000_0000,
        ;
    }

    /// A ray that starts inside the sphere hits it from inside. Where the
    /// sphere and the ray are of common size, the origin of the ray lies
    /// strictly inside the sphere, the range starts at `2^-12` or above and
    /// surrounds the larger solution, the ray hits the sphere at the larger
    /// solution, the hit does not face the front, and the stored normal is
    /// the negated outward normal, against which the ray runs.
    pub proof fn lemma_inside_faces_back(&self, ray: &Ray, ray_t: Interval)
        requires
            self.of_common_size(ray),
            self.holds_origin(ray),
            ray_t.min@ >= 0x10_0000,
            ray_t.surrounds(self.far_root(ray)),
        ensures
            self.spec_hit(ray, ray_t) matches Some(rec) && {
                &&& rec.t == self.far_root(ray)
                &&& !rec.front_face
                &&& rec.normal == self.outward_normal(ray, rec.t).neg()
                &&& ray.direction.dot(&rec.normal)@ < 0
            },
    {
        self.lemma_inside_roots(ray);
        self.lemma_exit_normal(ray);
        reveal(Sphere::record_at);
        let outward = self.outward_normal(ray, self.far_root(ray));
        ray.direction.lemma_dot_neg(&outward);
    }

    /// The outward normal of the sphere at the point where `ray` meets it at
    /// parameter `root`: `(point - centre) / radius`.
    pub open spec fn outward_normal(&self, ray: &Ray, root: Fixed) -> Vec3 {
        ray.at(root).sub(self.center.at(ray.time)).div_scalar(self.radius)
    }

    /// The record of a hit is turned against the ray: the ray comes from
    /// outside exactly when it runs against the outward normal, the stored
    /// normal is the outward one or its negation, and the ray does not run
    /// along the stored normal.
    pub proof fn lemma_hit_orientation(&self, ray: &Ray, ray_t: Interval)
        ensures
            self.spec_hit(ray, ray_t) matches Some(rec) ==> {
                let outward = self.outward_normal(ray, rec.t);
                &&& rec.front_face == (ray.direction.dot(&outward)@ < 0)
                &&& rec.normal == (if rec.front_face {
                    outward
                } else {
                    outward.neg()
                })
                &&& ray.direction.dot(&rec.normal)@ <= 0
            },
    {
        reveal(Sphere::record_at);
        match self.hit_parameter(ray, ray_t) {
            Some(root) => {
                let outward = self.outward_normal(ray, root);
                ray.direction.lemma_dot_neg(&outward);
            },
            None => {},
        }
    }

    /// Lowering the upper bound of the range keeps a hit that lies under the
    /// new bound as it is, and loses any other.
    pub proof fn lemma_narrowing(&self, ray: &Ray, ray_t: Interval, bound: Fixed)
        requires
            bound@ <= ray_t.max@,
        ensures
            self.spec_hit(ray, Interval { min: ray_t.min, max: bound }) == (match self.spec_hit(
                ray,
                ray_t,
            ) {
                Some(rec) => if rec.t@ < bound@ {
                    Some(rec)
                } else {
                    None
                },
                None => None,
            }),
    {
        self.lemma_roots_ordered(ray);
        self.lemma_hit_within(ray, ray_t);
        self.lemma_hit_within(ray, Interval { min: ray_t.min, max: bound });
    }
}

impl Hittable for Sphere {
    open spec fn spec_hit(&self, ray: &Ray, ray_t: Interval) -> Option<HitRecord> {
        match self.hit_parameter(ray, ray_t) {
            Some(root) => Some(self.record_at(ray, root)),
            None => None,
        }
    }

    fn hit(&self, ray: &Ray, ray_t: Interval) -> (r: Option<HitRecord>) {
        proof {
            reveal(Sphere::discriminant);
            reveal(Sphere::near_root);
            reveal(Sphere::far_root);
            reveal(Sphere::record_at);
        }
        if self.radius.raw <= 0 {
            return None;
        }
        let current_center = self.center.at(ray.time);
        let oc = current_center.sub(ray.origin);
        let a = ray.direction.length_squared();
        let h = ray.direction.dot(&oc);
        let c = oc.length_squared().sub(self.radius.mul(self.radius));
        let discriminant = h.mul(h).sub(a.mul(c));
        if discriminant.raw < 0 {
            return None;
        }
        let sqrtd = discriminant.sqrt();
        // the nearest root that lies in the acceptable range
        let mut root = h.sub(sqrtd).div(a);
        if !ray_t.surrounds(root) {
            root = h.add(sqrtd).div(a);
            if !ray_t.surrounds(root) {
                return None;
            }
        }
        let mut hr = HitRecord {
            point: ray.at(root),
            normal: Vec3::zero(),
            t: root,
            front_face: false,
            material: self.material,
        };
        let outward_normal = hr.point.sub(current_center).div_scalar(self.radius);
        hr.set_face_normal(ray, outward_normal);
        Some(hr)
    }
}

} // verus!
