//! Three-component vectors, used as points, directions and colours.

use crate::aabb::Axis;
use crate::interval::Interval;
use crate::fixed::{
    fixed_text, lemma_quotient_of_long_component, lemma_square_bounds, lemma_square_of_fraction,
    lemma_unit_square_sum, magnitude, Fixed, RAW_MAX, RAW_MIN, SCALE,
};
use crate::rng::raw_between;
use vstd::prelude::*;

verus! {

/// A colour is a vector of its red, green and blue parts.
pub type Color = Vec3;

/// Raw bound under which a component counts as zero: `2^-16`, under which
/// the square of a number rounds to zero.
pub const NEAR_ZERO_RAW: i64 = 0x1_0000;

/// Raw bound that the squared length of a sample has to exceed before the
/// sample is scaled to unit length: `2^-10`.
pub const UNIT_EPSILON_RAW: i64 = 0x40_0000;

/// Raw bound on how far the squared length of a direction that
/// `random_unit_vector` returns lies from one: `2^-20`.
pub const UNIT_TOLERANCE_RAW: i64 = 0x1000;

/// Number of samples that `random_unit_vector` and `random_in_unit_disk`
/// draw at most.
pub const MAX_ATTEMPTS: u32 = 128;

#[derive(Clone, Copy, Debug, PartialEq, Eq, Structural)]
pub struct Vec3 {
    pub x: Fixed,
    pub y: Fixed,
    pub z: Fixed,
}

impl Vec3 {
    pub open spec fn spec_new(x: Fixed, y: Fixed, z: Fixed) -> Vec3 {
        Vec3 { x, y, z }
    }

    #[verifier::when_used_as_spec(spec_new)]
    pub fn new(x: Fixed, y: Fixed, z: Fixed) -> (r: Vec3)
        ensures
            r == Vec3::spec_new(x, y, z),
    {
        Vec3 { x, y, z }
    }

    pub open spec fn spec_splat(val: Fixed) -> Vec3 {
        Vec3 { x: val, y: val, z: val }
    }

    /// The vector whose three components are `val`.
    #[verifier::when_used_as_spec(spec_splat)]
    pub fn splat(val: Fixed) -> (r: Vec3)
        ensures
            r == Vec3::spec_splat(val),
    {
        Vec3 { x: val, y: val, z: val }
    }

    pub open spec fn spec_zero() -> Vec3 {
        Vec3::splat(Fixed::zero())
    }

    /// The zero vector; as a colour, black.
    #[verifier::when_used_as_spec(spec_zero)]
    pub fn zero() -> (r: Vec3)
        ensures
            r == Vec3::spec_zero(),
    {
        Vec3::splat(Fixed::zero())
    }

    pub open spec fn spec_one() -> Vec3 {
        Vec3::splat(Fixed::one())
    }

    /// The vector of ones; as a colour, white.
    #[verifier::when_used_as_spec(spec_one)]
    pub fn one() -> (r: Vec3)
        ensures
            r == Vec3::spec_one(),
    {
        Vec3::splat(Fixed::one())
    }

    /// The three components written out in base ten, with a blank between
    /// them: `x y z`.
    pub fn to_text(&self) -> (r: String)
        ensures
            r@ == fixed_text(self.x@) + seq![' '] + fixed_text(self.y@) + seq![' '] + fixed_text(
                self.z@,
            ),
    {
        proof {
            reveal_strlit(" ");
        }
        let mut text = self.x.to_text();
        text.append(" ");
        let y = self.y.to_text();
        text.append(y.as_str());
        text.append(" ");
        let z = self.z.to_text();
        text.append(z.as_str());
        assert(text@ =~= fixed_text(self.x@) + seq![' '] + fixed_text(self.y@) + seq![' ']
            + fixed_text(self.z@));
        text
    }

    pub open spec fn spec_get_axis(&self, axis: Axis) -> Fixed {
        match axis {
            Axis::X => self.x,
            Axis::Y => self.y,
            Axis::Z => self.z,
        }
    }

    /// The component along `axis`.
    #[verifier::when_used_as_spec(spec_get_axis)]
    pub fn get_axis(&self, axis: Axis) -> (r: Fixed)
        ensures
            r == self.spec_get_axis(axis),
    {
        match axis {
            Axis::X => self.x,
            Axis::Y => self.y,
            Axis::Z => self.z,
        }
    }

    pub open spec fn spec_neg(self) -> Vec3 {
        Vec3 { x: self.x.neg(), y: self.y.neg(), z: self.z.neg() }
    }

    #[verifier::when_used_as_spec(spec_neg)]
    pub fn neg(self) -> (r: Vec3)
        ensures
            r == self.spec_neg(),
    {
        Vec3 { x: self.x.neg(), y: self.y.neg(), z: self.z.neg() }
    }

    pub open spec fn spec_add(self, rhs: Vec3) -> Vec3 {
        Vec3 { x: self.x.add(rhs.x), y: self.y.add(rhs.y), z: self.z.add(rhs.z) }
    }

    #[verifier::when_used_as_spec(spec_add)]
    pub fn add(self, rhs: Vec3) -> (r: Vec3)
        ensures
            r == self.spec_add(rhs),
    {
        Vec3 { x: self.x.add(rhs.x), y: self.y.add(rhs.y), z: self.z.add(rhs.z) }
    }

    /// `self += rhs`.
    pub fn add_assign(&mut self, rhs: Vec3)
        ensures
            *final(self) == old(self).spec_add(rhs),
    {
        self.x = self.x.add(rhs.x);
        self.y = self.y.add(rhs.y);
        self.z = self.z.add(rhs.z);
    }

    pub open spec fn spec_sub(self, rhs: Vec3) -> Vec3 {
        Vec3 { x: self.x.sub(rhs.x), y: self.y.sub(rhs.y), z: self.z.sub(rhs.z) }
    }

    #[verifier::when_used_as_spec(spec_sub)]
    pub fn sub(self, rhs: Vec3) -> (r: Vec3)
        ensures
            r == self.spec_sub(rhs),
    {
        Vec3 { x: self.x.sub(rhs.x), y: self.y.sub(rhs.y), z: self.z.sub(rhs.z) }
    }

    pub open spec fn spec_mul(self, rhs: Vec3) -> Vec3 {
        Vec3 { x: self.x.mul(rhs.x), y: self.y.mul(rhs.y), z: self.z.mul(rhs.z) }
    }

    /// Component by component product.
    #[verifier::when_used_as_spec(spec_mul)]
    pub fn mul(self, rhs: Vec3) -> (r: Vec3)
        ensures
            r == self.spec_mul(rhs),
    {
        Vec3 { x: self.x.mul(rhs.x), y: self.y.mul(rhs.y), z: self.z.mul(rhs.z) }
    }

    pub open spec fn spec_div(self, rhs: Vec3) -> Vec3 {
        Vec3 { x: self.x.div(rhs.x), y: self.y.div(rhs.y), z: self.z.div(rhs.z) }
    }

    /// Component by component quotient.
    #[verifier::when_used_as_spec(spec_div)]
    pub fn div(self, rhs: Vec3) -> (r: Vec3)
        ensures
            r == self.spec_div(rhs),
    {
        Vec3 { x: self.x.div(rhs.x), y: self.y.div(rhs.y), z: self.z.div(rhs.z) }
    }

    pub open spec fn spec_scale(self, k: Fixed) -> Vec3 {
        Vec3 { x: k.mul(self.x), y: k.mul(self.y), z: k.mul(self.z) }
    }

    /// The vector times the number `k`.
    #[verifier::when_used_as_spec(spec_scale)]
    pub fn scale(self, k: Fixed) -> (r: Vec3)
        ensures
            r == self.spec_scale(k),
    {
        Vec3 { x: k.mul(self.x), y: k.mul(self.y), z: k.mul(self.z) }
    }

    /// `self *= k`.
    pub fn mul_assign(&mut self, k: Fixed)
        ensures
            *final(self) == (Vec3 {
                x: old(self).x.mul(k),
                y: old(self).y.mul(k),
                z: old(self).z.mul(k),
            }),
    {
        self.x = self.x.mul(k);
        self.y = self.y.mul(k);
        self.z = self.z.mul(k);
    }

    pub open spec fn spec_div_scalar(self, k: Fixed) -> Vec3 {
        Vec3 { x: self.x.div(k), y: self.y.div(k), z: self.z.div(k) }
    }

    /// The vector divided by the number `k`.
    #[verifier::when_used_as_spec(spec_div_scalar)]
    pub fn div_scalar(self, k: Fixed) -> (r: Vec3)
        ensures
            r == self.spec_div_scalar(k),
    {
        Vec3 { x: self.x.div(k), y: self.y.div(k), z: self.z.div(k) }
    }

    pub open spec fn spec_dot(&self, rhs: &Vec3) -> Fixed {
        self.x.mul(rhs.x).add(self.y.mul(rhs.y)).add(self.z.mul(rhs.z))
    }

    /// Inner product: `x * x' + y * y' + z * z'`.
    #[verifier::when_used_as_spec(spec_dot)]
    pub fn dot(&self, rhs: &Vec3) -> (r: Fixed)
        ensures
            r == self.spec_dot(rhs),
    {
        self.x.mul(rhs.x).add(self.y.mul(rhs.y)).add(self.z.mul(rhs.z))
    }

    pub open spec fn spec_cross(&self, rhs: &Vec3) -> Vec3 {
        Vec3 {
            x: self.y.mul(rhs.z).sub(self.z.mul(rhs.y)),
            y: self.z.mul(rhs.x).sub(self.x.mul(rhs.z)),
            z: self.x.mul(rhs.y).sub(self.y.mul(rhs.x)),
        }
    }

    /// Vector product.
    #[verifier::when_used_as_spec(spec_cross)]
    pub fn cross(&self, rhs: &Vec3) -> (r: Vec3)
        ensures
            r == self.spec_cross(rhs),
    {
        Vec3 {
            x: self.y.mul(rhs.z).sub(self.z.mul(rhs.y)),
            y: self.z.mul(rhs.x).sub(self.x.mul(rhs.z)),
            z: self.x.mul(rhs.y).sub(self.y.mul(rhs.x)),
        }
    }

    pub open spec fn spec_length_squared(&self) -> Fixed {
        self.dot(self)
    }

    #[verifier::when_used_as_spec(spec_length_squared)]
    pub fn length_squared(&self) -> (r: Fixed)
        ensures
            r == self.spec_length_squared(),
    {
        self.dot(self)
    }

    /// Whether the sum with `rhs` is exact: no component leaves the range.
    pub open spec fn adds_exactly(&self, rhs: &Vec3) -> bool {
        &&& RAW_MIN <= self.x@ + rhs.x@ <= RAW_MAX
        &&& RAW_MIN <= self.y@ + rhs.y@ <= RAW_MAX
        &&& RAW_MIN <= self.z@ + rhs.z@ <= RAW_MAX
    }

    /// Whether each component lies in the range that the arithmetic yields.
    pub open spec fn proper(&self) -> bool {
        self.x.proper() && self.y.proper() && self.z.proper()
    }

    /// Whether every component is at most `bound` in size.
    pub open spec fn at_most(&self, bound: int) -> bool {
        &&& -bound <= self.x@ <= bound
        &&& -bound <= self.y@ <= bound
        &&& -bound <= self.z@ <= bound
    }

    /// The squared length of a vector of at most `2^13` in each component:
    /// it is the plain sum of the three squares, and each square is the
    /// exact one divided by the scale and rounded down.
    pub proof fn lemma_length_squared_near(&self)
        requires
            self.at_most(0x2000 * SCALE),
        ensures
            self.length_squared()@ == self.x.mul(self.x)@ + self.y.mul(self.y)@ + self.z.mul(
                self.z,
            )@,
            0 <= self.x.mul(self.x)@ * SCALE <= self.x@ * self.x@ < (self.x.mul(self.x)@ + 1)
                * SCALE,
            0 <= self.y.mul(self.y)@ * SCALE <= self.y@ * self.y@ < (self.y.mul(self.y)@ + 1)
                * SCALE,
            0 <= self.z.mul(self.z)@ * SCALE <= self.z@ * self.z@ < (self.z.mul(self.z)@ + 1)
                * SCALE,
            0 <= self.length_squared()@ <= 0xc00_0000 * SCALE,
    {
        Vec3::lemma_square_near(self.x);
        Vec3::lemma_square_near(self.y);
        Vec3::lemma_square_near(self.z);
    }

    /// The square of a number of at most `2^13` in size is the exact one
    /// divided by the scale and rounded down.
    pub proof fn lemma_square_near(c: Fixed)
        requires
            -0x2000 * SCALE <= c@ <= 0x2000 * SCALE,
        ensures
            0 <= c.mul(c)@ <= 0x400_0000 * SCALE,
            c.mul(c)@ * SCALE <= c@ * c@ < (c.mul(c)@ + 1) * SCALE,
    {
        let n = c@ * c@;
        assert(0 <= n <= 0x400_0000 * SCALE * SCALE) by (nonlinear_arith)
            requires
                n == c@ * c@,
                -0x2000 * SCALE <= c@ <= 0x2000 * SCALE,
                SCALE == 0x1_0000_0000,
        ;
        assert(0x400_0000 * SCALE * SCALE <= RAW_MAX * SCALE) by (nonlinear_arith)
            requires
                SCALE == 0x1_0000_0000,
                RAW_MAX == 0x7fff_ffff_ffff_ffff,
        ;
        c.lemma_mul_near(c);
        assert(c.mul(c)@ <= 0x400_0000 * SCALE) by (nonlinear_arith)
            requires
                c.mul(c)@ * SCALE <= n,
                n <= 0x400_0000 * SCALE * SCALE,
                SCALE == 0x1_0000_0000,
        ;
        assert((c.mul(c)@ + 1) * SCALE == c.mul(c)@ * SCALE + SCALE) by (nonlinear_arith);
    }

    /// A component `c` of a vector of length `len`, a quarter or more, that
    /// is scaled to unit length: the scaled component times the length is
    /// within sixteen lengths of the component times one.
    pub proof fn lemma_unit_part_near(c: Fixed, len: Fixed)
        requires
            -0x2000 * SCALE <= c@ <= 0x2000 * SCALE,
            len@ >= SCALE / 4,
            c@ * c@ < (len@ + 1) * (len@ + 1) + SCALE,
        ensures
            ({
                let unit = Interval { min: Fixed::one().neg(), max: Fixed::one() };
                let e = unit.clamp(c.div(len));
                c@ * SCALE - 16 * len@ < e@ * len@ < c@ * SCALE + 16 * len@
            }),
    {
        let s = SCALE as int;
        let unit = Interval { min: Fixed::one().neg(), max: Fixed::one() };
        assert(magnitude(c@) * SCALE <= RAW_MAX * len@) by (nonlinear_arith)
            requires
                -0x2000 * s <= c@ <= 0x2000 * s,
                len@ >= s / 4,
                s == 0x1_0000_0000,
                RAW_MAX == 0x7fff_ffff_ffff_ffff,
        ;
        c.lemma_div_near(len);
        let t = c.div(len)@;
        let e = unit.clamp(c.div(len))@;
        if t > s {
            assert(e == s);
            assert(c@ > len@) by (nonlinear_arith)
                requires
                    t * len@ < c@ * s + len@,
                    t >= s + 1,
                    len@ > 0,
                    s > 0,
            ;
            assert(c@ <= len@ + 3) by (nonlinear_arith)
                requires
                    c@ * c@ < (len@ + 1) * (len@ + 1) + s,
                    c@ > len@,
                    len@ >= s / 4,
                    s == 0x1_0000_0000,
            ;
            assert(s * len@ <= c@ * s && c@ * s <= s * len@ + 3 * s && 3 * s <= 12 * len@)
                by (nonlinear_arith)
                requires
                    len@ < c@ <= len@ + 3,
                    len@ >= s / 4,
                    s == 0x1_0000_0000,
            ;
        } else if t < -s {
            assert(e == -s);
            assert(c@ < -len@) by (nonlinear_arith)
                requires
                    t * len@ > c@ * s - len@,
                    t <= -s - 1,
                    len@ > 0,
                    s > 0,
            ;
            assert(c@ >= -len@ - 3) by (nonlinear_arith)
                requires
                    c@ * c@ < (len@ + 1) * (len@ + 1) + s,
                    c@ < -len@,
                    len@ >= s / 4,
                    s == 0x1_0000_0000,
            ;
            assert((-s) * len@ >= c@ * s && c@ * s >= (-s) * len@ - 3 * s && 3 * s <= 12 * len@)
                by (nonlinear_arith)
                requires
                    -len@ - 3 <= c@ < -len@,
                    len@ >= s / 4,
                    s == 0x1_0000_0000,
            ;
        } else {
            assert(e == t);
        }
    }

    /// A vector of at most `2^13` in each component and a quarter or more
    /// long that is scaled to unit length: each scaled component times the
    /// length is within sixteen lengths of the component times one.
    pub proof fn lemma_unit_vector_near(self)
        requires
            self.at_most(0x2000 * SCALE),
            self.length()@ >= SCALE / 4,
        ensures
            ({
                let e = self.unit_vector();
                let len = self.length()@;
                &&& e.at_most(SCALE as int)
                &&& e.is_long()
                &&& self.x@ * SCALE - 16 * len < e.x@ * len < self.x@ * SCALE + 16 * len
                &&& self.y@ * SCALE - 16 * len < e.y@ * len < self.y@ * SCALE + 16 * len
                &&& self.z@ * SCALE - 16 * len < e.z@ * len < self.z@ * SCALE + 16 * len
            }),
    {
        let s = SCALE as int;
        let lensq = self.length_squared();
        let len = lensq.sqrt();
        self.lemma_length_squared_near();
        self.lemma_unit_vector_is_long();
        lensq.lemma_sqrt_bounds();
        assert((lensq@ + 1) * s == lensq@ * s + s) by (nonlinear_arith);
        assert((self.x.mul(self.x)@ + 1) * s <= (lensq@ + 1) * s && (self.y.mul(self.y)@ + 1) * s
            <= (lensq@ + 1) * s && (self.z.mul(self.z)@ + 1) * s <= (lensq@ + 1) * s)
            by (nonlinear_arith)
            requires
                self.x.mul(self.x)@ <= lensq@,
                self.y.mul(self.y)@ <= lensq@,
                self.z.mul(self.z)@ <= lensq@,
                s > 0,
        ;
        Vec3::lemma_unit_part_near(self.x, len);
        Vec3::lemma_unit_part_near(self.y, len);
        Vec3::lemma_unit_part_near(self.z, len);
    }

    /// An inner product whose three products are at most `2^28` in size: it
    /// is the plain sum of the three products, and each product is within
    /// one step of the exact one.
    pub proof fn lemma_dot_near(&self, rhs: &Vec3)
        requires
            magnitude(self.x@ * rhs.x@) <= 0x1000_0000 * SCALE * SCALE,
            magnitude(self.y@ * rhs.y@) <= 0x1000_0000 * SCALE * SCALE,
            magnitude(self.z@ * rhs.z@) <= 0x1000_0000 * SCALE * SCALE,
        ensures
            self.dot(rhs)@ == self.x.mul(rhs.x)@ + self.y.mul(rhs.y)@ + self.z.mul(rhs.z)@,
            self.x@ * rhs.x@ - SCALE < self.x.mul(rhs.x)@ * SCALE < self.x@ * rhs.x@ + SCALE,
            self.y@ * rhs.y@ - SCALE < self.y.mul(rhs.y)@ * SCALE < self.y@ * rhs.y@ + SCALE,
            self.z@ * rhs.z@ - SCALE < self.z.mul(rhs.z)@ * SCALE < self.z@ * rhs.z@ + SCALE,
    {
        Vec3::lemma_product_near(self.x, rhs.x);
        Vec3::lemma_product_near(self.y, rhs.y);
        Vec3::lemma_product_near(self.z, rhs.z);
    }

    /// A product of at most `2^28` in size is within one step of the exact
    /// product, on the side of zero.
    pub proof fn lemma_product_near(a: Fixed, b: Fixed)
        requires
            magnitude(a@ * b@) <= 0x1000_0000 * SCALE * SCALE,
        ensures
            a@ * b@ - SCALE < a.mul(b)@ * SCALE < a@ * b@ + SCALE,
            magnitude(a.mul(b)@) * SCALE <= magnitude(a@ * b@),
            -0x1000_0000 * SCALE <= a.mul(b)@ <= 0x1000_0000 * SCALE,
    {
        let n = magnitude(a@ * b@);
        assert(0x1000_0000 * SCALE * SCALE <= RAW_MAX * SCALE) by (nonlinear_arith)
            requires
                SCALE == 0x1_0000_0000,
                RAW_MAX == 0x7fff_ffff_ffff_ffff,
        ;
        a.lemma_mul_near(b);
        assert(magnitude(a.mul(b)@) <= 0x1000_0000 * SCALE) by (nonlinear_arith)
            requires
                magnitude(a.mul(b)@) * SCALE <= n,
                n <= 0x1000_0000 * SCALE * SCALE,
                SCALE == 0x1_0000_0000,
        ;
    }

    /// Where `d^2 <= p`, `o^2 <= q` and `p q <= b^2`, the product `d o` is
    /// at most `b` in size.
    pub proof fn lemma_product_bound(d: int, o: int, p: int, q: int, b: int)
        requires
            d * d <= p,
            o * o <= q,
            p * q <= b * b,
            0 <= b,
        ensures
            magnitude(d * o) <= b,
    {
        let x = magnitude(d * o);
        assert(x * x == (d * d) * (o * o)) by (nonlinear_arith)
            requires
                x == magnitude(d * o),
        ;
        assert(d * d >= 0 && o * o >= 0) by (nonlinear_arith);
        assert((d * d) * (o * o) <= p * q) by (nonlinear_arith)
            requires
                0 <= d * d <= p,
                0 <= o * o <= q,
        ;
        if x > b {
            assert(x * x > b * b) by (nonlinear_arith)
                requires
                    x > b,
                    b >= 0,
            ;
        }
    }

    /// The inner product with a negated vector is the negated inner product.
    pub proof fn lemma_dot_neg(&self, rhs: &Vec3)
        requires
            rhs.proper(),
        ensures
            self.dot(&rhs.neg()) == self.dot(rhs).neg(),
    {
        self.x.lemma_mul_neg(rhs.x);
        self.y.lemma_mul_neg(rhs.y);
        self.z.lemma_mul_neg(rhs.z);
    }

    /// A squared length is not below zero.
    pub proof fn lemma_length_squared_nonneg(&self)
        ensures
            self.length_squared()@ >= 0,
    {
        self.x.lemma_square_nonneg();
        self.y.lemma_square_nonneg();
        self.z.lemma_square_nonneg();
    }

    pub open spec fn spec_length(&self) -> Fixed {
        self.length_squared().sqrt()
    }

    #[verifier::when_used_as_spec(spec_length)]
    pub fn length(&self) -> (r: Fixed)
        ensures
            r == self.spec_length(),
    {
        self.length_squared().sqrt()
    }

    pub open spec fn spec_near_zero(&self) -> bool {
        &&& self.x.abs()@ < NEAR_ZERO_RAW
        &&& self.y.abs()@ < NEAR_ZERO_RAW
        &&& self.z.abs()@ < NEAR_ZERO_RAW
    }

    /// Whether every component is under `NEAR_ZERO_RAW` in size. These are
    /// the vectors whose length is zero: they cannot be scaled to unit
    /// length.
    #[verifier::when_used_as_spec(spec_near_zero)]
    pub fn near_zero(&self) -> (r: bool)
        ensures
            r == self.spec_near_zero(),
            r == (self.length()@ == 0),
            !r == (self.length()@ > 0),
            !r ==> *self != Vec3::zero(),
    {
        proof {
            self.lemma_near_zero_is_no_length();
        }
        self.x.abs().raw < NEAR_ZERO_RAW && self.y.abs().raw < NEAR_ZERO_RAW && self.z.abs().raw
            < NEAR_ZERO_RAW
    }

    /// The vectors near zero are those whose squared length, and so whose
    /// length, is zero.
    pub proof fn lemma_near_zero_is_no_length(&self)
        ensures
            self.near_zero() <==> self.length_squared()@ == 0,
            self.near_zero() <==> self.length()@ == 0,
            !self.near_zero() <==> self.length()@ > 0,
    {
        self.length_squared().lemma_sqrt_bounds();
        lemma_square_bounds(self.x);
        lemma_square_bounds(self.y);
        lemma_square_bounds(self.z);
        self.length_squared().lemma_sqrt_is_zero();
    }

    pub open spec fn spec_unit_vector(self) -> Vec3 {
        if self.length()@ == 0 {
            Vec3::zero()
        } else {
            let len = self.length();
            let unit = Interval { min: Fixed::one().neg(), max: Fixed::one() };
            Vec3 {
                x: unit.clamp(self.x.div(len)),
                y: unit.clamp(self.y.div(len)),
                z: unit.clamp(self.z.div(len)),
            }
        }
    }

    /// The vector scaled to unit length: each component is divided by the
    /// length and kept within `[-1, 1]`. A vector whose length is zero
    /// cannot be scaled and gives the zero vector. Any other vector gives
    /// one with a component of at least one half in size.
    #[verifier::when_used_as_spec(spec_unit_vector)]
    pub fn unit_vector(self) -> (r: Vec3)
        ensures
            r == self.spec_unit_vector(),
            r.within(Fixed::one().neg(), Fixed::one()),
            self.length()@ == 0 ==> r == Vec3::zero(),
            self.length()@ > 0 ==> r.is_long(),
    {
        proof {
            self.lemma_unit_vector_is_long();
        }
        let len = self.length();
        if len.raw == 0 {
            Vec3::zero()
        } else {
            let unit = Interval::new(Fixed::one().neg(), Fixed::one());
            Vec3 {
                x: unit.clamp(self.x.div(len)),
                y: unit.clamp(self.y.div(len)),
                z: unit.clamp(self.z.div(len)),
            }
        }
    }

    /// Whether some component is at least one half in size.
    pub open spec fn is_long(&self) -> bool {
        ||| self.x.abs()@ >= SCALE / 2
        ||| self.y.abs()@ >= SCALE / 2
        ||| self.z.abs()@ >= SCALE / 2
    }

    /// A vector with a component of at least one half in size has a length
    /// above zero.
    pub proof fn lemma_long_has_length(&self)
        requires
            self.is_long(),
        ensures
            !self.near_zero(),
            self.length()@ > 0,
    {
        self.lemma_near_zero_is_no_length();
        self.length_squared().lemma_sqrt_bounds();
    }

    /// Scaling a vector whose length is above zero to unit length gives a
    /// vector with a component of at least one half in size.
    pub proof fn lemma_unit_vector_is_long(self)
        ensures
            self.unit_vector().within(Fixed::one().neg(), Fixed::one()),
            self.length()@ > 0 ==> self.unit_vector().is_long(),
    {
        let lensq = self.length_squared();
        let len = lensq.sqrt();
        lensq.lemma_sqrt_bounds();
        if len@ > 0 {
            lemma_square_bounds(self.x);
            lemma_square_bounds(self.y);
            lemma_square_bounds(self.z);
            let x = magnitude(self.x@);
            let y = magnitude(self.y@);
            let z = magnitude(self.z@);
            assert(x * x == self.x@ * self.x@ && y * y == self.y@ * self.y@ && z * z == self.z@
                * self.z@) by (nonlinear_arith)
                requires
                    x == magnitude(self.x@),
                    y == magnitude(self.y@),
                    z == magnitude(self.z@),
            ;
            let sum = self.x.mul(self.x)@ + self.y.mul(self.y)@ + self.z.mul(self.z)@;
            assert(lensq@ <= sum);
            assert(lensq@ * SCALE <= sum * SCALE) by (nonlinear_arith)
                requires
                    lensq@ <= sum,
                    SCALE > 0,
            ;
            assert(sum * SCALE == self.x.mul(self.x)@ * SCALE + self.y.mul(self.y)@ * SCALE
                + self.z.mul(self.z)@ * SCALE) by (nonlinear_arith)
                requires
                    sum == self.x.mul(self.x)@ + self.y.mul(self.y)@ + self.z.mul(self.z)@,
            ;
            assert(len@ * len@ <= x * x + y * y + z * z);
            let m = if x >= y && x >= z {
                x
            } else if y >= z {
                y
            } else {
                z
            };
            assert(len@ <= 2 * m) by (nonlinear_arith)
                requires
                    len@ * len@ <= x * x + y * y + z * z,
                    0 <= x <= m,
                    0 <= y <= m,
                    0 <= z <= m,
                    len@ > 0,
            ;
            if x >= y && x >= z {
                lemma_quotient_of_long_component(self.x, len);
            } else if y >= z {
                lemma_quotient_of_long_component(self.y, len);
            } else {
                lemma_quotient_of_long_component(self.z, len);
            }
        }
    }

    /// Whether every component lies between `min` and `max`, bounds included.
    pub open spec fn within(&self, min: Fixed, max: Fixed) -> bool {
        &&& min@ <= self.x@ <= max@
        &&& min@ <= self.y@ <= max@
        &&& min@ <= self.z@ <= max@
    }

    /// A vector with each component drawn from `[0, 1]`.
    pub fn random() -> (r: Vec3)
        ensures
            r.within(Fixed::zero(), Fixed::one()),
    {
        Vec3::random_range(Fixed::zero(), Fixed::one())
    }

    /// A vector with each component drawn from `[min, max]`.
    pub fn random_range(min: Fixed, max: Fixed) -> (r: Vec3)
        requires
            min@ <= max@,
        ensures
            r.within(min, max),
    {
        let x: i64 = raw_between(min.raw, max.raw);
        let y: i64 = raw_between(min.raw, max.raw);
        let z: i64 = raw_between(min.raw, max.raw);
        Vec3 { x: Fixed { raw: x }, y: Fixed { raw: y }, z: Fixed { raw: z } }
    }

    pub open spec fn spec_unit_from_sample(p: Vec3) -> Option<Vec3> {
        let lensq = p.length_squared();
        if UNIT_EPSILON_RAW < lensq@ <= SCALE {
            Some(p.unit_vector())
        } else {
            None
        }
    }

    /// The sample `p` scaled to unit length, if its squared length lies in
    /// `(epsilon, 1]`; nothing otherwise.
    #[verifier::when_used_as_spec(spec_unit_from_sample)]
    pub fn unit_from_sample(p: Vec3) -> (r: Option<Vec3>)
        ensures
            r == Vec3::spec_unit_from_sample(p),
    {
        let lensq = p.length_squared();
        if UNIT_EPSILON_RAW < lensq.raw && lensq.raw <= SCALE {
            Some(p.unit_vector())
        } else {
            None
        }
    }

    pub open spec fn spec_unit_fallback() -> Vec3 {
        Vec3 { x: Fixed::one(), y: Fixed::zero(), z: Fixed::zero() }
    }

    /// The direction that `random_unit_vector` returns when every one of its
    /// samples was rejected.
    #[verifier::when_used_as_spec(spec_unit_fallback)]
    pub fn unit_fallback() -> (r: Vec3)
        ensures
            r == Vec3::spec_unit_fallback(),
    {
        Vec3 { x: Fixed::one(), y: Fixed::zero(), z: Fixed::zero() }
    }

    /// What `random_unit_vector` can return: an accepted sample of the cube
    /// `[-1, 1]^3` scaled to unit length, or the fallback direction.
    pub open spec fn is_unit_draw(u: Vec3) -> bool {
        ||| u == Vec3::unit_fallback()
        ||| exists|p: Vec3|
            p.within(Fixed::one().neg(), Fixed::one()) && Vec3::unit_from_sample(p) == Some(u)
    }

    /// The size `m` of a component of `[-1, 1]` that was divided by the
    /// length `len` and kept within `[-1, 1]`: the quotient of the sizes
    /// rounded down, or one where that is more.
    pub proof fn lemma_unit_component(c: Fixed, len: Fixed)
        requires
            -SCALE <= c@ <= SCALE,
            len@ >= 0x800_0000,
        ensures
            ({
                let unit = Interval { min: Fixed::one().neg(), max: Fixed::one() };
                let w = unit.clamp(c.div(len));
                let m = magnitude(w@);
                &&& 0 <= m <= SCALE
                &&& m * len@ <= magnitude(c@) * SCALE
                &&& m == SCALE || (m + 1) * len@ > magnitude(c@) * SCALE
                &&& w.mul(w)@ * SCALE <= m * m < (w.mul(w)@ + 1) * SCALE
            }),
    {
        let unit = Interval { min: Fixed::one().neg(), max: Fixed::one() };
        let w = unit.clamp(c.div(len));
        let m = magnitude(w@);
        let a = magnitude(c@);
        let n = a * SCALE;
        assert(magnitude(c@ * SCALE) == n && (c@ * SCALE < 0) == (c@ < 0 && n != 0) && 0 <= n
            <= SCALE * SCALE) by (nonlinear_arith)
            requires
                a == magnitude(c@),
                n == a * SCALE,
                -SCALE <= c@ <= SCALE,
                SCALE == 0x1_0000_0000,
        ;
        assert(SCALE * SCALE == 0x1_0000_0000_0000_0000);
        let k = n / len@;
        assert(0 <= k <= n && k * len@ <= n < (k + 1) * len@) by (nonlinear_arith)
            requires
                0 <= n,
                len@ > 0,
                k == n / len@,
        ;
        assert(k <= 0x20_0000_0000) by (nonlinear_arith)
            requires
                0 <= k,
                k * len@ <= 0x1_0000_0000_0000_0000,
                len@ >= 0x800_0000,
        ;
        assert(magnitude(c.div(len)@) == k);
        if k > SCALE {
            assert(m == SCALE);
            assert(SCALE * len@ <= k * len@) by (nonlinear_arith)
                requires
                    SCALE <= k,
                    len@ > 0,
            ;
        } else {
            assert(m == k);
        }
        lemma_square_of_fraction(w);
        assert(w@ * w@ == m * m) by (nonlinear_arith)
            requires
                m == magnitude(w@),
        ;
    }

    /// An accepted sample of the cube `[-1, 1]^3` is scaled to a squared
    /// length within `UNIT_TOLERANCE_RAW` of one.
    pub proof fn lemma_unit_sample_length(p: Vec3)
        requires
            p.within(Fixed::one().neg(), Fixed::one()),
            Vec3::unit_from_sample(p) is Some,
        ensures
            SCALE - UNIT_TOLERANCE_RAW <= Vec3::unit_from_sample(p)->0.length_squared()@ <= SCALE
                + UNIT_TOLERANCE_RAW,
    {
        let unit = Interval { min: Fixed::one().neg(), max: Fixed::one() };
        let lensq = p.length_squared();
        let len = lensq.sqrt();
        let u = p.unit_vector();
        lemma_square_of_fraction(p.x);
        lemma_square_of_fraction(p.y);
        lemma_square_of_fraction(p.z);
        lensq.lemma_sqrt_bounds();
        if len@ < 0x800_0000 {
            assert((len@ + 1) * (len@ + 1) <= 0x40_0000_0000_0000) by (nonlinear_arith)
                requires
                    0 <= len@ < 0x800_0000,
            ;
            assert(lensq@ * SCALE >= 0x40_0000_0000_0000) by (nonlinear_arith)
                requires
                    lensq@ >= 0x40_0000,
                    SCALE == 0x1_0000_0000,
            ;
        }
        Vec3::lemma_unit_component(p.x, len);
        Vec3::lemma_unit_component(p.y, len);
        Vec3::lemma_unit_component(p.z, len);
        let a = magnitude(p.x@);
        let b = magnitude(p.y@);
        let c = magnitude(p.z@);
        assert(a * a == p.x@ * p.x@ && b * b == p.y@ * p.y@ && c * c == p.z@ * p.z@)
            by (nonlinear_arith)
            requires
                a == magnitude(p.x@),
                b == magnitude(p.y@),
                c == magnitude(p.z@),
        ;
        let q = lensq@;
        assert(q == p.x.mul(p.x)@ + p.y.mul(p.y)@ + p.z.mul(p.z)@);
        assert(q * SCALE == p.x.mul(p.x)@ * SCALE + p.y.mul(p.y)@ * SCALE + p.z.mul(p.z)@ * SCALE)
            by (nonlinear_arith)
            requires
                q == p.x.mul(p.x)@ + p.y.mul(p.y)@ + p.z.mul(p.z)@,
        ;
        assert(u.x == unit.clamp(p.x.div(len)));
        assert(u.y == unit.clamp(p.y.div(len)));
        assert(u.z == unit.clamp(p.z.div(len)));
        lemma_square_of_fraction(u.x);
        lemma_square_of_fraction(u.y);
        lemma_square_of_fraction(u.z);
        lemma_unit_square_sum(
            a,
            b,
            c,
            q,
            len@,
            magnitude(u.x@),
            magnitude(u.y@),
            magnitude(u.z@),
            u.x.mul(u.x)@,
            u.y.mul(u.y)@,
            u.z.mul(u.z)@,
        );
    }

    /// A direction that `random_unit_vector` can return has a squared length
    /// within `UNIT_TOLERANCE_RAW` of one.
    pub proof fn lemma_unit_draw_length(u: Vec3)
        requires
            Vec3::is_unit_draw(u),
        ensures
            SCALE - UNIT_TOLERANCE_RAW <= u.length_squared()@ <= SCALE + UNIT_TOLERANCE_RAW,
    {
        if u != Vec3::unit_fallback() {
            let p = choose|p: Vec3|
                p.within(Fixed::one().neg(), Fixed::one()) && Vec3::unit_from_sample(p) == Some(u);
            Vec3::lemma_unit_sample_length(p);
        } else {
            assert(SCALE * SCALE == 0x1_0000_0000_0000_0000);
            assert(0x1_0000_0000_0000_0000int / 0x1_0000_0000 == 0x1_0000_0000);
        }
    }

    /// A direction that `random_unit_vector` can return has no component
    /// above one in size and one of at least one half in size, so its length
    /// is above zero.
    pub proof fn lemma_unit_draw_is_long(u: Vec3)
        requires
            Vec3::is_unit_draw(u),
        ensures
            u.within(Fixed::one().neg(), Fixed::one()),
            u.is_long(),
            !u.near_zero(),
            u.length()@ > 0,
    {
        if u != Vec3::unit_fallback() {
            let p = choose|p: Vec3|
                p.within(Fixed::one().neg(), Fixed::one()) && Vec3::unit_from_sample(p) == Some(u);
            p.length_squared().lemma_sqrt_is_zero();
            p.lemma_unit_vector_is_long();
        }
        u.lemma_long_has_length();
    }

    /// A random direction of unit length, by rejection: samples of the cube
    /// `[-1, 1]^3` are drawn until one lies in the unit ball and away from
    /// the origin. After `MAX_ATTEMPTS` rejections the fallback is returned.
    pub fn random_unit_vector() -> (r: Vec3)
        ensures
            Vec3::is_unit_draw(r),
            r.within(Fixed::one().neg(), Fixed::one()),
            r.length()@ > 0,
            SCALE - UNIT_TOLERANCE_RAW <= r.length_squared()@ <= SCALE + UNIT_TOLERANCE_RAW,
    {
        let mut attempts: u32 = 0;
        while attempts < MAX_ATTEMPTS
            invariant
                attempts <= MAX_ATTEMPTS,
            decreases MAX_ATTEMPTS - attempts,
        {
            let p = Vec3::random_range(Fixed::one().neg(), Fixed::one());
            match Vec3::unit_from_sample(p) {
                Some(u) => {
                    proof {
                        Vec3::lemma_unit_draw_is_long(u);
                        Vec3::lemma_unit_draw_length(u);
                    }
                    return u;
                },
                None => {},
            }
            attempts = attempts + 1;
        }
        proof {
            Vec3::lemma_unit_draw_is_long(Vec3::unit_fallback());
            Vec3::lemma_unit_draw_length(Vec3::unit_fallback());
        }
        Vec3::unit_fallback()
    }

    pub open spec fn spec_toward(self, normal: &Vec3) -> Vec3 {
        if self.dot(normal)@ > 0 {
            self
        } else {
            self.neg()
        }
    }

    /// The vector itself if it points into the half space of `normal`, its
    /// negation otherwise.
    #[verifier::when_used_as_spec(spec_toward)]
    pub fn toward(self, normal: &Vec3) -> (r: Vec3)
        ensures
            r == self.spec_toward(normal),
    {
        if self.dot(normal).raw > 0 {
            self
        } else {
            self.neg()
        }
    }

    /// A random unit direction in the half space of `normal`.
    pub fn random_on_hemisphere(normal: &Vec3) -> (r: Vec3)
        ensures
            exists|u: Vec3| Vec3::is_unit_draw(u) && r == u.toward(normal),
    {
        let on_unit_sphere = Vec3::random_unit_vector();
        on_unit_sphere.toward(normal)
    }
}

impl Default for Vec3 {
    /// The zero vector.
    fn default() -> (r: Vec3)
        ensures
            r == Vec3::spec_zero(),
    {
        Vec3::zero()
    }
}

} // verus!
