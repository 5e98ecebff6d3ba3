//! Signed fixed-point numbers with 32 fractional bits and saturating arithmetic.
//!
//! A [`Fixed`] stores the integer `raw` and denotes the rational `raw / 2^32`.
//! Every operation is total: a result that would leave the representable range
//! sticks at [`RAW_MAX`] or `-RAW_MAX`, which play the part of plus and minus
//! infinity; products, quotients and square roots round toward zero.

use crate::rng::random_word;
use vstd::arithmetic::div_mod::{lemma_div_is_ordered, lemma_div_pos_is_pos};
use vstd::prelude::*;

verus! {

/// Raw value of the number one.
pub const SCALE: i64 = 0x1_0000_0000;

/// Largest raw value.
pub const RAW_MAX: i64 = 0x7fff_ffff_ffff_ffff;

/// Smallest raw value that the arithmetic yields: `-RAW_MAX`.
pub const RAW_MIN: i64 = -0x7fff_ffff_ffff_ffff;

/// `v` forced into the range `[-RAW_MAX, RAW_MAX]`.
pub open spec fn saturate(v: int) -> int {
    if v > RAW_MAX {
        RAW_MAX as int
    } else if v < -RAW_MAX {
        -RAW_MAX
    } else {
        v
    }
}

/// Absolute value of an integer.
pub open spec fn magnitude(v: int) -> int {
    if v < 0 {
        -v
    } else {
        v
    }
}

/// Quotient of `n` by `d` rounded toward zero (`d` is not zero).
pub open spec fn quotient(n: int, d: int) -> int {
    let q = magnitude(n) / magnitude(d);
    if (n < 0) != (d < 0) {
        -q
    } else {
        q
    }
}

/// Raw value of the saturated sum.
pub open spec fn sum_raw(a: int, b: int) -> int {
    saturate(a + b)
}

/// Raw value of the saturated difference.
pub open spec fn difference_raw(a: int, b: int) -> int {
    saturate(a - b)
}

/// Raw value of the product, rounded toward zero and saturated.
pub open spec fn product_raw(a: int, b: int) -> int {
    saturate(quotient(a * b, SCALE as int))
}

/// Raw value of the quotient, rounded toward zero and saturated.
/// Dividing by zero gives the bound that has the sign of the dividend.
pub open spec fn ratio_raw(a: int, b: int) -> int {
    if b == 0 {
        if a > 0 {
            RAW_MAX as int
        } else if a < 0 {
            -RAW_MAX
        } else {
            0
        }
    } else {
        saturate(quotient(a * SCALE, b))
    }
}

/// `r` is the integer square root of `n`: the largest `r` with `r * r <= n`.
pub open spec fn is_floor_sqrt(n: int, r: int) -> bool {
    0 <= r && r * r <= n < (r + 1) * (r + 1)
}

/// The integer square root of `n` (for `n >= 0`).
pub open spec fn floor_sqrt(n: int) -> int {
    choose|r: int| is_floor_sqrt(n, r)
}

/// Raw value of the square root, rounded down; zero for arguments below zero.
pub open spec fn root_raw(a: int) -> int {
    if a <= 0 {
        0
    } else {
        floor_sqrt(a * SCALE)
    }
}

/// At most one integer is the integer square root of `n`.
pub proof fn lemma_floor_sqrt_unique(n: int, r: int, s: int)
    requires
        is_floor_sqrt(n, r),
        is_floor_sqrt(n, s),
    ensures
        r == s,
{
    if r < s {
        assert((r + 1) * (r + 1) <= s * s) by (nonlinear_arith)
            requires
                0 <= r,
                r + 1 <= s,
        ;
    }
    if s < r {
        assert((s + 1) * (s + 1) <= r * r) by (nonlinear_arith)
            requires
                0 <= s,
                s + 1 <= r,
        ;
    }
}

/// A witness of the integer square root is the integer square root.
pub proof fn lemma_floor_sqrt_is(n: int, r: int)
    requires
        is_floor_sqrt(n, r),
    ensures
        floor_sqrt(n) == r,
{
    lemma_floor_sqrt_unique(n, r, floor_sqrt(n));
}

/// Every `n >= 0` has an integer square root.
pub proof fn lemma_floor_sqrt_exists(n: int) -> (r: int)
    requires
        n >= 0,
    ensures
        is_floor_sqrt(n, r),
        floor_sqrt(n) == r,
    decreases n,
{
    let r = if n == 0 {
        assert(is_floor_sqrt(0, 0));
        0
    } else {
        let below = lemma_floor_sqrt_exists(n - 1);
        assert((below + 1) * (below + 1) < (below + 2) * (below + 2)) by (nonlinear_arith)
            requires
                0 <= below,
        ;
        if (below + 1) * (below + 1) <= n {
            below + 1
        } else {
            below
        }
    };
    lemma_floor_sqrt_is(n, r);
    r
}

/// The quotient rounded toward zero grows with the dividend, for a divisor
/// above zero.
pub proof fn lemma_quotient_monotone(m: int, n: int, d: int)
    requires
        m <= n,
        d > 0,
    ensures
        quotient(m, d) <= quotient(n, d),
{
    if m >= 0 {
        lemma_div_is_ordered(m, n, d);
    } else if n >= 0 {
        lemma_div_pos_is_pos(-m, d);
        lemma_div_pos_is_pos(n, d);
    } else {
        lemma_div_is_ordered(-n, -m, d);
    }
}

/// With a divisor above zero, a dividend of at least `q` times the divisor
/// gives a quotient of at least `q`.
pub proof fn lemma_div_lower_bound(a: int, d: int, q: int)
    by (nonlinear_arith)
    requires
        d > 0,
        a >= q * d,
    ensures
        a / d >= q,
{
}

/// The square of a number of `[-1, 1]` is its raw value squared, divided by
/// the scale and rounded down; it lies in `[0, 1]`.
pub proof fn lemma_square_of_fraction(c: Fixed)
    requires
        -SCALE <= c@ <= SCALE,
    ensures
        c.mul(c)@ == (c@ * c@) / (SCALE as int),
        0 <= c.mul(c)@ <= SCALE,
        c.mul(c)@ * SCALE <= c@ * c@ < (c.mul(c)@ + 1) * SCALE,
{
    let n = c@ * c@;
    assert(0 <= n <= SCALE * SCALE) by (nonlinear_arith)
        requires
            n == c@ * c@,
            -SCALE <= c@ <= SCALE,
    ;
    assert(SCALE * SCALE == 0x1_0000_0000_0000_0000);
    assert(n / (SCALE as int) <= SCALE && 0 <= n / (SCALE as int) && (n / (SCALE as int)) * SCALE
        <= n < (n / (SCALE as int) + 1) * SCALE) by (nonlinear_arith)
        requires
            0 <= n <= 0x1_0000_0000_0000_0000,
            SCALE == 0x1_0000_0000,
    ;
}

/// A number divided by a length above zero that is at most twice its size
/// is at least one half in size.
pub proof fn lemma_quotient_of_long_component(c: Fixed, len: Fixed)
    requires
        0 < len@ <= 2 * magnitude(c@),
    ensures
        c.div(len).abs()@ >= SCALE / 2,
{
    let m = magnitude(c@);
    assert(magnitude(c@ * SCALE) == m * SCALE) by (nonlinear_arith)
        requires
            m == magnitude(c@),
    ;
    assert(m * SCALE >= (SCALE / 2) * len@) by (nonlinear_arith)
        requires
            0 < len@ <= 2 * m,
            SCALE == 0x1_0000_0000,
    ;
    lemma_div_lower_bound(m * SCALE, len@, SCALE / 2);
    assert((c@ * SCALE < 0) == (c@ < 0)) by (nonlinear_arith)
        requires
            m == magnitude(c@),
            m > 0,
            SCALE == 0x1_0000_0000,
    ;
}

/// A square is not below zero and not above the exact square; it is zero
/// exactly for the numbers under `2^-16` in size.
pub proof fn lemma_square_bounds(c: Fixed)
    ensures
        0 <= c.mul(c)@,
        c.mul(c)@ * SCALE <= c@ * c@,
        c.mul(c)@ == 0 <==> magnitude(c@) < 0x1_0000,
{
    let n = c@ * c@;
    let m = magnitude(c@);
    assert(n == m * m && n >= 0) by (nonlinear_arith)
        requires
            n == c@ * c@,
            m == magnitude(c@),
    ;
    let q = n / (SCALE as int);
    assert(0 <= q && q * SCALE <= n) by (nonlinear_arith)
        requires
            n >= 0,
            q == n / (SCALE as int),
            SCALE == 0x1_0000_0000,
    ;
    assert(c.mul(c)@ == saturate(q));
    assert(saturate(q) * SCALE <= q * SCALE) by (nonlinear_arith)
        requires
            0 <= q,
            saturate(q) <= q,
            SCALE == 0x1_0000_0000,
    ;
    if m < 0x1_0000 {
        assert(n < 0x1_0000_0000) by (nonlinear_arith)
            requires
                n == m * m,
                0 <= m < 0x1_0000,
        ;
    } else {
        assert(n >= 0x1_0000_0000) by (nonlinear_arith)
            requires
                n == m * m,
                m >= 0x1_0000,
        ;
        lemma_div_lower_bound(n, SCALE as int, 1);
    }
}

/// Of two numbers not below zero the smaller has the smaller square.
pub proof fn lemma_square_ordered(x: int, y: int)
    by (nonlinear_arith)
    requires
        0 <= x <= y,
    ensures
        x * x <= y * y,
        x < y ==> x * x < y * y,
{
}

/// The size of a vector of `[-1, 1]^3` that was scaled to unit length, in
/// whole numbers.
///
/// `a`, `b`, `c` are the sizes of the components and `q` the squared length
/// as computed, `len` its square root; `wa`, `wb`, `wc` are the sizes of the
/// scaled components, each the quotient by `len` rounded down and kept under
/// one; `la`, `lb`, `lc` are their squares as computed. Then the squared
/// length of the scaled vector is within `2^-20` of one.
pub proof fn lemma_unit_square_sum(
    a: int,
    b: int,
    c: int,
    q: int,
    len: int,
    wa: int,
    wb: int,
    wc: int,
    la: int,
    lb: int,
    lc: int,
)
    requires
        0 <= a <= SCALE,
        0 <= b <= SCALE,
        0 <= c <= SCALE,
        q * SCALE <= a * a + b * b + c * c < q * SCALE + 3 * SCALE,
        len * len <= q * SCALE < (len + 1) * (len + 1),
        len >= 0x800_0000,
        0 <= wa <= SCALE && wa * len <= a * SCALE && (wa == SCALE || (wa + 1) * len > a * SCALE),
        0 <= wb <= SCALE && wb * len <= b * SCALE && (wb == SCALE || (wb + 1) * len > b * SCALE),
        0 <= wc <= SCALE && wc * len <= c * SCALE && (wc == SCALE || (wc + 1) * len > c * SCALE),
        la * SCALE <= wa * wa < (la + 1) * SCALE,
        lb * SCALE <= wb * wb < (lb + 1) * SCALE,
        lc * SCALE <= wc * wc < (lc + 1) * SCALE,
    ensures
        SCALE - 16 <= la + lb + lc <= SCALE + 4096,
{
    let s = SCALE as int;
    let ss = s * s;
    assert(ss == 0x1_0000_0000_0000_0000);
    let ll = len * len;
    let t = a * a + b * b + c * c;
    let w = wa * wa + wb * wb + wc * wc;
    assert(ll >= 0x800_0000 * len && ll > 0 && (len + 1) * (len + 1) == ll + 2 * len + 1)
        by (nonlinear_arith)
        requires
            ll == len * len,
            len >= 0x800_0000,
    ;
    // not too long
    lemma_square_ordered(wa * len, a * s);
    lemma_square_ordered(wb * len, b * s);
    lemma_square_ordered(wc * len, c * s);
    assert((wa * len) * (wa * len) == (wa * wa) * ll && (wb * len) * (wb * len) == (wb * wb) * ll
        && (wc * len) * (wc * len) == (wc * wc) * ll) by (nonlinear_arith)
        requires
            ll == len * len,
    ;
    assert((a * s) * (a * s) == (a * a) * ss && (b * s) * (b * s) == (b * b) * ss && (c * s) * (c
        * s) == (c * c) * ss) by (nonlinear_arith)
        requires
            ss == s * s,
    ;
    assert(w * ll == (wa * wa) * ll + (wb * wb) * ll + (wc * wc) * ll) by (nonlinear_arith)
        requires
            w == wa * wa + wb * wb + wc * wc,
    ;
    assert(t * ss == (a * a) * ss + (b * b) * ss + (c * c) * ss) by (nonlinear_arith)
        requires
            t == a * a + b * b + c * c,
    ;
    assert(w * ll <= t * ss);
    assert(t <= ll + 2 * len + 3 * s);
    assert(t * ss <= (ll + 2 * len + 3 * s) * ss) by (nonlinear_arith)
        requires
            t <= ll + 2 * len + 3 * s,
            ss > 0,
    ;
    let top = ss + 4096 * s;
    if w > top {
        assert(w * ll >= (top + 1) * ll) by (nonlinear_arith)
            requires
                w >= top + 1,
                ll >= 0,
        ;
        assert((top + 1) * ll == 0x1_0000_0000_0000_0000 * ll + 0x1000_0000_0000 * ll + ll)
            by (nonlinear_arith)
            requires
                top == 0x1_0000_0000_0000_0000 + 0x1000_0000_0000,
        ;
        assert((ll + 2 * len + 3 * s) * ss == 0x1_0000_0000_0000_0000 * ll
            + 0x2_0000_0000_0000_0000 * len + 0x3_0000_0000_0000_0000_0000_0000)
            by (nonlinear_arith)
            requires
                ss == 0x1_0000_0000_0000_0000,
                s == 0x1_0000_0000,
        ;
        assert(false);
    }
    assert(wa * wa >= 0 && wb * wb >= 0 && wc * wc >= 0) by (nonlinear_arith);
    assert((la + lb + lc) * s <= w);
    // not too short
    if wa == s || wb == s || wc == s {
        assert(w >= ss);
    } else {
        lemma_square_ordered(a * s, (wa + 1) * len);
        lemma_square_ordered(b * s, (wb + 1) * len);
        lemma_square_ordered(c * s, (wc + 1) * len);
        let v = (wa + 1) * (wa + 1) + (wb + 1) * (wb + 1) + (wc + 1) * (wc + 1);
        assert(((wa + 1) * len) * ((wa + 1) * len) == ((wa + 1) * (wa + 1)) * ll && ((wb + 1)
            * len) * ((wb + 1) * len) == ((wb + 1) * (wb + 1)) * ll && ((wc + 1) * len) * ((wc
            + 1) * len) == ((wc + 1) * (wc + 1)) * ll) by (nonlinear_arith)
            requires
                ll == len * len,
        ;
        assert(v * ll == ((wa + 1) * (wa + 1)) * ll + ((wb + 1) * (wb + 1)) * ll + ((wc + 1) * (wc
            + 1)) * ll) by (nonlinear_arith)
            requires
                v == (wa + 1) * (wa + 1) + (wb + 1) * (wb + 1) + (wc + 1) * (wc + 1),
        ;
        assert(v * ll > t * ss);
        assert(t * ss >= ll * ss) by (nonlinear_arith)
            requires
                t >= ll,
                ss > 0,
        ;
        assert(v > ss) by (nonlinear_arith)
            requires
                v * ll > ll * ss,
                ll > 0,
        ;
        assert(v == w + 2 * (wa + wb + wc) + 3) by (nonlinear_arith)
            requires
                v == (wa + 1) * (wa + 1) + (wb + 1) * (wb + 1) + (wc + 1) * (wc + 1),
                w == wa * wa + wb * wb + wc * wc,
        ;
        assert(w > ss - 6 * s - 3);
    }
    assert(w < (la + lb + lc + 3) * s);
}

/// Where `x` is within `e` of `y`, `d * x` is within `|d| * e` of `d * y`.
pub proof fn lemma_scaled_near(d: int, x: int, y: int, e: int)
    by (nonlinear_arith)
    requires
        y - e < x < y + e,
    ensures
        d * y - magnitude(d) * e <= d * x <= d * y + magnitude(d) * e,
{
}

/// The side on which a ray leaves a sphere, in whole numbers.
///
/// `d` is the direction and `o` the vector from the origin of the ray to
/// the centre, `r` the radius; `a` and `h` are the squared length of `d`
/// and its inner product with `o` as computed, `sq` the root of the
/// discriminant and `t` the larger solution; `m` is `t d`, `u` the outward
/// normal `(m - o) / r` and `p` the products `d u`, each as computed. Where
/// the root of the discriminant outweighs what the roundings can add up
/// to, the inner product of the direction with the outward normal is above
/// zero.
pub proof fn lemma_exit_side(
    d: (int, int, int),
    o: (int, int, int),
    r: int,
    a: int,
    h: int,
    sq: int,
    t: int,
    m: (int, int, int),
    u: (int, int, int),
    p: (int, int, int),
)
    requires
        0 < r,
        a * SCALE <= d.0 * d.0 + d.1 * d.1 + d.2 * d.2,
        h * SCALE > d.0 * o.0 + d.1 * o.1 + d.2 * o.2 - 3 * SCALE,
        ({
            let size = magnitude(d.0) + magnitude(d.1) + magnitude(d.2);
            sq * (SCALE * SCALE) >= 3 * (SCALE * SCALE) + a * SCALE + size * SCALE + size * r + 3
                * (SCALE * r)
        }),
        t >= 0,
        t * a > (h + sq) * SCALE - a,
        t * d.0 - SCALE < m.0 * SCALE < t * d.0 + SCALE,
        t * d.1 - SCALE < m.1 * SCALE < t * d.1 + SCALE,
        t * d.2 - SCALE < m.2 * SCALE < t * d.2 + SCALE,
        (m.0 - o.0) * SCALE - r < u.0 * r < (m.0 - o.0) * SCALE + r,
        (m.1 - o.1) * SCALE - r < u.1 * r < (m.1 - o.1) * SCALE + r,
        (m.2 - o.2) * SCALE - r < u.2 * r < (m.2 - o.2) * SCALE + r,
        p.0 * SCALE > d.0 * u.0 - SCALE,
        p.1 * SCALE > d.1 * u.1 - SCALE,
        p.2 * SCALE > d.2 * u.2 - SCALE,
    ensures
        p.0 + p.1 + p.2 > 0,
{
    let s = SCALE as int;
    let ss = s * s;
    let sr = s * r;
    assert(ss == 0x1_0000_0000_0000_0000);
    let size = magnitude(d.0) + magnitude(d.1) + magnitude(d.2);
    let squares = d.0 * d.0 + d.1 * d.1 + d.2 * d.2;
    let across = d.0 * o.0 + d.1 * o.1 + d.2 * o.2;
    let along = d.0 * m.0 + d.1 * m.1 + d.2 * m.2;
    let out = d.0 * u.0 + d.1 * u.1 + d.2 * u.2;
    // the direction times the step along the ray
    lemma_scaled_near(d.0, m.0 * s, t * d.0, s);
    lemma_scaled_near(d.1, m.1 * s, t * d.1, s);
    lemma_scaled_near(d.2, m.2 * s, t * d.2, s);
    assert(d.0 * (m.0 * s) == (d.0 * m.0) * s && d.1 * (m.1 * s) == (d.1 * m.1) * s && d.2 * (m.2
        * s) == (d.2 * m.2) * s) by (nonlinear_arith);
    assert(d.0 * (t * d.0) == t * (d.0 * d.0) && d.1 * (t * d.1) == t * (d.1 * d.1) && d.2 * (t
        * d.2) == t * (d.2 * d.2)) by (nonlinear_arith);
    assert(t * squares == t * (d.0 * d.0) + t * (d.1 * d.1) + t * (d.2 * d.2))
        by (nonlinear_arith)
        requires
            squares == d.0 * d.0 + d.1 * d.1 + d.2 * d.2,
    ;
    assert(along * s == (d.0 * m.0) * s + (d.1 * m.1) * s + (d.2 * m.2) * s) by (nonlinear_arith)
        requires
            along == d.0 * m.0 + d.1 * m.1 + d.2 * m.2,
    ;
    assert(size * s == magnitude(d.0) * s + magnitude(d.1) * s + magnitude(d.2) * s)
        by (nonlinear_arith)
        requires
            size == magnitude(d.0) + magnitude(d.1) + magnitude(d.2),
    ;
    assert(along * s >= t * squares - size * s);
    assert(t * squares >= t * (a * s)) by (nonlinear_arith)
        requires
            t >= 0,
            squares >= a * s,
    ;
    assert(t * (a * s) == (t * a) * s) by (nonlinear_arith);
    assert((t * a) * s > ((h + sq) * s - a) * s) by (nonlinear_arith)
        requires
            t * a > (h + sq) * s - a,
            s > 0,
    ;
    assert(((h + sq) * s - a) * s == (h * s) * s + sq * ss - a * s) by (nonlinear_arith)
        requires
            ss == s * s,
    ;
    assert((h * s) * s > (across - 3 * s) * s) by (nonlinear_arith)
        requires
            h * s > across - 3 * s,
            s > 0,
    ;
    assert((across - 3 * s) * s == across * s - 3 * ss) by (nonlinear_arith)
        requires
            ss == s * s,
    ;
    // the direction times the vector from the centre to the hit point
    let toward = along - across;
    assert(toward * s == along * s - across * s) by (nonlinear_arith)
        requires
            toward == along - across,
    ;
    assert(toward * s > sq * ss - 3 * ss - a * s - size * s);
    // the direction times the outward normal
    lemma_scaled_near(d.0, u.0 * r, (m.0 - o.0) * s, r);
    lemma_scaled_near(d.1, u.1 * r, (m.1 - o.1) * s, r);
    lemma_scaled_near(d.2, u.2 * r, (m.2 - o.2) * s, r);
    assert(d.0 * (u.0 * r) == (d.0 * u.0) * r && d.1 * (u.1 * r) == (d.1 * u.1) * r && d.2 * (u.2
        * r) == (d.2 * u.2) * r) by (nonlinear_arith);
    assert(d.0 * ((m.0 - o.0) * s) == (d.0 * m.0) * s - (d.0 * o.0) * s) by (nonlinear_arith);
    assert(d.1 * ((m.1 - o.1) * s) == (d.1 * m.1) * s - (d.1 * o.1) * s) by (nonlinear_arith);
    assert(d.2 * ((m.2 - o.2) * s) == (d.2 * m.2) * s - (d.2 * o.2) * s) by (nonlinear_arith);
    assert(across * s == (d.0 * o.0) * s + (d.1 * o.1) * s + (d.2 * o.2) * s)
        by (nonlinear_arith)
        requires
            across == d.0 * o.0 + d.1 * o.1 + d.2 * o.2,
    ;
    assert(out * r == (d.0 * u.0) * r + (d.1 * u.1) * r + (d.2 * u.2) * r) by (nonlinear_arith)
        requires
            out == d.0 * u.0 + d.1 * u.1 + d.2 * u.2,
    ;
    assert(size * r == magnitude(d.0) * r + magnitude(d.1) * r + magnitude(d.2) * r)
        by (nonlinear_arith)
        requires
            size == magnitude(d.0) + magnitude(d.1) + magnitude(d.2),
    ;
    assert(out * r >= toward * s - size * r);
    if out < 3 * s {
        assert(out * r <= 3 * sr) by (nonlinear_arith)
            requires
                out <= 3 * s,
                r > 0,
                sr == s * r,
        ;
        assert(false);
    }
}

/// The side to which a mirror sends a ray, in whole numbers.
///
/// `v` is the direction of the ray and `n` the normal, at least `0.87`
/// long; `k` is twice their inner product as computed, `w` is `k n` and
/// `v - w` the mirrored direction, `len` its length, a quarter or more; `e`
/// is the mirrored direction scaled to unit length and `p` the products
/// `e n`, each as computed. Where the ray runs against the normal by 256
/// steps for each unit of that length, the inner product of the scaled
/// direction with the normal is above zero.
pub proof fn lemma_mirror_side(
    v: (int, int, int),
    n: (int, int, int),
    k: int,
    w: (int, int, int),
    len: int,
    e: (int, int, int),
    p: (int, int, int),
)
    requires
        -SCALE <= n.0 <= SCALE,
        -SCALE <= n.1 <= SCALE,
        -SCALE <= n.2 <= SCALE,
        4 * (n.0 * n.0 + n.1 * n.1 + n.2 * n.2) >= 3 * SCALE * SCALE,
        k < 0,
        -k * SCALE >= 512 * len,
        2 * (v.0 * n.0 + v.1 * n.1 + v.2 * n.2) > k * SCALE - 6 * SCALE,
        k * n.0 - SCALE < w.0 * SCALE < k * n.0 + SCALE,
        k * n.1 - SCALE < w.1 * SCALE < k * n.1 + SCALE,
        k * n.2 - SCALE < w.2 * SCALE < k * n.2 + SCALE,
        len >= SCALE / 4,
        (v.0 - w.0) * SCALE - 16 * len < e.0 * len < (v.0 - w.0) * SCALE + 16 * len,
        (v.1 - w.1) * SCALE - 16 * len < e.1 * len < (v.1 - w.1) * SCALE + 16 * len,
        (v.2 - w.2) * SCALE - 16 * len < e.2 * len < (v.2 - w.2) * SCALE + 16 * len,
        p.0 * SCALE > e.0 * n.0 - SCALE,
        p.1 * SCALE > e.1 * n.1 - SCALE,
        p.2 * SCALE > e.2 * n.2 - SCALE,
    ensures
        p.0 + p.1 + p.2 > 0,
{
    let s = SCALE as int;
    let ss = s * s;
    assert(ss == 0x1_0000_0000_0000_0000);
    let size = magnitude(n.0) + magnitude(n.1) + magnitude(n.2);
    let squares = n.0 * n.0 + n.1 * n.1 + n.2 * n.2;
    let into = v.0 * n.0 + v.1 * n.1 + v.2 * n.2;
    let back = w.0 * n.0 + w.1 * n.1 + w.2 * n.2;
    let away = (v.0 - w.0) * n.0 + (v.1 - w.1) * n.1 + (v.2 - w.2) * n.2;
    let out = e.0 * n.0 + e.1 * n.1 + e.2 * n.2;
    // the normal times the part of the ray that is turned round
    lemma_scaled_near(n.0, w.0 * s, k * n.0, s);
    lemma_scaled_near(n.1, w.1 * s, k * n.1, s);
    lemma_scaled_near(n.2, w.2 * s, k * n.2, s);
    assert(n.0 * (w.0 * s) == (w.0 * n.0) * s && n.1 * (w.1 * s) == (w.1 * n.1) * s && n.2 * (w.2
        * s) == (w.2 * n.2) * s) by (nonlinear_arith);
    assert(n.0 * (k * n.0) == k * (n.0 * n.0) && n.1 * (k * n.1) == k * (n.1 * n.1) && n.2 * (k
        * n.2) == k * (n.2 * n.2)) by (nonlinear_arith);
    assert(back * s == (w.0 * n.0) * s + (w.1 * n.1) * s + (w.2 * n.2) * s) by (nonlinear_arith)
        requires
            back == w.0 * n.0 + w.1 * n.1 + w.2 * n.2,
    ;
    assert(k * squares == k * (n.0 * n.0) + k * (n.1 * n.1) + k * (n.2 * n.2))
        by (nonlinear_arith)
        requires
            squares == n.0 * n.0 + n.1 * n.1 + n.2 * n.2,
    ;
    assert(size * s <= 3 * ss) by (nonlinear_arith)
        requires
            size <= 3 * s,
            s > 0,
            ss == s * s,
    ;
    assert(back * s <= k * squares + 3 * ss);
    // the normal times the mirrored direction
    assert(away == into - back) by (nonlinear_arith)
        requires
            away == (v.0 - w.0) * n.0 + (v.1 - w.1) * n.1 + (v.2 - w.2) * n.2,
            into == v.0 * n.0 + v.1 * n.1 + v.2 * n.2,
            back == w.0 * n.0 + w.1 * n.1 + w.2 * n.2,
    ;
    assert(away * s == into * s - back * s) by (nonlinear_arith)
        requires
            away == into - back,
    ;
    let ks = k * s;
    assert(2 * (into * s) > ks * s - 6 * ss) by (nonlinear_arith)
        requires
            2 * into > k * s - 6 * s,
            ks == k * s,
            s > 0,
            ss == s * s,
    ;
    assert(4 * (k * squares) <= 3 * (ks * s)) by (nonlinear_arith)
        requires
            4 * squares >= 3 * ss,
            k <= 0,
            ks == k * s,
            ss == s * s,
    ;
    assert(4 * (away * s) > -(ks * s) - 24 * ss);
    let sl = s * len;
    assert(-(ks * s) >= 512 * sl && 24 * ss <= 96 * sl) by (nonlinear_arith)
        requires
            -ks >= 512 * len,
            len >= s / 4,
            sl == s * len,
            ss == s * s,
            s == 0x1_0000_0000,
    ;
    assert(away * s > 104 * sl);
    // the normal times the scaled direction
    lemma_scaled_near(n.0, e.0 * len, (v.0 - w.0) * s, 16 * len);
    lemma_scaled_near(n.1, e.1 * len, (v.1 - w.1) * s, 16 * len);
    lemma_scaled_near(n.2, e.2 * len, (v.2 - w.2) * s, 16 * len);
    assert(n.0 * (e.0 * len) == (e.0 * n.0) * len && n.1 * (e.1 * len) == (e.1 * n.1) * len && n.2
        * (e.2 * len) == (e.2 * n.2) * len) by (nonlinear_arith);
    assert(n.0 * ((v.0 - w.0) * s) == ((v.0 - w.0) * n.0) * s && n.1 * ((v.1 - w.1) * s) == ((v.1
        - w.1) * n.1) * s && n.2 * ((v.2 - w.2) * s) == ((v.2 - w.2) * n.2) * s)
        by (nonlinear_arith);
    assert(out * len == (e.0 * n.0) * len + (e.1 * n.1) * len + (e.2 * n.2) * len)
        by (nonlinear_arith)
        requires
            out == e.0 * n.0 + e.1 * n.1 + e.2 * n.2,
    ;
    assert(away * s == ((v.0 - w.0) * n.0) * s + ((v.1 - w.1) * n.1) * s + ((v.2 - w.2) * n.2)
        * s) by (nonlinear_arith)
        requires
            away == (v.0 - w.0) * n.0 + (v.1 - w.1) * n.1 + (v.2 - w.2) * n.2,
    ;
    assert(magnitude(n.0) * (16 * len) + magnitude(n.1) * (16 * len) + magnitude(n.2) * (16 * len)
        <= 48 * sl) by (nonlinear_arith)
        requires
            magnitude(n.0) <= s,
            magnitude(n.1) <= s,
            magnitude(n.2) <= s,
            len > 0,
            sl == s * len,
    ;
    assert(out * len >= away * s - 48 * sl);
    if out < 3 * s {
        assert(out * len <= 3 * sl) by (nonlinear_arith)
            requires
                out <= 3 * s,
                len > 0,
                sl == s * len,
        ;
        assert(false);
    }
}

/// The character that stands for the digit `d`.
pub open spec fn digit_char(d: int) -> char {
    if d == 0 {
        '0'
    } else if d == 1 {
        '1'
    } else if d == 2 {
        '2'
    } else if d == 3 {
        '3'
    } else if d == 4 {
        '4'
    } else if d == 5 {
        '5'
    } else if d == 6 {
        '6'
    } else if d == 7 {
        '7'
    } else if d == 8 {
        '8'
    } else {
        '9'
    }
}

/// The digits of the whole number `n` in base ten, the highest first.
pub open spec fn decimal(n: nat) -> Seq<char>
    decreases n,
{
    if n < 10 {
        seq![digit_char(n as int)]
    } else {
        decimal(n / 10).push(digit_char((n % 10) as int))
    }
}

/// The digits behind the point of the fraction `rem / 2^32` in base ten, up
/// to the last one that is not zero, and `count` of them at most.
pub open spec fn fraction_digits(rem: nat, count: nat) -> Seq<char>
    decreases count,
{
    if rem == 0 || count == 0 {
        Seq::<char>::empty()
    } else {
        seq![digit_char((rem * 10) as int / (SCALE as int))] + fraction_digits(
            ((rem * 10) as int % (SCALE as int)) as nat,
            (count - 1) as nat,
        )
    }
}

/// The number with the raw value `raw` written out in base ten: a minus
/// sign where it is below zero, the whole part, and where the number is not
/// whole a point and the digits behind it. Thirty-two digits behind the
/// point write any number out exactly.
pub open spec fn fixed_text(raw: int) -> Seq<char> {
    let size = magnitude(raw);
    let sign = if raw < 0 {
        seq!['-']
    } else {
        Seq::<char>::empty()
    };
    let whole = decimal((size / (SCALE as int)) as nat);
    let rest = (size % (SCALE as int)) as nat;
    if rest == 0 {
        sign + whole
    } else {
        sign + whole + seq!['.'] + fraction_digits(rest, 32)
    }
}

/// The text of the digit `d`.
fn digit_text(d: u64) -> (r: &'static str)
    requires
        d < 10,
    ensures
        r@ == seq![digit_char(d as int)],
{
    proof {
        reveal_strlit("0");
        reveal_strlit("1");
        reveal_strlit("2");
        reveal_strlit("3");
        reveal_strlit("4");
        reveal_strlit("5");
        reveal_strlit("6");
        reveal_strlit("7");
        reveal_strlit("8");
        reveal_strlit("9");
    }
    let text = if d == 0 {
        "0"
    } else if d == 1 {
        "1"
    } else if d == 2 {
        "2"
    } else if d == 3 {
        "3"
    } else if d == 4 {
        "4"
    } else if d == 5 {
        "5"
    } else if d == 6 {
        "6"
    } else if d == 7 {
        "7"
    } else if d == 8 {
        "8"
    } else {
        "9"
    };
    assert(text@ =~= seq![digit_char(d as int)]);
    text
}

/// Appends the digits of `n` in base ten.
fn append_decimal(text: &mut String, n: u64)
    ensures
        final(text)@ == old(text)@ + decimal(n as nat),
    decreases n,
{
    if n >= 10 {
        append_decimal(text, n / 10);
    }
    text.append(digit_text(n % 10));
    assert(text@ =~= old(text)@ + decimal(n as nat));
}

/// Appends the digits behind the point of `rem / 2^32`.
fn append_fraction(text: &mut String, rem: u64)
    requires
        rem < SCALE,
    ensures
        final(text)@ == old(text)@ + fraction_digits(rem as nat, 32),
{
    let ghost start = text@;
    let mut rest: u64 = rem;
    let mut count: u32 = 32;
    while rest != 0 && count > 0
        invariant
            rest < SCALE,
            count <= 32,
            text@ + fraction_digits(rest as nat, count as nat) == start + fraction_digits(
                rem as nat,
                32,
            ),
        decreases count,
    {
        let ghost before = text@;
        let scaled: u64 = rest * 10;
        text.append(digit_text(scaled / 0x1_0000_0000));
        rest = scaled % 0x1_0000_0000;
        count = count - 1;
        assert(text@ + fraction_digits(rest as nat, count as nat) =~= before + fraction_digits(
            (scaled / 10) as nat,
            (count + 1) as nat,
        ));
    }
    assert(text@ + fraction_digits(rest as nat, count as nat) =~= text@);
}

/// A fixed-point number: `raw / 2^32`.
#[derive(Clone, Copy, Debug, PartialEq, Eq, Structural)]
pub struct Fixed {
    pub raw: i64,
}

impl View for Fixed {
    type V = int;

    open spec fn view(&self) -> int {
        self.raw as int
    }
}

/// `v` narrowed to 64 bits with saturation.
fn clamp_wide(v: i128) -> (r: i64)
    ensures
        r == saturate(v as int),
{
    if v > RAW_MAX as i128 {
        RAW_MAX
    } else if v < -(RAW_MAX as i128) {
        -RAW_MAX
    } else {
        v as i64
    }
}

/// Absolute value of a 64-bit integer, widened.
fn wide_magnitude(v: i64) -> (r: u128)
    ensures
        r == magnitude(v as int),
{
    if v < 0 {
        (-(v as i128)) as u128
    } else {
        v as u128
    }
}

/// Integer square root by bisection.
fn wide_floor_sqrt(n: u128) -> (r: u128)
    requires
        n < 0x1_0000_0000_0000_0000_0000_0000,
    ensures
        is_floor_sqrt(n as int, r as int),
        r < 0x1_0000_0000_0000,
{
    let mut lo: u128 = 0;
    let mut hi: u128 = 0x1_0000_0000_0000;
    assert(0x1_0000_0000_0000int * 0x1_0000_0000_0000int == 0x1_0000_0000_0000_0000_0000_0000int);
    while hi - lo > 1
        invariant
            lo < hi <= 0x1_0000_0000_0000,
            lo * lo <= n < hi * hi,
        decreases hi - lo,
    {
        let mid: u128 = lo + (hi - lo) / 2;
        assert(mid * mid < 0x1_0000_0000_0000_0000_0000_0000) by (nonlinear_arith)
            requires
                mid < 0x1_0000_0000_0000,
        ;
        if mid * mid <= n {
            lo = mid;
        } else {
            hi = mid;
        }
    }
    lo
}

impl Fixed {
    pub open spec fn spec_from_raw(raw: i64) -> Fixed {
        Fixed { raw }
    }

    /// The number with the given raw value.
    #[verifier::when_used_as_spec(spec_from_raw)]
    pub fn from_raw(raw: i64) -> (r: Fixed)
        ensures
            r == Fixed::spec_from_raw(raw),
    {
        Fixed { raw }
    }

    pub open spec fn spec_zero() -> Fixed {
        Fixed { raw: 0 }
    }

    /// The number zero.
    #[verifier::when_used_as_spec(spec_zero)]
    pub fn zero() -> (r: Fixed)
        ensures
            r == Fixed::spec_zero(),
    {
        Fixed { raw: 0 }
    }

    pub open spec fn spec_one() -> Fixed {
        Fixed { raw: SCALE }
    }

    /// The number one.
    #[verifier::when_used_as_spec(spec_one)]
    pub fn one() -> (r: Fixed)
        ensures
            r == Fixed::spec_one(),
    {
        Fixed { raw: SCALE }
    }

    pub open spec fn spec_infinity() -> Fixed {
        Fixed { raw: RAW_MAX }
    }

    /// The upper bound of the range, used as plus infinity.
    #[verifier::when_used_as_spec(spec_infinity)]
    pub fn infinity() -> (r: Fixed)
        ensures
            r == Fixed::spec_infinity(),
    {
        Fixed { raw: RAW_MAX }
    }

    pub open spec fn spec_neg_infinity() -> Fixed {
        Fixed { raw: RAW_MIN }
    }

    /// The lower bound of the range, used as minus infinity.
    #[verifier::when_used_as_spec(spec_neg_infinity)]
    pub fn neg_infinity() -> (r: Fixed)
        ensures
            r == Fixed::spec_neg_infinity(),
    {
        Fixed { raw: RAW_MIN }
    }

    /// The number written out in base ten, exactly: `-3.25`, `0.5`, `7`.
    pub fn to_text(&self) -> (r: String)
        ensures
            r@ == fixed_text(self@),
    {
        let size: u64 = wide_magnitude(self.raw) as u64;
        let mut text = String::new();
        if self.raw < 0 {
            proof {
                reveal_strlit("-");
            }
            text.append("-");
        }
        append_decimal(&mut text, size / 0x1_0000_0000);
        let rest: u64 = size % 0x1_0000_0000;
        if rest != 0 {
            proof {
                reveal_strlit(".");
            }
            text.append(".");
            append_fraction(&mut text, rest);
        }
        assert(text@ =~= fixed_text(self@));
        text
    }

    /// A number drawn from `[0, 1)`: every fraction of 32 bits can come.
    pub fn random() -> (r: Fixed)
        ensures
            0 <= r@ < SCALE,
    {
        let word: u32 = random_word();
        Fixed { raw: word as i64 }
    }

    /// Whether the number lies in the range that the arithmetic yields,
    /// which is symmetric about zero.
    pub open spec fn proper(self) -> bool {
        RAW_MIN <= self@
    }

    pub open spec fn spec_from_int(i: i32) -> Fixed {
        Fixed { raw: saturate(i * SCALE) as i64 }
    }

    /// The whole number `i`.
    #[verifier::when_used_as_spec(spec_from_int)]
    pub fn from_int(i: i32) -> (r: Fixed)
        ensures
            r == Fixed::spec_from_int(i),
    {
        Fixed { raw: clamp_wide((i as i128) * 0x1_0000_0000) }
    }

    pub open spec fn spec_from_ratio(num: i64, den: i64) -> Fixed {
        Fixed { raw: ratio_raw(num as int, den as int) as i64 }
    }

    /// The fraction `num / den`, rounded toward zero.
    #[verifier::when_used_as_spec(spec_from_ratio)]
    pub fn from_ratio(num: i64, den: i64) -> (r: Fixed)
        ensures
            r == Fixed::spec_from_ratio(num, den),
    {
        Fixed { raw: num }.div(Fixed { raw: den })
    }

    pub open spec fn spec_add(self, rhs: Fixed) -> Fixed {
        Fixed { raw: sum_raw(self@, rhs@) as i64 }
    }

    /// Saturating sum.
    #[verifier::when_used_as_spec(spec_add)]
    pub fn add(self, rhs: Fixed) -> (r: Fixed)
        ensures
            r == self.spec_add(rhs),
    {
        Fixed { raw: clamp_wide(self.raw as i128 + rhs.raw as i128) }
    }

    pub open spec fn spec_sub(self, rhs: Fixed) -> Fixed {
        Fixed { raw: difference_raw(self@, rhs@) as i64 }
    }

    /// Saturating difference.
    #[verifier::when_used_as_spec(spec_sub)]
    pub fn sub(self, rhs: Fixed) -> (r: Fixed)
        ensures
            r == self.spec_sub(rhs),
    {
        Fixed { raw: clamp_wide(self.raw as i128 - rhs.raw as i128) }
    }

    pub open spec fn spec_neg(self) -> Fixed {
        Fixed { raw: saturate(-self@) as i64 }
    }

    /// Saturating negation.
    #[verifier::when_used_as_spec(spec_neg)]
    pub fn neg(self) -> (r: Fixed)
        ensures
            r == self.spec_neg(),
    {
        Fixed { raw: clamp_wide(-(self.raw as i128)) }
    }

    pub open spec fn spec_abs(self) -> Fixed {
        Fixed { raw: saturate(magnitude(self@)) as i64 }
    }

    /// Saturating absolute value.
    #[verifier::when_used_as_spec(spec_abs)]
    pub fn abs(self) -> (r: Fixed)
        ensures
            r == self.spec_abs(),
    {
        if self.raw < 0 {
            self.neg()
        } else {
            self
        }
    }

    pub open spec fn spec_mul(self, rhs: Fixed) -> Fixed {
        Fixed { raw: product_raw(self@, rhs@) as i64 }
    }

    /// Product, rounded toward zero and saturated.
    #[verifier::when_used_as_spec(spec_mul)]
    pub fn mul(self, rhs: Fixed) -> (r: Fixed)
        ensures
            r == self.spec_mul(rhs),
    {
        let a: u128 = wide_magnitude(self.raw);
        let b: u128 = wide_magnitude(rhs.raw);
        assert(a * b <= 0x4000_0000_0000_0000_0000_0000_0000_0000) by (nonlinear_arith)
            requires
                a <= 0x8000_0000_0000_0000,
                b <= 0x8000_0000_0000_0000,
        ;
        assert(a * b == magnitude(self@ * rhs@)) by (nonlinear_arith)
            requires
                a == magnitude(self@),
                b == magnitude(rhs@),
        ;
        assert((self@ * rhs@ < 0) == ((self.raw < 0) != (rhs.raw < 0) && a * b != 0))
            by (nonlinear_arith)
            requires
                a == magnitude(self@),
                b == magnitude(rhs@),
        ;
        let q: u128 = (a * b) / 0x1_0000_0000;
        let negative: bool = (self.raw < 0) != (rhs.raw < 0);
        if negative {
            Fixed { raw: clamp_wide(-(q as i128)) }
        } else {
            Fixed { raw: clamp_wide(q as i128) }
        }
    }

    pub open spec fn spec_div(self, rhs: Fixed) -> Fixed {
        Fixed { raw: ratio_raw(self@, rhs@) as i64 }
    }

    /// Quotient, rounded toward zero and saturated. Dividing by zero gives
    /// the bound of the range that has the sign of `self`, and zero for zero.
    #[verifier::when_used_as_spec(spec_div)]
    pub fn div(self, rhs: Fixed) -> (r: Fixed)
        ensures
            r == self.spec_div(rhs),
    {
        if rhs.raw == 0 {
            if self.raw > 0 {
                Fixed { raw: RAW_MAX }
            } else if self.raw < 0 {
                Fixed { raw: -RAW_MAX }
            } else {
                Fixed { raw: 0 }
            }
        } else {
            let a: u128 = wide_magnitude(self.raw);
            let b: u128 = wide_magnitude(rhs.raw);
            let n: u128 = a * 0x1_0000_0000;
            let q: u128 = n / b;
            assert(q <= n) by (nonlinear_arith)
                requires
                    q == n / b,
                    b >= 1,
            ;
            let negative: bool = (self.raw < 0) != (rhs.raw < 0);
            if negative {
                Fixed { raw: clamp_wide(-(q as i128)) }
            } else {
                Fixed { raw: clamp_wide(q as i128) }
            }
        }
    }

    pub open spec fn spec_sqrt(self) -> Fixed {
        Fixed { raw: root_raw(self@) as i64 }
    }

    /// Square root, rounded down. The root of a number below zero is zero.
    #[verifier::when_used_as_spec(spec_sqrt)]
    pub fn sqrt(self) -> (r: Fixed)
        ensures
            r == self.spec_sqrt(),
            r.raw >= 0,
    {
        if self.raw <= 0 {
            Fixed { raw: 0 }
        } else {
            let n: u128 = (self.raw as u128) * 0x1_0000_0000;
            let root: u128 = wide_floor_sqrt(n);
            proof {
                lemma_floor_sqrt_is(n as int, root as int);
            }
            Fixed { raw: root as i64 }
        }
    }

    pub open spec fn spec_trunc(self) -> i64 {
        quotient(self@, SCALE as int) as i64
    }

    /// The whole part, rounded toward zero.
    #[verifier::when_used_as_spec(spec_trunc)]
    pub fn trunc(self) -> (r: i64)
        ensures
            r == self.spec_trunc(),
            -0x8000_0000 <= r <= 0x7fff_ffff,
            self@ >= 0 ==> r >= 0,
    {
        let a: u128 = wide_magnitude(self.raw);
        let q: u128 = a / 0x1_0000_0000;
        if self.raw < 0 {
            -(q as i64)
        } else {
            q as i64
        }
    }

    pub open spec fn spec_lt(self, rhs: Fixed) -> bool {
        self@ < rhs@
    }

    /// Whether `self` is below `rhs`.
    #[verifier::when_used_as_spec(spec_lt)]
    pub fn lt(self, rhs: Fixed) -> (r: bool)
        ensures
            r == (self@ < rhs@),
    {
        self.raw < rhs.raw
    }

    pub open spec fn spec_le(self, rhs: Fixed) -> bool {
        self@ <= rhs@
    }

    /// Whether `self` is at most `rhs`.
    #[verifier::when_used_as_spec(spec_le)]
    pub fn le(self, rhs: Fixed) -> (r: bool)
        ensures
            r == (self@ <= rhs@),
    {
        self.raw <= rhs.raw
    }

    pub open spec fn spec_min(self, rhs: Fixed) -> Fixed {
        if self@ <= rhs@ {
            self
        } else {
            rhs
        }
    }

    /// The smaller of the two.
    #[verifier::when_used_as_spec(spec_min)]
    pub fn min(self, rhs: Fixed) -> (r: Fixed)
        ensures
            r == self.spec_min(rhs),
    {
        if self.raw <= rhs.raw {
            self
        } else {
            rhs
        }
    }

    pub open spec fn spec_max(self, rhs: Fixed) -> Fixed {
        if self@ >= rhs@ {
            self
        } else {
            rhs
        }
    }

    /// The larger of the two.
    #[verifier::when_used_as_spec(spec_max)]
    pub fn max(self, rhs: Fixed) -> (r: Fixed)
        ensures
            r == self.spec_max(rhs),
    {
        if self.raw >= rhs.raw {
            self
        } else {
            rhs
        }
    }
}

impl Fixed {
    /// A square root is not below zero and below `2^16`.
    pub proof fn lemma_sqrt_bounds(self)
        ensures
            0 <= self.sqrt()@ < 0x1_0000_0000_0000,
            self@ > 0 ==> is_floor_sqrt(self@ * SCALE, self.sqrt()@),
    {
        if self@ > 0 {
            let n = self@ * SCALE;
            let r = lemma_floor_sqrt_exists(n);
            if r >= 0x1_0000_0000_0000 {
                assert(r * r >= 0x1_0000_0000_0000 * 0x1_0000_0000_0000) by (nonlinear_arith)
                    requires
                        r >= 0x1_0000_0000_0000,
                ;
            }
        }
    }

    /// The square root of a number that is at least one is at least one.
    pub proof fn lemma_sqrt_at_least_one(self)
        requires
            self@ >= SCALE,
        ensures
            self.sqrt()@ >= SCALE,
    {
        self.lemma_sqrt_bounds();
        let r = self.sqrt()@;
        if r < SCALE {
            assert((r + 1) * (r + 1) <= SCALE * SCALE) by (nonlinear_arith)
                requires
                    0 <= r,
                    r + 1 <= SCALE,
            ;
            assert(SCALE * SCALE <= self@ * SCALE) by (nonlinear_arith)
                requires
                    self@ >= SCALE,
            ;
        }
    }

    /// The product with a negated number is the negated product.
    pub proof fn lemma_mul_neg(self, rhs: Fixed)
        requires
            rhs.proper(),
        ensures
            self.mul(rhs.neg()) == self.mul(rhs).neg(),
            self.mul(rhs).proper(),
    {
        assert(self@ * (-rhs@) == -(self@ * rhs@)) by (nonlinear_arith);
    }

    /// One is the unit of the product.
    pub proof fn lemma_mul_one(self)
        requires
            self.proper(),
        ensures
            Fixed::one().mul(self) == self,
            self.mul(Fixed::one()) == self,
    {
        let m = magnitude(self@);
        assert(magnitude(SCALE * self@) == m * SCALE && magnitude(self@ * SCALE) == m * SCALE && (
        SCALE * self@ < 0) == (self@ < 0) && (self@ * SCALE < 0) == (self@ < 0))
            by (nonlinear_arith)
            requires
                m == magnitude(self@),
                SCALE == 0x1_0000_0000,
        ;
        assert((m * SCALE) / (SCALE as int) == m) by (nonlinear_arith)
            requires
                SCALE == 0x1_0000_0000,
        ;
    }

    /// The square root of a number that is at most one is at most one.
    pub proof fn lemma_sqrt_at_most_one(self)
        requires
            self@ <= SCALE,
        ensures
            self.sqrt()@ <= SCALE,
    {
        self.lemma_sqrt_bounds();
        let r = self.sqrt()@;
        if self@ > 0 && r > SCALE {
            assert(r * r > SCALE * SCALE) by (nonlinear_arith)
                requires
                    r > SCALE,
                    SCALE > 0,
            ;
            assert(self@ * SCALE <= SCALE * SCALE) by (nonlinear_arith)
                requires
                    self@ <= SCALE,
                    SCALE > 0,
            ;
        }
    }

    /// The square root is zero exactly for the numbers that are not above
    /// zero; the root of any other number is at least `2^-16`.
    pub proof fn lemma_sqrt_is_zero(self)
        ensures
            self.sqrt()@ == 0 <==> self@ <= 0,
            self@ > 0 ==> self.sqrt()@ >= 0x1_0000,
    {
        self.lemma_sqrt_bounds();
        let r = self.sqrt()@;
        if self@ > 0 && r < 0x1_0000 {
            assert((r + 1) * (r + 1) <= 0x1_0000_0000) by (nonlinear_arith)
                requires
                    0 <= r < 0x1_0000,
            ;
            assert(self@ * SCALE >= SCALE) by (nonlinear_arith)
                requires
                    self@ >= 1,
                    SCALE > 0,
            ;
        }
    }

    /// A product that does not leave the range is within one step of the
    /// exact product, on the side of zero.
    pub proof fn lemma_mul_near(self, rhs: Fixed)
        requires
            magnitude(self@ * rhs@) <= RAW_MAX * SCALE,
        ensures
            self@ * rhs@ - SCALE < self.mul(rhs)@ * SCALE < self@ * rhs@ + SCALE,
            magnitude(self.mul(rhs)@) * SCALE <= magnitude(self@ * rhs@),
            self@ * rhs@ >= 0 ==> 0 <= self.mul(rhs)@ && self.mul(rhs)@ * SCALE <= self@ * rhs@,
            self@ * rhs@ <= 0 ==> self.mul(rhs)@ <= 0 && self.mul(rhs)@ * SCALE >= self@ * rhs@,
    {
        let n = magnitude(self@ * rhs@);
        let q = n / (SCALE as int);
        assert(0 <= q && q * SCALE <= n < (q + 1) * SCALE) by (nonlinear_arith)
            requires
                0 <= n,
                q == n / (SCALE as int),
                SCALE == 0x1_0000_0000,
        ;
        assert(q <= RAW_MAX) by (nonlinear_arith)
            requires
                q * SCALE <= n,
                n <= RAW_MAX * SCALE,
                SCALE == 0x1_0000_0000,
        ;
    }

    /// A quotient by a number above zero that does not leave the range is
    /// within one step of the exact quotient, on the side of zero.
    pub proof fn lemma_div_near(self, rhs: Fixed)
        requires
            rhs@ > 0,
            magnitude(self@) * SCALE <= RAW_MAX * rhs@,
        ensures
            self@ * SCALE - rhs@ < self.div(rhs)@ * rhs@ < self@ * SCALE + rhs@,
            self@ >= 0 ==> 0 <= self.div(rhs)@ && self.div(rhs)@ * rhs@ <= self@ * SCALE,
            self@ <= 0 ==> self.div(rhs)@ <= 0 && self.div(rhs)@ * rhs@ >= self@ * SCALE,
    {
        let m = magnitude(self@);
        let n = m * SCALE;
        assert(magnitude(self@ * SCALE) == n && (self@ * SCALE < 0) == (self@ < 0) && (self@ < 0
            ==> self@ * SCALE == -n) && (self@ >= 0 ==> self@ * SCALE == n)) by (nonlinear_arith)
            requires
                m == magnitude(self@),
                n == m * SCALE,
                SCALE == 0x1_0000_0000,
        ;
        let q = n / rhs@;
        assert(0 <= q && q * rhs@ <= n < (q + 1) * rhs@) by (nonlinear_arith)
            requires
                0 <= n,
                rhs@ > 0,
                q == n / rhs@,
        ;
        assert(q <= RAW_MAX) by (nonlinear_arith)
            requires
                q * rhs@ <= n,
                n <= RAW_MAX * rhs@,
                rhs@ > 0,
                q >= 0,
        ;
        assert((q + 1) * rhs@ == q * rhs@ + rhs@) by (nonlinear_arith);
        let v = self.div(rhs)@;
        assert(v == (if self@ < 0 {
            -q
        } else {
            q
        }));
        assert(v * rhs@ == (if self@ < 0 {
            -(q * rhs@)
        } else {
            q * rhs@
        })) by (nonlinear_arith)
            requires
                v == (if self@ < 0 {
                    -q
                } else {
                    q
                }),
        ;
    }

    /// A square is not below zero.
    pub proof fn lemma_square_nonneg(self)
        ensures
            self.mul(self)@ >= 0,
    {
        assert(self@ * self@ >= 0) by (nonlinear_arith);
        lemma_div_pos_is_pos(self@ * self@, SCALE as int);
    }

    /// Subtracting a number that is not below zero gives no more than adding
    /// it.
    pub proof fn lemma_sub_le_add(self, s: Fixed)
        requires
            s@ >= 0,
        ensures
            self.sub(s)@ <= self.add(s)@,
    {
    }

    /// The quotient grows with the dividend, for a divisor not below zero.
    pub proof fn lemma_div_monotone(self, other: Fixed, d: Fixed)
        requires
            self@ <= other@,
            d@ >= 0,
        ensures
            self.div(d)@ <= other.div(d)@,
    {
        if d@ > 0 {
            lemma_quotient_monotone(self@ * SCALE, other@ * SCALE, d@);
        }
    }
}

} // verus!
