//! Axis-aligned boxes and the slab test of a ray against one.

use crate::fixed::Fixed;
use crate::interval::Interval;
use crate::ray::Ray;
use crate::vec3::Vec3;
use vstd::prelude::*;

verus! {

#[derive(Clone, Copy, Debug, PartialEq, Eq, Structural)]
pub enum Axis {
    X,
    Y,
    Z,
}

impl Axis {
    /// The three axes in order.
    pub fn all() -> (r: Vec<Axis>)
        ensures
            r@ == seq![Axis::X, Axis::Y, Axis::Z],
    {
        let mut axes: Vec<Axis> = Vec::new();
        axes.push(Axis::X);
        axes.push(Axis::Y);
        axes.push(Axis::Z);
        axes
    }
}

/// A box given by its extent on each axis.
#[derive(Clone, Copy, Debug, PartialEq, Eq, Structural)]
pub struct AABB {
    pub x: Interval,
    pub y: Interval,
    pub z: Interval,
}

/// The range between `a` and `b`, whichever is smaller.
pub open spec fn spec_ordered(a: Fixed, b: Fixed) -> Interval {
    if a@ <= b@ {
        Interval { min: a, max: b }
    } else {
        Interval { min: b, max: a }
    }
}

#[verifier::when_used_as_spec(spec_ordered)]
pub fn ordered(a: Fixed, b: Fixed) -> (r: Interval)
    ensures
        r == spec_ordered(a, b),
        r.min@ <= r.max@,
{
    if a.raw <= b.raw {
        Interval::new(a, b)
    } else {
        Interval::new(b, a)
    }
}

impl AABB {
    pub open spec fn spec_new(x: Interval, y: Interval, z: Interval) -> AABB {
        AABB { x, y, z }
    }

    #[verifier::when_used_as_spec(spec_new)]
    pub fn new(x: Interval, y: Interval, z: Interval) -> (r: AABB)
        ensures
            r == AABB::spec_new(x, y, z),
    {
        AABB { x, y, z }
    }

    pub open spec fn spec_from_points(a: Vec3, b: Vec3) -> AABB {
        AABB { x: ordered(a.x, b.x), y: ordered(a.y, b.y), z: ordered(a.z, b.z) }
    }

    /// The smallest box that holds the two corner points.
    #[verifier::when_used_as_spec(spec_from_points)]
    pub fn from_points(a: Vec3, b: Vec3) -> (r: AABB)
        ensures
            r == AABB::spec_from_points(a, b),
            r.x.contains(a.x) && r.x.contains(b.x),
            r.y.contains(a.y) && r.y.contains(b.y),
            r.z.contains(a.z) && r.z.contains(b.z),
    {
        AABB { x: ordered(a.x, b.x), y: ordered(a.y, b.y), z: ordered(a.z, b.z) }
    }

    pub open spec fn spec_axis_interval(&self, axis: Axis) -> Interval {
        match axis {
            Axis::X => self.x,
            Axis::Y => self.y,
            Axis::Z => self.z,
        }
    }

    /// The extent of the box along `axis`.
    #[verifier::when_used_as_spec(spec_axis_interval)]
    pub fn axis_interval(&self, axis: Axis) -> (r: Interval)
        ensures
            r == self.spec_axis_interval(axis),
    {
        match axis {
            Axis::X => self.x,
            Axis::Y => self.y,
            Axis::Z => self.z,
        }
    }

    /// The parameter range `ray_t` cut down to the stretch on which `ray`
    /// runs between the two planes that bound the box along `axis`.
    pub open spec fn spec_narrow(&self, ray: Ray, axis: Axis, ray_t: Interval) -> Interval {
        let ax = self.axis_interval(axis);
        let adinv = Fixed::one().div(ray.direction.get_axis(axis));
        let t0 = ax.min.sub(ray.origin.get_axis(axis)).mul(adinv);
        let t1 = ax.max.sub(ray.origin.get_axis(axis)).mul(adinv);
        if t0@ < t1@ {
            Interval {
                min: if t0@ > ray_t.min@ { t0 } else { ray_t.min },
                max: if t1@ < ray_t.max@ { t1 } else { ray_t.max },
            }
        } else {
            Interval {
                min: if t0@ > ray_t.min@ { t1 } else { ray_t.min },
                max: if t1@ < ray_t.max@ { t0 } else { ray_t.max },
            }
        }
    }

    #[verifier::when_used_as_spec(spec_narrow)]
    pub fn narrow(&self, ray: Ray, axis: Axis, ray_t: Interval) -> (r: Interval)
        ensures
            r == self.spec_narrow(ray, axis, ray_t),
    {
        let ax = self.axis_interval(axis);
        let adinv = Fixed::one().div(ray.direction.get_axis(axis));
        let t0 = ax.min.sub(ray.origin.get_axis(axis)).mul(adinv);
        let t1 = ax.max.sub(ray.origin.get_axis(axis)).mul(adinv);
        let mut out = ray_t;
        if t0.raw < t1.raw {
            if t0.raw > ray_t.min.raw {
                out.min = t0;
            }
            if t1.raw < ray_t.max.raw {
                out.max = t1;
            }
        } else {
            if t0.raw > ray_t.min.raw {
                out.min = t1;
            }
            if t1.raw < ray_t.max.raw {
                out.max = t0;
            }
        }
        out
    }

    /// The range after the first `n` axes have cut it down, stopping at the
    /// first axis that leaves `max <= min`.
    pub open spec fn narrowed(&self, ray: Ray, ray_t: Interval, n: nat) -> Interval
        decreases n,
    {
        if n == 0 {
            ray_t
        } else {
            let before = self.narrowed(ray, ray_t, (n - 1) as nat);
            if n > 1 && before.max@ <= before.min@ {
                before
            } else {
                self.narrow(ray, AABB::axis_at(n - 1), before)
            }
        }
    }

    /// The axis visited at step `i`.
    pub open spec fn axis_at(i: int) -> Axis {
        if i == 0 {
            Axis::X
        } else if i == 1 {
            Axis::Y
        } else {
            Axis::Z
        }
    }

    /// Slab test. The range `ray_t` is cut down axis by axis, in the order
    /// X, Y, Z; as soon as it has `max <= min` the ray misses and the range
    /// stays as that axis left it.
    pub fn hit(&self, ray: Ray, ray_t: &mut Interval) -> (r: bool)
        ensures
            *final(ray_t) == self.narrowed(ray, *old(ray_t), 3),
            r == (final(ray_t).max@ > final(ray_t).min@),
    {
        let axes = Axis::all();
        let mut i: usize = 0;
        while i < 3
            invariant
                i <= 3,
                axes@ == seq![Axis::X, Axis::Y, Axis::Z],
                *ray_t == self.narrowed(ray, *old(ray_t), i as nat),
                i > 0 ==> ray_t.max@ > ray_t.min@,
            decreases 3 - i,
        {
            let axis = axes[i];
            assert(axis == AABB::axis_at(i as int));
            *ray_t = self.narrow(ray, axis, *ray_t);
            proof {
                reveal_with_fuel(AABB::narrowed, 4);
            }
            if ray_t.max.raw <= ray_t.min.raw {
                return false;
            }
            i = i + 1;
        }
        true
    }
}

} // verus!
