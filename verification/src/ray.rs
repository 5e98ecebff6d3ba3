//! Rays: a start point, a direction and the moment at which the ray is cast.

use crate::fixed::Fixed;
use crate::vec3::Vec3;
use vstd::prelude::*;

verus! {

/// The points `origin + t * direction`. `time` lies in `[0, 1]` and selects
/// where a moving object stands when the ray meets it.
#[derive(Clone, Copy, Debug, PartialEq, Eq, Structural)]
pub struct Ray {
    pub origin: Vec3,
    pub direction: Vec3,
    pub time: Fixed,
}

impl Ray {
    pub open spec fn spec_new(origin: Vec3, direction: Vec3, time: Fixed) -> Ray {
        Ray { origin, direction, time }
    }

    #[verifier::when_used_as_spec(spec_new)]
    pub fn new(origin: Vec3, direction: Vec3, time: Fixed) -> (r: Ray)
        ensures
            r == Ray::spec_new(origin, direction, time),
    {
        Ray { origin, direction, time }
    }

    /// The ray with its origin moved by `shift`.
    pub open spec fn moved(&self, shift: Vec3) -> Ray {
        Ray { origin: self.origin.add(shift), ..*self }
    }

    pub open spec fn spec_at(&self, t: Fixed) -> Vec3 {
        self.origin.add(self.direction.scale(t))
    }

    /// The point at parameter `t`: `origin + t * direction`.
    #[verifier::when_used_as_spec(spec_at)]
    pub fn at(&self, t: Fixed) -> (r: Vec3)
        ensures
            r == self.spec_at(t),
    {
        self.origin.add(self.direction.scale(t))
    }
}

} // verus!
