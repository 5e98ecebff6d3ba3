//! Ranges of numbers, used for admissible hit distances and for clamping
//! colour channels.

use crate::fixed::{Fixed, RAW_MIN};
use vstd::prelude::*;

verus! {

/// The range from `min` to `max`. Nothing requires `min <= max`: a range with
/// `min > max` is empty.
#[derive(Clone, Copy, Debug, PartialEq, Eq, Structural)]
pub struct Interval {
    pub min: Fixed,
    pub max: Fixed,
}

impl Interval {
    pub fn new(min: Fixed, max: Fixed) -> (r: Interval)
        ensures
            r == (Interval { min, max }),
    {
        Interval { min, max }
    }

    pub open spec fn spec_empty() -> Interval {
        Interval { min: Fixed::infinity(), max: Fixed::neg_infinity() }
    }

    /// The range that holds nothing: from plus infinity to minus infinity.
    #[verifier::when_used_as_spec(spec_empty)]
    pub fn empty() -> (r: Interval)
        ensures
            r == Interval::spec_empty(),
    {
        Interval { min: Fixed::infinity(), max: Fixed::neg_infinity() }
    }

    pub open spec fn spec_universe() -> Interval {
        Interval { min: Fixed::neg_infinity(), max: Fixed::infinity() }
    }

    /// The range that holds everything: from minus infinity to plus infinity.
    #[verifier::when_used_as_spec(spec_universe)]
    pub fn universe() -> (r: Interval)
        ensures
            r == Interval::spec_universe(),
    {
        Interval { min: Fixed::neg_infinity(), max: Fixed::infinity() }
    }

    pub open spec fn spec_size(&self) -> Fixed {
        self.max.sub(self.min)
    }

    /// `max - min`.
    #[verifier::when_used_as_spec(spec_size)]
    pub fn size(&self) -> (r: Fixed)
        ensures
            r == self.spec_size(),
    {
        self.max.sub(self.min)
    }

    pub open spec fn spec_contains(&self, x: Fixed) -> bool {
        self.min@ <= x@ <= self.max@
    }

    /// Whether `x` lies in the range, bounds included.
    #[verifier::when_used_as_spec(spec_contains)]
    pub fn contains(&self, x: Fixed) -> (r: bool)
        ensures
            r == self.spec_contains(x),
    {
        self.min.raw <= x.raw && x.raw <= self.max.raw
    }

    pub open spec fn spec_surrounds(&self, x: Fixed) -> bool {
        self.min@ < x@ < self.max@
    }

    /// Whether `x` lies strictly between the bounds.
    #[verifier::when_used_as_spec(spec_surrounds)]
    pub fn surrounds(&self, x: Fixed) -> (r: bool)
        ensures
            r == self.spec_surrounds(x),
    {
        self.min.raw < x.raw && x.raw < self.max.raw
    }

    pub open spec fn spec_clamp(&self, x: Fixed) -> Fixed {
        self.min.max(x.min(self.max))
    }

    /// `x` moved into the range: the larger of `min` and the smaller of `x`
    /// and `max`. On a range with `min <= max` that is `x` where the range
    /// contains it and the nearer bound elsewhere; on a range with
    /// `min > max`, which contains nothing, it is `min`.
    #[verifier::when_used_as_spec(spec_clamp)]
    pub fn clamp(&self, x: Fixed) -> (r: Fixed)
        ensures
            r == self.spec_clamp(x),
            self.min@ <= self.max@ ==> self.spec_contains(r),
            self.spec_contains(x) ==> r == x,
            x@ < self.min@ || self.min@ > self.max@ ==> r == self.min,
            self.min@ <= self.max@ < x@ ==> r == self.max,
    {
        self.min.max(x.min(self.max))
    }

    pub open spec fn spec_expand(&self, delta: Fixed) -> Interval {
        let padding = delta.div(Fixed::from_int(2));
        Interval { min: self.min.sub(padding), max: self.max.add(padding) }
    }

    /// The range grown by `delta / 2` on each side.
    #[verifier::when_used_as_spec(spec_expand)]
    pub fn expand(&self, delta: Fixed) -> (r: Interval)
        ensures
            r == self.spec_expand(delta),
    {
        let padding = delta.div(Fixed::from_int(2));
        Interval::new(self.min.sub(padding), self.max.add(padding))
    }

    /// Clamping twice is clamping once, on every range.
    pub proof fn lemma_clamp_idempotent(self, x: Fixed)
        ensures
            self.clamp(self.clamp(x)) == self.clamp(x),
    {
    }

    /// What the range surrounds it contains.
    pub proof fn lemma_surrounds_contains(self, x: Fixed)
        requires
            self.surrounds(x),
        ensures
            self.contains(x),
    {
    }

    /// The empty range contains nothing and surrounds nothing.
    pub proof fn lemma_empty_holds_nothing(x: Fixed)
        ensures
            !Interval::empty().contains(x),
            !Interval::empty().surrounds(x),
    {
    }

    /// The universe contains every number that saturating arithmetic yields.
    pub proof fn lemma_universe_holds_all(x: Fixed)
        requires
            RAW_MIN <= x@,
        ensures
            Interval::universe().contains(x),
    {
    }
}

impl Default for Interval {
    /// The universe.
    fn default() -> (r: Interval)
        ensures
            r == Interval::spec_universe(),
    {
        Interval::universe()
    }
}

} // verus!
