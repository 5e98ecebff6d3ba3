//! What a ray can hit: the record of a hit, the query that every shape
//! answers, and the scene as a list of shapes.

use crate::fixed::Fixed;
use crate::interval::Interval;
use crate::material::Material;
use crate::ray::Ray;
use crate::sphere::Sphere;
use crate::vec3::Vec3;
use vstd::prelude::*;

verus! {

/// Where and how a ray met a surface.
#[derive(Clone, Copy, Debug, PartialEq, Eq, Structural)]
pub struct HitRecord {
    /// The point of the hit.
    pub point: Vec3,
    /// The surface normal at the point, turned against the ray.
    pub normal: Vec3,
    /// The ray parameter of the hit.
    pub t: Fixed,
    /// Whether the ray came from outside the surface.
    pub front_face: bool,
    /// The material of the surface.
    pub material: Material,
}

impl HitRecord {
    pub open spec fn spec_face_normal(self, ray: &Ray, outward_vector: Vec3) -> HitRecord {
        let front_face = ray.direction.dot(&outward_vector)@ < 0;
        HitRecord {
            front_face,
            normal: if front_face {
                outward_vector
            } else {
                outward_vector.neg()
            },
            ..self
        }
    }

    /// Sets `front_face` and `normal` from the outward normal of the surface:
    /// the ray comes from outside when it runs against the outward normal,
    /// and the stored normal is the outward one or its negation, whichever
    /// opposes the ray.
    pub fn set_face_normal(&mut self, ray: &Ray, outward_vector: Vec3)
        ensures
            *final(self) == old(self).spec_face_normal(ray, outward_vector),
            final(self).front_face == (ray.direction.dot(&outward_vector)@ < 0),
            final(self).normal == outward_vector || final(self).normal == outward_vector.neg(),
            outward_vector.proper() ==> ray.direction.dot(&final(self).normal)@ <= 0,
    {
        proof {
            if outward_vector.proper() {
                ray.direction.lemma_dot_neg(&outward_vector);
            }
        }
        self.front_face = ray.direction.dot(&outward_vector).raw < 0;
        self.normal = if self.front_face {
            outward_vector
        } else {
            outward_vector.neg()
        };
    }
}

/// A shape that a ray can hit.
pub trait Hittable {
    /// The hit of `ray` on the shape with the smallest parameter strictly
    /// inside `ray_t`, if there is one.
    spec fn spec_hit(&self, ray: &Ray, ray_t: Interval) -> Option<HitRecord>;

    fn hit(&self, ray: &Ray, ray_t: Interval) -> (r: Option<HitRecord>)
        ensures
            r == self.spec_hit(ray, ray_t),
            r matches Some(rec) ==> ray_t.surrounds(rec.t),
    ;
}

/// The scene: shapes in the order in which they were added.
pub struct HittableList {
    pub objects: Vec<Sphere>,
}

impl HittableList {
    /// The empty scene.
    pub fn new() -> (r: HittableList)
        ensures
            r.objects@ == Seq::<Sphere>::empty(),
    {
        HittableList { objects: Vec::new() }
    }

    /// Adds `object` behind the shapes that are there.
    pub fn add(&mut self, object: Sphere)
        ensures
            final(self).objects@ == old(self).objects@.push(object),
    {
        self.objects.push(object);
    }

    /// Removes every shape.
    pub fn clear(&mut self)
        ensures
            final(self).objects@ == Seq::<Sphere>::empty(),
    {
        self.objects.clear();
    }

    /// Whether every surface of the scene absorbs every ray.
    pub open spec fn absorbs_every_ray(&self) -> bool {
        forall|i: int|
            0 <= i < self.objects@.len() ==> (#[trigger] self.objects@[i]).material is Absorbing
    }

    /// Whether every material of the scene has a tint in `[0, 1]`.
    pub open spec fn tints_in_range(&self) -> bool {
        forall|i: int|
            0 <= i < self.objects@.len() ==> (#[trigger] self.objects@[i]).material.tint_in_range()
    }

    /// The upper bound with which the next shape is asked: the parameter of
    /// the best hit so far, or the upper bound of the range.
    pub open spec fn bound_after(best: Option<HitRecord>, ray_t: Interval) -> Fixed {
        match best {
            Some(rec) => rec.t,
            None => ray_t.max,
        }
    }

    /// The hit that a walk over `objects` ends with: each shape is asked
    /// with the range cut at the best hit so far, and its hit, if it has
    /// one, becomes the best.
    pub open spec fn closest_of(objects: Seq<Sphere>, ray: &Ray, ray_t: Interval) -> Option<
        HitRecord,
    >
        decreases objects.len(),
    {
        if objects.len() == 0 {
            None
        } else {
            let before = HittableList::closest_of(objects.drop_last(), ray, ray_t);
            let bound = HittableList::bound_after(before, ray_t);
            match objects.last().spec_hit(ray, Interval { min: ray_t.min, max: bound }) {
                Some(rec) => Some(rec),
                None => before,
            }
        }
    }

    /// The walk finds the nearest hit. It ends with nothing exactly when no
    /// shape is hit within `ray_t`. Otherwise it ends with the hit of one of
    /// the shapes within `ray_t`, and no shape has a hit within `ray_t` with
    /// a smaller parameter.
    pub proof fn lemma_closest_is_nearest(objects: Seq<Sphere>, ray: &Ray, ray_t: Interval)
        ensures
            HittableList::closest_of(objects, ray, ray_t) is None <==> forall|i: int|
                0 <= i < objects.len() ==> (#[trigger] objects[i]).spec_hit(ray, ray_t) is None,
            HittableList::closest_of(objects, ray, ray_t) matches Some(rec) ==> {
                &&& ray_t.surrounds(rec.t)
                &&& exists|k: int|
                    0 <= k < objects.len() && (#[trigger] objects[k]).spec_hit(ray, ray_t) == Some(
                        rec,
                    )
                &&& forall|i: int|
                    0 <= i < objects.len() ==> ((#[trigger] objects[i]).spec_hit(
                        ray,
                        ray_t,
                    ) matches Some(other) ==> rec.t@ <= other.t@)
            },
        decreases objects.len(),
    {
        if objects.len() > 0 {
            let front = objects.drop_last();
            let before = HittableList::closest_of(front, ray, ray_t);
            let bound = HittableList::bound_after(before, ray_t);
            HittableList::lemma_closest_is_nearest(front, ray, ray_t);
            objects.last().lemma_narrowing(ray, ray_t, bound);
            objects.last().lemma_hit_within(ray, ray_t);
            assert forall|i: int| 0 <= i < front.len() implies front[i] == objects[i] by {}
            let result = HittableList::closest_of(objects, ray, ray_t);
            match result {
                Some(rec) => {
                    if objects.last().spec_hit(ray, ray_t) == Some(rec) {
                        assert(objects[objects.len() - 1].spec_hit(ray, ray_t) == Some(rec));
                    } else {
                        let k = choose|k: int|
                            0 <= k < front.len() && (#[trigger] front[k]).spec_hit(ray, ray_t)
                                == Some(rec);
                        assert(objects[k].spec_hit(ray, ray_t) == Some(rec));
                    }
                    assert forall|i: int| 0 <= i < objects.len() implies ((
                    #[trigger] objects[i]).spec_hit(ray, ray_t) matches Some(other) ==> rec.t@
                        <= other.t@) by {
                        if i < front.len() {
                            assert(front[i] == objects[i]);
                        }
                    }
                },
                None => {
                    assert forall|i: int| 0 <= i < objects.len() implies (
                    #[trigger] objects[i]).spec_hit(ray, ray_t) is None by {
                        if i < front.len() {
                            assert(front[i] == objects[i]);
                        }
                    }
                },
            }
        }
    }
}

impl Hittable for HittableList {
    open spec fn spec_hit(&self, ray: &Ray, ray_t: Interval) -> Option<HitRecord> {
        HittableList::closest_of(self.objects@, ray, ray_t)
    }

    fn hit(&self, ray: &Ray, ray_t: Interval) -> (r: Option<HitRecord>) {
        let mut closest_so_far = ray_t.max;
        let mut hit_anything: Option<HitRecord> = None;
        let mut i: usize = 0;
        while i < self.objects.len()
            invariant
                i <= self.objects.len(),
                hit_anything == HittableList::closest_of(
                    self.objects@.subrange(0, i as int),
                    ray,
                    ray_t,
                ),
                closest_so_far == HittableList::bound_after(hit_anything, ray_t),
            decreases self.objects.len() - i,
        {
            let ghost seen = self.objects@.subrange(0, i as int);
            let ghost next = self.objects@.subrange(0, i + 1);
            assert(next.drop_last() == seen);
            assert(next.last() == self.objects@[i as int]);
            match self.objects[i].hit(ray, Interval::new(ray_t.min, closest_so_far)) {
                Some(rec) => {
                    closest_so_far = rec.t;
                    hit_anything = Some(rec);
                },
                None => {},
            }
            i = i + 1;
        }
        proof {
            assert(self.objects@.subrange(0, i as int) == self.objects@);
            HittableList::lemma_closest_is_nearest(self.objects@, ray, ray_t);
        }
        hit_anything
    }
}

} // verus!
