//! What a ray can hit: the record of a hit, the objects that are hit, and
//! the flat list of objects.

use crate::math::{lemma_encloses_transitive, lemma_surround_encloses, Ray, Vec2, Vec3, AABB};
use crate::scalar::Scalar;
use rand::rngs::SmallRng;
use std::sync::Arc;
use vstd::prelude::*;

pub mod closest;
pub mod shapes;

pub use crate::hitable::closest::{clip, first_hit, unbounded};
pub use crate::hitable::shapes::{
    rect_accepts, sphere_root, GBox, Plane, PlaneCrossing, RectSides, Side,
};

verus! {

/// What is known of the place where a ray meets a surface.
#[derive(Clone, Copy, Debug, PartialEq, Eq)]
pub struct HitRecord {
    /// The point that was hit.
    pub p: Vec3,
    /// The surface normal there, turned against the ray.
    pub norm: Vec3,
    /// A tangent to the surface there.
    pub tang: Vec3,
    /// The ray parameter of the hit.
    pub t: Scalar,
    /// Whether the ray came from outside the surface.
    pub front_face: bool,
    /// The material of the surface, by its place in the scene's material table.
    pub mat: Option<usize>,
    /// The surface coordinate of the hit.
    pub uv: Vec2,
}

impl HitRecord {
    /// The record whose every field is zero, false or none.
    pub open spec fn blank() -> HitRecord {
        HitRecord {
            p: Vec3::zero(),
            norm: Vec3::zero(),
            tang: Vec3::zero(),
            t: Scalar::zero(),
            front_face: false,
            mat: None,
            uv: Vec2::zero(),
        }
    }

    /// Turns the normal against the ray. `facing` is the product of the
    /// ray's direction with the outward normal: where it is negative the ray
    /// comes from outside and the outward normal is kept; else the hit is
    /// marked as from inside and the normal is flipped.
    pub fn set_face_normal(&mut self, facing: Scalar, outward_normal: Vec3)
        ensures
            final(self).front_face == facing.lt(Scalar::zero()),
            final(self).norm == (if facing.lt(Scalar::zero()) {
                outward_normal
            } else {
                outward_normal.neg()
            }),
            final(self).p == old(self).p,
            final(self).tang == old(self).tang,
            final(self).t == old(self).t,
            final(self).mat == old(self).mat,
            final(self).uv == old(self).uv,
    {
        self.front_face = facing.lt(Scalar::zero());
        self.norm = if self.front_face {
            outward_normal
        } else {
            outward_normal.neg()
        };
    }
}

impl Default for HitRecord {
    fn default() -> (rec: HitRecord)
        ensures
            rec == HitRecord::blank(),
    {
        HitRecord {
            p: Vec3::zero(),
            norm: Vec3::zero(),
            tang: Vec3::zero(),
            t: Scalar::zero(),
            front_face: false,
            mat: None,
            uv: Vec2::zero(),
        }
    }
}

/// Any value is a value for any key.
pub open spec fn belongs_to<A, B>(key: A, value: B) -> bool {
    true
}

/// Some value that is a function of `key`; nothing else is known of it.
pub open spec fn unknown<A, B>(key: A) -> B {
    choose|value: B| #[trigger] belongs_to(key, value)
}

/// Something a ray can hit.
///
/// An implementation answers for its own geometry, which this library does
/// not see. What the library asks of it is that `hit` and `bbox` are functions
/// of their arguments: `hit_spec` and `bbox_spec` stand for those functions,
/// and everything proved of lists and hierarchies of objects is proved from
/// them.
pub trait Hitable {
    /// What `hit` finds for a ray between two ray parameters. Unless an
    /// implementation says more, this is some function of the object, the
    /// ray and the two parameters, and nothing else is known of it.
    open spec fn hit_spec(&self, r: Ray, t_min: Scalar, t_max: Scalar) -> Option<HitRecord> {
        unknown((self, r, t_min, t_max))
    }

    /// The bounds that `bbox` reports. Unless an implementation says more,
    /// this is some function of the object, and nothing else is known of it.
    open spec fn bbox_spec(&self) -> Option<AABB> {
        unknown(self)
    }

    /// Looks for a hit of `r` whose parameter lies between `t_min` and
    /// `t_max`. On a hit the record is written to `rec`; on a miss `rec` is
    /// left as it was.
    fn hit(&self, r: &Ray, t_min: Scalar, t_max: Scalar, rec: &mut HitRecord) -> (found: bool)
        ensures
            found == self.hit_spec(*r, t_min, t_max).is_some(),
            found ==> self.hit_spec(*r, t_min, t_max) == Some(*final(rec)),
            !found ==> *final(rec) == *old(rec),
    ;

    /// Writes the object's bounds to `aabb`, if it has any; an object without
    /// bounds leaves `aabb` as it was.
    fn bbox(&self, aabb: &mut AABB) -> (found: bool)
        ensures
            found == self.bbox_spec().is_some(),
            found ==> self.bbox_spec() == Some(*final(aabb)),
            !found ==> *final(aabb) == *old(aabb),
    ;

    /// A short name for the object.
    fn memo(&self) -> String;

    /// The density with which `random` sends a direction `v` from `o`. An
    /// object that is never sampled as a light has density zero everywhere.
    fn pdf_value(&self, o: Vec3, v: Vec3) -> (density: Scalar)
        default_ensures
            density == Scalar::zero(),
    {
        Scalar::zero()
    }

    /// A direction from `o` towards a point of the object drawn with `rng`.
    /// An object that is never sampled as a light points along x.
    fn random(&self, o: Vec3, rng: &mut SmallRng) -> (dir: Vec3)
        default_ensures
            dir == Vec3::unit_x(),
    {
        Vec3::unit_x()
    }
}

/// The upper limit that is left for the objects still to be tried: the
/// parameter of the best hit so far, or the caller's limit.
pub open spec fn limit_after(best: Option<HitRecord>, t_max: Scalar) -> Scalar {
    match best {
        Some(h) => h.t,
        None => t_max,
    }
}

/// The later of two results wins where it is a hit.
pub open spec fn later_hit(best: Option<HitRecord>, next: Option<HitRecord>) -> Option<HitRecord> {
    if next.is_some() {
        next
    } else {
        best
    }
}

/// What a scan of `items` from first to last finds: each object is tried up
/// to the best parameter found before it, and replaces the best when it hits.
pub open spec fn scan_hit<H: Hitable>(items: Seq<H>, r: Ray, t_min: Scalar, t_max: Scalar) -> Option<
    HitRecord,
>
    decreases items.len(),
{
    if items.len() == 0 {
        None
    } else {
        let best = scan_hit(items.drop_last(), r, t_min, t_max);
        later_hit(best, items.last().hit_spec(r, t_min, limit_after(best, t_max)))
    }
}

/// The union of the bounds of `items`, if there is an item and all have bounds.
pub open spec fn union_bounds<H: Hitable>(items: Seq<H>) -> Option<AABB>
    decreases items.len(),
{
    if items.len() == 0 {
        None
    } else if items.len() == 1 {
        items[0].bbox_spec()
    } else {
        match (union_bounds(items.drop_last()), items.last().bbox_spec()) {
            (Some(a), Some(b)) => Some(a.surround(b)),
            _ => None,
        }
    }
}

/// A flat list of objects, itself an object.
pub type HitableList<H> = Vec<H>;

impl<H: Hitable> Hitable for Vec<H> {
    open spec fn hit_spec(&self, r: Ray, t_min: Scalar, t_max: Scalar) -> Option<HitRecord> {
        scan_hit(self@, r, t_min, t_max)
    }

    open spec fn bbox_spec(&self) -> Option<AABB> {
        union_bounds(self@)
    }

    fn hit(&self, r: &Ray, t_min: Scalar, t_max: Scalar, rec: &mut HitRecord) -> (found: bool) {
        let mut temp_rec = HitRecord::default();
        let mut closest_so_far = t_max;
        let mut hit_anything = false;
        let mut i: usize = 0;
        while i < self.len()
            invariant
                i <= self.len(),
                closest_so_far == limit_after(scan_hit(self@.take(i as int), *r, t_min, t_max), t_max),
                hit_anything == scan_hit(self@.take(i as int), *r, t_min, t_max).is_some(),
                hit_anything ==> scan_hit(self@.take(i as int), *r, t_min, t_max) == Some(temp_rec),
            decreases self.len() - i,
        {
            assert(self@.take(i + 1).drop_last() == self@.take(i as int));
            let be_hit = self[i].hit(r, t_min, closest_so_far, &mut temp_rec);
            if be_hit {
                hit_anything = true;
                closest_so_far = temp_rec.t;
            }
            i += 1;
        }
        assert(self@.take(i as int) == self@);
        if hit_anything {
            *rec = temp_rec;
        }
        hit_anything
    }

    fn bbox(&self, aabb: &mut AABB) -> (found: bool) {
        if self.len() == 0 {
            return false;
        }
        let mut total = AABB::default();
        let mut i: usize = 0;
        while i < self.len()
            invariant
                i <= self.len(),
                i > 0 ==> union_bounds(self@.take(i as int)) == Some(total),
            decreases self.len() - i,
        {
            assert(self@.take(i + 1).drop_last() == self@.take(i as int));
            let mut bbox = AABB::default();
            if self[i].bbox(&mut bbox) {
                if i == 0 {
                    total = bbox;
                } else {
                    total = total.surround(bbox);
                }
            } else {
                proof {
                    lemma_union_bounds_needs_all(self@, i as int);
                }
                return false;
            }
            i += 1;
        }
        assert(self@.take(i as int) == self@);
        *aabb = total;
        true
    }

    fn memo(&self) -> (name: String)
        ensures
            name@ == "HitableList"@,
    {
        "HitableList".to_string()
    }
}

/// An object that is shared is the object: a shared handle hits, bounds,
/// names and is sampled as what it points to.
impl<H: Hitable + ?Sized> Hitable for Arc<H> {
    open spec fn hit_spec(&self, r: Ray, t_min: Scalar, t_max: Scalar) -> Option<HitRecord> {
        (**self).hit_spec(r, t_min, t_max)
    }

    open spec fn bbox_spec(&self) -> Option<AABB> {
        (**self).bbox_spec()
    }

    fn hit(&self, r: &Ray, t_min: Scalar, t_max: Scalar, rec: &mut HitRecord) -> (found: bool) {
        (**self).hit(r, t_min, t_max, rec)
    }

    fn bbox(&self, aabb: &mut AABB) -> (found: bool) {
        (**self).bbox(aabb)
    }

    fn memo(&self) -> (name: String)
        ensures call_ensures(H::memo, (&**self,), name),
    { (**self).memo() }

    fn pdf_value(&self, o: Vec3, v: Vec3) -> (density: Scalar)
        ensures call_ensures(H::pdf_value, (&**self, o, v), density),
    { (**self).pdf_value(o, v) }

    fn random(&self, o: Vec3, rng: &mut SmallRng) -> (dir: Vec3)
        ensures
            exists|inner: &mut SmallRng|
                {
                    &&& #[trigger] call_ensures(H::random, (&**self, o, inner), dir)
                    &&& mut_ref_current(inner) == *old(rng)
                    &&& mut_ref_future(inner) == *final(rng)
                },
    {
        (**self).random(o, rng)
    }
}

/// A list with an object that has no bounds has no bounds.
pub proof fn lemma_union_bounds_needs_all<H: Hitable>(items: Seq<H>, i: int)
    requires
        0 <= i < items.len(),
        items[i].bbox_spec().is_none(),
    ensures
        union_bounds(items).is_none(),
    decreases items.len(),
{
    if items.len() > 1 && i < items.len() - 1 {
        lemma_union_bounds_needs_all(items.drop_last(), i);
    }
}

/// The bounds of a list bound every object in it: where all the objects
/// have valid bounds, the union is valid and encloses the bounds of each.
pub proof fn lemma_union_bounds_encloses<H: Hitable>(items: Seq<H>)
    requires
        items.len() > 0,
        forall|i: int|
            0 <= i < items.len() ==> (#[trigger] items[i].bbox_spec() matches Some(b)
                && b.is_valid()),
    ensures
        union_bounds(items) matches Some(all) && all.is_valid() && (forall|i: int|
            0 <= i < items.len() ==> all.encloses(#[trigger] items[i].bbox_spec().unwrap())),
    decreases items.len(),
{
    if items.len() > 1 {
        let front = items.drop_last();
        assert forall|i: int| 0 <= i < front.len() implies (#[trigger] front[i].bbox_spec() matches Some(
            b,
        ) && b.is_valid()) by {
            assert(front[i] == items[i]);
        }
        lemma_union_bounds_encloses(front);
        let a = union_bounds(front).unwrap();
        let b = items.last().bbox_spec().unwrap();
        lemma_surround_encloses(a, b);
        let all = a.surround(b);
        assert forall|i: int| 0 <= i < items.len() implies all.encloses(
            #[trigger] items[i].bbox_spec().unwrap(),
        ) by {
            if i < front.len() {
                assert(front[i] == items[i]);
                lemma_encloses_transitive(all, a, front[i].bbox_spec().unwrap());
            }
        }
    } else {
        let only = items[0].bbox_spec().unwrap();
        assert(only.encloses(only));
    }
}

} // verus!
