//! The bounding volume hierarchy: a binary tree of boxes over the objects of
//! a scene, and the search of it for the nearest hit of a ray.

use crate::hitable::{clip, first_hit, later_hit, limit_after, HitRecord, Hitable};
use crate::math::{Ray, AABB};
use crate::scalar::Scalar;
use vstd::prelude::*;

pub mod construction;
pub mod scene;
pub mod search;

pub use crate::bvh::construction::box_min_key;
pub use crate::bvh::scene::Bvh;

verus! {

/// What hangs below a node of the hierarchy: one object of the scene, named
/// by its place in the list of objects, or another node.
pub enum BvhChild {
    Leaf(usize),
    Node(Box<BvhNode>),
}

/// A node of a bounding volume hierarchy: a box and two children.
///
/// A node does not own the objects below it. It names them by their places in
/// the list that it was built over, and is used together with that list.
pub struct BvhNode {
    pub aabb: AABB,
    pub left: BvhChild,
    pub right: BvhChild,
}

/// The bounds of an object, or the box at the origin where it has none.
pub open spec fn bounds_or_origin<H: Hitable>(item: H) -> AABB {
    match item.bbox_spec() {
        Some(b) => b,
        None => AABB::origin(),
    }
}

/// The box test can be asked about every box, ray and interval.
pub open spec fn box_test_total<B: Fn(AABB, Ray, Scalar, Scalar) -> bool>(crosses: B) -> bool {
    forall|b: AABB, r: Ray, lo: Scalar, hi: Scalar| call_requires(crosses, (b, r, lo, hi))
}

impl BvhChild {
    /// The objects below this child, from left to right.
    pub open spec fn leaves(self) -> Seq<int>
        decreases self,
    {
        match self {
            BvhChild::Leaf(i) => seq![i as int],
            BvhChild::Node(n) => n.leaves(),
        }
    }

    /// Every object below this child has its place in a list of `len` objects.
    pub open spec fn in_range(self, len: nat) -> bool
        decreases self,
    {
        match self {
            BvhChild::Leaf(i) => i < len,
            BvhChild::Node(n) => n.in_range(len),
        }
    }

    /// The box of this child: that of the node, or the bounds of the object.
    pub open spec fn bounds<H: Hitable>(self, objects: Seq<H>) -> AABB {
        match self {
            BvhChild::Leaf(i) => bounds_or_origin(objects[i as int]),
            BvhChild::Node(n) => n.aabb,
        }
    }

    /// Every node from here down has the union of its children's boxes.
    pub open spec fn boxed<H: Hitable>(self, objects: Seq<H>) -> bool
        decreases self,
    {
        match self {
            BvhChild::Leaf(_) => true,
            BvhChild::Node(n) => n.boxed(objects),
        }
    }

    /// `res` is a result that the search below this child can end with.
    pub open spec fn may_find<H: Hitable, B: Fn(AABB, Ray, Scalar, Scalar) -> bool>(
        self,
        objects: Seq<H>,
        crosses: B,
        r: Ray,
        t_min: Scalar,
        t_max: Scalar,
        res: Option<HitRecord>,
    ) -> bool
        decreases self, 0nat,
    {
        match self {
            BvhChild::Leaf(i) => res == objects[i as int].hit_spec(r, t_min, t_max),
            BvhChild::Node(n) => n.may_find(objects, crosses, r, t_min, t_max, res),
        }
    }

    /// No box from here down turns a ray away that hits an object inside it.
    pub open spec fn box_sound<H: Hitable, B: Fn(AABB, Ray, Scalar, Scalar) -> bool>(
        self,
        objects: Seq<H>,
        crosses: B,
        r: Ray,
        t_min: Scalar,
    ) -> bool
        decreases self,
    {
        match self {
            BvhChild::Leaf(_) => true,
            BvhChild::Node(n) => n.box_sound(objects, crosses, r, t_min),
        }
    }
}

impl BvhNode {
    /// The objects below this node, from left to right.
    pub open spec fn leaves(self) -> Seq<int>
        decreases self,
    {
        self.left.leaves() + self.right.leaves()
    }

    /// Every object below this node has its place in a list of `len` objects.
    pub open spec fn in_range(self, len: nat) -> bool
        decreases self,
    {
        self.left.in_range(len) && self.right.in_range(len)
    }

    /// Every node from here down has the union of its children's boxes.
    pub open spec fn boxed<H: Hitable>(self, objects: Seq<H>) -> bool
        decreases self,
    {
        &&& self.aabb == self.left.bounds(objects).surround(self.right.bounds(objects))
        &&& self.left.boxed(objects)
        &&& self.right.boxed(objects)
    }

    /// `res` is a result that the search of this node can end with: a miss
    /// where the box test turned the ray away; else what the right child
    /// finds up to the hit of the left child, or failing that, what the left
    /// child found.
    pub open spec fn may_find<H: Hitable, B: Fn(AABB, Ray, Scalar, Scalar) -> bool>(
        self,
        objects: Seq<H>,
        crosses: B,
        r: Ray,
        t_min: Scalar,
        t_max: Scalar,
        res: Option<HitRecord>,
    ) -> bool
        decreases self, 1nat,
    {
        ||| call_ensures(crosses, (self.aabb, r, t_min, t_max), false) && res.is_none()
        ||| call_ensures(crosses, (self.aabb, r, t_min, t_max), true) && exists|
            left: Option<HitRecord>,
            right: Option<HitRecord>,
        |
            {
                &&& res == #[trigger] later_hit(left, right)
                &&& self.left.may_find(objects, crosses, r, t_min, t_max, left)
                &&& self.right.may_find(objects, crosses, r, t_min, limit_after(left, t_max), right)
            }
    }

    /// The box test turns a ray away from this node only where no object
    /// below the node is hit within the limit.
    pub open spec fn box_sound_here<H: Hitable, B: Fn(AABB, Ray, Scalar, Scalar) -> bool>(
        self,
        objects: Seq<H>,
        crosses: B,
        r: Ray,
        t_min: Scalar,
    ) -> bool {
        forall|t_max: Scalar, k: int|
            #![trigger call_ensures(crosses, (self.aabb, r, t_min, t_max), false), self.leaves()[k]]
            call_ensures(crosses, (self.aabb, r, t_min, t_max), false) && 0 <= k
                < self.leaves().len() ==> clip(
                first_hit(objects[self.leaves()[k]], r, t_min),
                t_max,
            ).is_none()
    }

    /// No box from here down turns a ray away that hits an object inside it.
    pub open spec fn box_sound<H: Hitable, B: Fn(AABB, Ray, Scalar, Scalar) -> bool>(
        self,
        objects: Seq<H>,
        crosses: B,
        r: Ray,
        t_min: Scalar,
    ) -> bool
        decreases self,
    {
        &&& self.box_sound_here(objects, crosses, r, t_min)
        &&& self.left.box_sound(objects, crosses, r, t_min)
        &&& self.right.box_sound(objects, crosses, r, t_min)
    }

    /// The box of this node.
    pub fn bbox(&self, aabb: &mut AABB) -> (found: bool)
        ensures
            found,
            *final(aabb) == self.aabb,
    {
        *aabb = self.aabb;
        true
    }

    /// A short name for the node.
    pub fn memo(&self) -> (name: String)
        ensures
            name@ == "BvhNode"@,
    {
        "BvhNode".to_string()
    }

    /// Searches the objects below this node for a hit of `r` between `t_min`
    /// and `t_max`. `crosses` is the test of a ray against a box: it is asked
    /// once for this node, and the children are searched only where it says
    /// yes. On a hit the record is written to `rec`; on a miss `rec` is left
    /// as it was.
    pub fn hit<H: Hitable, B: Fn(AABB, Ray, Scalar, Scalar) -> bool>(
        &self,
        objects: &Vec<H>,
        crosses: &B,
        r: &Ray,
        t_min: Scalar,
        t_max: Scalar,
        rec: &mut HitRecord,
    ) -> (found: bool)
        requires
            self.in_range(objects@.len()),
            box_test_total(*crosses),
        ensures
            found ==> self.may_find(objects@, *crosses, *r, t_min, t_max, Some(*final(rec))),
            !found ==> self.may_find(objects@, *crosses, *r, t_min, t_max, None),
            !found ==> *final(rec) == *old(rec),
        decreases self, 1nat,
    {
        let inside = crosses(self.aabb, *r, t_min, t_max);
        if !inside {
            return false;
        }
        let ghost before = *rec;
        let hit_left = child_hit(&self.left, objects, crosses, r, t_min, t_max, rec);
        let ghost left = if hit_left {
            Some(*rec)
        } else {
            None
        };
        let limit = if hit_left {
            rec.t
        } else {
            t_max
        };
        let hit_right = child_hit(&self.right, objects, crosses, r, t_min, limit, rec);
        let ghost right = if hit_right {
            Some(*rec)
        } else {
            None
        };
        proof {
            assert(self.left.may_find(objects@, *crosses, *r, t_min, t_max, left));
            assert(self.right.may_find(
                objects@,
                *crosses,
                *r,
                t_min,
                limit_after(left, t_max),
                right,
            ));
            let res = later_hit(left, right);
            assert(self.may_find(objects@, *crosses, *r, t_min, t_max, res));
        }
        hit_left || hit_right
    }
}

/// Searches below one child of a node: the object itself, or the node.
fn child_hit<H: Hitable, B: Fn(AABB, Ray, Scalar, Scalar) -> bool>(
    child: &BvhChild,
    objects: &Vec<H>,
    crosses: &B,
    r: &Ray,
    t_min: Scalar,
    t_max: Scalar,
    rec: &mut HitRecord,
) -> (found: bool)
    requires
        child.in_range(objects@.len()),
        box_test_total(*crosses),
    ensures
        found ==> child.may_find(objects@, *crosses, *r, t_min, t_max, Some(*final(rec))),
        !found ==> child.may_find(objects@, *crosses, *r, t_min, t_max, None),
        !found ==> *final(rec) == *old(rec),
    decreases child, 0nat,
{
    match child {
        BvhChild::Leaf(i) => objects[*i].hit(r, t_min, t_max, rec),
        BvhChild::Node(n) => n.hit(objects, crosses, r, t_min, t_max, rec),
    }
}

} // verus!
