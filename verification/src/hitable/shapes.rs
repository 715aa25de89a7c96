//! The decisions in the hit tests of the shapes, and the box of six
//! rectangles. The arithmetic of the tests is the caller's.

use crate::hitable::closest::{
    all_well_behaved, clip, first_hit, lemma_list_well_behaved, unbounded, well_behaved,
};
use crate::hitable::{scan_hit, HitRecord, Hitable, HitableList};
use crate::math::{Ray, Vec3, AABB};
use crate::scalar::Scalar;
use vstd::prelude::*;

verus! {

/// A ray parameter is admitted by an interval unless it is below the lower
/// or above the upper end. A parameter that is not a number is below and
/// above nothing.
pub open spec fn admits(t_min: Scalar, t_max: Scalar, t: Scalar) -> bool {
    !(t.lt(t_min) || t_max.lt(t))
}

/// The root of a sphere's quadratic that counts as the hit: none where the
/// discriminant is negative; else the nearer root where the interval admits
/// it, else the farther root where the interval admits that, else none.
pub open spec fn spec_sphere_root(
    discriminant: Scalar,
    near: Scalar,
    far: Scalar,
    t_min: Scalar,
    t_max: Scalar,
) -> Option<Scalar> {
    if discriminant.lt(Scalar::zero()) {
        None
    } else if admits(t_min, t_max, near) {
        Some(near)
    } else if admits(t_min, t_max, far) {
        Some(far)
    } else {
        None
    }
}

/// Chooses among the two roots of a sphere's quadratic, given with the
/// discriminant they were computed from.
#[verifier::when_used_as_spec(spec_sphere_root)]
pub fn sphere_root(
    discriminant: Scalar,
    near: Scalar,
    far: Scalar,
    t_min: Scalar,
    t_max: Scalar,
) -> (root: Option<Scalar>)
    ensures
        root == spec_sphere_root(discriminant, near, far, t_min, t_max),
{
    if discriminant.lt(Scalar::zero()) {
        return None;
    }
    let mut root = near;
    if root.lt(t_min) || t_max.lt(root) {
        root = far;
        if root.lt(t_min) || t_max.lt(root) {
            return None;
        }
    }
    Some(root)
}

/// Of two roots that are numbers, the nearer not after the farther, the one
/// chosen is the first that lies in the interval: it lies in the interval,
/// and the nearer root is passed over only where it lies outside.
pub proof fn lemma_sphere_root_is_first(
    discriminant: Scalar,
    near: Scalar,
    far: Scalar,
    t_min: Scalar,
    t_max: Scalar,
)
    requires
        !discriminant.lt(Scalar::zero()),
        near.le(far),
        !t_min.is_nan(),
        !t_max.is_nan(),
    ensures
        sphere_root(discriminant, near, far, t_min, t_max) matches Some(t) ==> t_min.le(t) && t.le(
            t_max,
        ) && (t == near || (t == far && !(t_min.le(near) && near.le(t_max)))),
        sphere_root(discriminant, near, far, t_min, t_max).is_none() ==> !(t_min.le(near)
            && near.le(t_max)) && !(t_min.le(far) && far.le(t_max)),
{
}

/// Where a ray meets the plane of an axis-aligned rectangle: the ray
/// parameter, and the two coordinates of the point in the plane.
#[derive(Clone, Copy, Debug, PartialEq, Eq, Structural)]
pub struct PlaneCrossing {
    pub t: Scalar,
    pub a: Scalar,
    pub b: Scalar,
}

/// The sides of an axis-aligned rectangle in its plane.
#[derive(Clone, Copy, Debug, PartialEq, Eq, Structural)]
pub struct RectSides {
    pub a_min: Scalar,
    pub a_max: Scalar,
    pub b_min: Scalar,
    pub b_max: Scalar,
}

/// A crossing of a rectangle's plane is a hit where the interval admits its
/// parameter and the point lies between the sides, along both coordinates.
pub open spec fn spec_rect_accepts(
    sides: RectSides,
    crossing: PlaneCrossing,
    t_min: Scalar,
    t_max: Scalar,
) -> bool {
    &&& admits(t_min, t_max, crossing.t)
    &&& admits(sides.a_min, sides.a_max, crossing.a)
    &&& admits(sides.b_min, sides.b_max, crossing.b)
}

/// Decides whether a crossing of a rectangle's plane is a hit.
#[verifier::when_used_as_spec(spec_rect_accepts)]
pub fn rect_accepts(sides: RectSides, crossing: PlaneCrossing, t_min: Scalar, t_max: Scalar) -> (hit:
    bool)
    ensures
        hit == spec_rect_accepts(sides, crossing, t_min, t_max),
{
    if crossing.t.lt(t_min) || t_max.lt(crossing.t) {
        return false;
    }
    if crossing.a.lt(sides.a_min) || sides.a_max.lt(crossing.a) || crossing.b.lt(sides.b_min)
        || sides.b_max.lt(crossing.b) {
        return false;
    }
    true
}

/// The plane that an axis-aligned rectangle lies parallel to.
#[derive(Clone, Copy, Debug, PartialEq, Eq, Structural)]
pub enum Plane {
    XY,
    XZ,
    YZ,
}

impl Plane {
    /// The axis that stands on the plane.
    pub open spec fn spec_across(self) -> usize {
        match self {
            Plane::XY => 2,
            Plane::XZ => 1,
            Plane::YZ => 0,
        }
    }

    /// The two axes that span the plane, in the order of the plane's name.
    pub open spec fn spec_along(self) -> (usize, usize) {
        match self {
            Plane::XY => (0, 1),
            Plane::XZ => (0, 2),
            Plane::YZ => (1, 2),
        }
    }

    /// The axis that stands on the plane: the one along which a rectangle
    /// in the plane has no extent.
    #[verifier::when_used_as_spec(spec_across)]
    pub fn across(self) -> (axis: usize)
        ensures
            axis == self.spec_across(),
            axis < 3,
    {
        match self {
            Plane::XY => 2,
            Plane::XZ => 1,
            Plane::YZ => 0,
        }
    }

    /// The two axes that span the plane, in the order of the plane's name.
    #[verifier::when_used_as_spec(spec_along)]
    pub fn along(self) -> (axes: (usize, usize))
        ensures
            axes == self.spec_along(),
            axes.0 < axes.1 < 3,
            axes.0 != self.across(),
            axes.1 != self.across(),
    {
        match self {
            Plane::XY => (0, 1),
            Plane::XZ => (0, 2),
            Plane::YZ => (1, 2),
        }
    }
}

/// One side of a box: its plane, its two extreme corners, and its material.
#[derive(Clone, Copy, Debug, PartialEq, Eq)]
pub struct Side {
    pub plane: Plane,
    pub min: Vec3,
    pub max: Vec3,
    pub mat: usize,
}

/// The six sides of the box between two corners: front and back, bottom and
/// top, left and right. Each lies in the plane of one face and reaches from
/// corner to corner of that face.
pub open spec fn box_sides(min: Vec3, max: Vec3, mat: usize) -> Seq<Side> {
    seq![
        Side {
            plane: Plane::XY,
            min: Vec3 { x: min.x, y: min.y, z: min.z },
            max: Vec3 { x: max.x, y: max.y, z: min.z },
            mat,
        },
        Side {
            plane: Plane::XY,
            min: Vec3 { x: min.x, y: min.y, z: max.z },
            max: Vec3 { x: max.x, y: max.y, z: max.z },
            mat,
        },
        Side {
            plane: Plane::XZ,
            min: Vec3 { x: min.x, y: min.y, z: min.z },
            max: Vec3 { x: max.x, y: min.y, z: max.z },
            mat,
        },
        Side {
            plane: Plane::XZ,
            min: Vec3 { x: min.x, y: max.y, z: min.z },
            max: Vec3 { x: max.x, y: max.y, z: max.z },
            mat,
        },
        Side {
            plane: Plane::YZ,
            min: Vec3 { x: min.x, y: min.y, z: min.z },
            max: Vec3 { x: min.x, y: max.y, z: max.z },
            mat,
        },
        Side {
            plane: Plane::YZ,
            min: Vec3 { x: max.x, y: min.y, z: min.z },
            max: Vec3 { x: max.x, y: max.y, z: max.z },
            mat,
        },
    ]
}

/// An axis-aligned box: six rectangles that share one bounding box.
pub struct GBox<H> {
    pub aabb: AABB,
    pub sides: HitableList<H>,
}

impl<H: Hitable> GBox<H> {
    /// The box between the corners `min` and `max`. `make` turns the
    /// description of a side into the rectangle that is hit; it is asked for
    /// each of the six sides in turn.
    pub fn new<F: Fn(Side) -> H>(min: Vec3, max: Vec3, mat: usize, make: &F) -> (b: GBox<H>)
        requires
            forall|side: Side| call_requires(make, (side,)),
        ensures
            b.aabb == (AABB { min, max }),
            b.sides@.len() == 6,
            forall|k: int|
                0 <= k < 6 ==> call_ensures(make, (box_sides(min, max, mat)[k],), #[trigger] b.sides@[k]),
    {
        let mut sides: Vec<H> = Vec::new();
        sides.push(
            make(
                Side {
                    plane: Plane::XY,
                    min: Vec3::new(min.x, min.y, min.z),
                    max: Vec3::new(max.x, max.y, min.z),
                    mat,
                },
            ),
        );
        sides.push(
            make(
                Side {
                    plane: Plane::XY,
                    min: Vec3::new(min.x, min.y, max.z),
                    max: Vec3::new(max.x, max.y, max.z),
                    mat,
                },
            ),
        );
        sides.push(
            make(
                Side {
                    plane: Plane::XZ,
                    min: Vec3::new(min.x, min.y, min.z),
                    max: Vec3::new(max.x, min.y, max.z),
                    mat,
                },
            ),
        );
        sides.push(
            make(
                Side {
                    plane: Plane::XZ,
                    min: Vec3::new(min.x, max.y, min.z),
                    max: Vec3::new(max.x, max.y, max.z),
                    mat,
                },
            ),
        );
        sides.push(
            make(
                Side {
                    plane: Plane::YZ,
                    min: Vec3::new(min.x, min.y, min.z),
                    max: Vec3::new(min.x, max.y, max.z),
                    mat,
                },
            ),
        );
        sides.push(
            make(
                Side {
                    plane: Plane::YZ,
                    min: Vec3::new(max.x, min.y, min.z),
                    max: Vec3::new(max.x, max.y, max.z),
                    mat,
                },
            ),
        );
        GBox { aabb: AABB { min, max }, sides }
    }
}

impl<H: Hitable> Hitable for GBox<H> {
    /// A box is hit where the list of its sides is hit.
    open spec fn hit_spec(&self, r: Ray, t_min: Scalar, t_max: Scalar) -> Option<HitRecord> {
        scan_hit(self.sides@, r, t_min, t_max)
    }

    /// A box has the bounds that it was made with.
    open spec fn bbox_spec(&self) -> Option<AABB> {
        Some(self.aabb)
    }

    fn hit(&self, r: &Ray, t_min: Scalar, t_max: Scalar, rec: &mut HitRecord) -> (found: bool) {
        self.sides.hit(r, t_min, t_max, rec)
    }

    fn bbox(&self, aabb: &mut AABB) -> (found: bool) {
        *aabb = self.aabb;
        true
    }

    fn memo(&self) -> (name: String)
        ensures
            name@ == "GBox"@,
    {
        "GBox".to_string()
    }
}

/// A box of well-behaved sides is well behaved.
pub proof fn lemma_box_well_behaved<H: Hitable>(b: GBox<H>, r: Ray, t_min: Scalar)
    requires
        all_well_behaved(b.sides@, r, t_min),
    ensures
        well_behaved(b, r, t_min),
{
    lemma_list_well_behaved(b.sides@, r, t_min);
    assert forall|t_max: Scalar| #[trigger]
        b.hit_spec(r, t_min, t_max) == clip(first_hit(b, r, t_min), t_max) by {
        assert(scan_hit(b.sides@, r, t_min, t_max) == clip(
            scan_hit(b.sides@, r, t_min, unbounded()),
            t_max,
        ));
    }
}

} // verus!
