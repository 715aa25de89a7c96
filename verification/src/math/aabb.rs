//! Axis-aligned bounding boxes: their union, their corners, and the extent
//! of a set of points.

use crate::math::Vec3;
use crate::scalar::Scalar;
use vstd::prelude::*;

verus! {

/// An axis-aligned bounding box, given by its two extreme corners.
#[derive(Clone, Copy, Debug, PartialEq, Eq, Structural)]
pub struct AABB {
    pub min: Vec3,
    pub max: Vec3,
}

impl Default for AABB {
    /// The box that is the origin alone.
    fn default() -> (b: AABB)
        ensures
            b == AABB::origin(),
    {
        AABB { min: Vec3::zero(), max: Vec3::zero() }
    }
}

/// The extent of a set of points: the smallest and the largest coordinate
/// along each axis, counted from an empty extent whose lower corner is at
/// positive and whose upper corner is at negative infinity.
pub open spec fn extent(points: Seq<Vec3>) -> AABB
    decreases points.len(),
{
    if points.len() == 0 {
        AABB {
            min: Vec3::splat(Scalar::infinity()),
            max: Vec3::splat(Scalar::neg_infinity()),
        }
    } else {
        let rest = extent(points.drop_last());
        AABB { min: rest.min.min(points.last()), max: rest.max.max(points.last()) }
    }
}

impl AABB {
    /// The degenerate box at the origin, which stands in for the bounds of an
    /// object that has none.
    pub open spec fn origin() -> AABB {
        AABB { min: Vec3::zero(), max: Vec3::zero() }
    }

    /// A box of numbers whose lower corner is nowhere above its upper corner.
    pub open spec fn is_valid(self) -> bool {
        self.min.le_all(self.max)
    }

    /// `inner` lies within `self` along every axis.
    pub open spec fn encloses(self, inner: AABB) -> bool {
        self.min.le_all(inner.min) && inner.max.le_all(self.max)
    }

    /// The same box up to the sign of zero corners.
    pub open spec fn same_extent(self, other: AABB) -> bool {
        self.encloses(other) && other.encloses(self)
    }

    /// The union of two boxes.
    pub open spec fn spec_surround(&self, rhs: AABB) -> AABB {
        AABB { min: self.min.min(rhs.min), max: self.max.max(rhs.max) }
    }

    /// The union of two boxes: the smaller of the lower corners and the
    /// larger of the upper corners, axis by axis.
    #[verifier::when_used_as_spec(spec_surround)]
    pub fn surround(&self, rhs: AABB) -> (b: AABB)
        ensures
            b == self.spec_surround(rhs),
    {
        AABB { min: self.min.min(rhs.min), max: self.max.max(rhs.max) }
    }

    /// The box that is a single point.
    pub open spec fn at(p: Vec3) -> AABB {
        AABB { min: p, max: p }
    }

    /// The eight corners of the box: the lower and the upper end along x,
    /// for each of them the lower and the upper end along y, and for each of
    /// those the lower and the upper end along z.
    pub open spec fn spec_corners(&self) -> Seq<Vec3> {
        Seq::new(
            8,
            |n: int|
                Vec3 {
                    x: if n / 4 == 0 {
                        self.min.x
                    } else {
                        self.max.x
                    },
                    y: if (n / 2) % 2 == 0 {
                        self.min.y
                    } else {
                        self.max.y
                    },
                    z: if n % 2 == 0 {
                        self.min.z
                    } else {
                        self.max.z
                    },
                },
        )
    }

    /// The eight corners of the box.
    pub fn corners(&self) -> (all: Vec<Vec3>)
        ensures
            all@ == self.spec_corners(),
    {
        let mut all: Vec<Vec3> = Vec::new();
        let mut n: usize = 0;
        while n < 8
            invariant
                n <= 8,
                all@.len() == n,
                forall|m: int| 0 <= m < n ==> all@[m] == self.spec_corners()[m],
            decreases 8 - n,
        {
            let x = if n / 4 == 0 {
                self.min.x
            } else {
                self.max.x
            };
            let y = if (n / 2) % 2 == 0 {
                self.min.y
            } else {
                self.max.y
            };
            let z = if n % 2 == 0 {
                self.min.z
            } else {
                self.max.z
            };
            all.push(Vec3 { x, y, z });
            n += 1;
        }
        assert(all@ =~= self.spec_corners());
        all
    }

    /// The axis-aligned extent of `points`.
    pub fn around(points: &Vec<Vec3>) -> (b: AABB)
        ensures
            b == extent(points@),
    {
        let mut min = Vec3::splat(Scalar::infinity());
        let mut max = Vec3::splat(Scalar::neg_infinity());
        let mut i: usize = 0;
        while i < points.len()
            invariant
                i <= points.len(),
                min == extent(points@.take(i as int)).min,
                max == extent(points@.take(i as int)).max,
            decreases points.len() - i,
        {
            assert(points@.take(i + 1).drop_last() == points@.take(i as int));
            min = min.min(points[i]);
            max = max.max(points[i]);
            i += 1;
        }
        assert(points@.take(i as int) == points@);
        AABB { min, max }
    }
}

/// The union of two boxes does not depend on which is named first.
pub proof fn lemma_surround_commutative(a: AABB, b: AABB)
    requires
        a.is_valid(),
        b.is_valid(),
    ensures
        a.surround(b) == b.surround(a),
{
}

/// The union of three boxes does not depend on how they are grouped.
pub proof fn lemma_surround_associative(a: AABB, b: AABB, c: AABB)
    ensures
        a.surround(b.surround(c)) == a.surround(b).surround(c),
{
}

/// The union of a box with itself is that box.
pub proof fn lemma_surround_idempotent(a: AABB)
    ensures
        a.surround(a) == a,
{
}

/// The union of two valid boxes is a valid box that encloses both.
pub proof fn lemma_surround_encloses(a: AABB, b: AABB)
    requires
        a.is_valid(),
        b.is_valid(),
    ensures
        a.surround(b).is_valid(),
        a.surround(b).encloses(a),
        a.surround(b).encloses(b),
{
}

/// The union is the least box that encloses both: every valid box around
/// `a` and `b` is around their union.
pub proof fn lemma_surround_least(a: AABB, b: AABB, outer: AABB)
    requires
        a.is_valid(),
        b.is_valid(),
        outer.encloses(a),
        outer.encloses(b),
    ensures
        outer.encloses(a.surround(b)),
{
}

/// Enclosure is transitive.
pub proof fn lemma_encloses_transitive(a: AABB, b: AABB, c: AABB)
    requires
        a.encloses(b),
        b.encloses(c),
    ensures
        a.encloses(c),
{
}

/// The extent of points encloses each of them, and where there is a point
/// it is a valid box.
pub proof fn lemma_extent_encloses(points: Seq<Vec3>)
    requires
        forall|i: int| 0 <= i < points.len() ==> !(#[trigger] points[i]).has_nan(),
    ensures
        !extent(points).min.has_nan() && !extent(points).max.has_nan(),
        forall|i: int| 0 <= i < points.len() ==> extent(points).encloses(AABB::at(#[trigger] points[i])),
        points.len() > 0 ==> extent(points).is_valid(),
    decreases points.len(),
{
    if points.len() > 0 {
        let front = points.drop_last();
        lemma_extent_encloses(front);
        assert(!points.last().has_nan());
        assert forall|i: int| 0 <= i < points.len() implies extent(points).encloses(
            AABB::at(#[trigger] points[i]),
        ) by {
            if i < front.len() {
                assert(front[i] == points[i]);
                assert(extent(front).encloses(AABB::at(front[i])));
            }
        }
    }
}

/// The extent is the least such box: every box around all the points is
/// around their extent.
pub proof fn lemma_extent_least(points: Seq<Vec3>, outer: AABB)
    requires
        points.len() > 0,
        forall|i: int| 0 <= i < points.len() ==> !(#[trigger] points[i]).has_nan(),
        forall|i: int| 0 <= i < points.len() ==> outer.encloses(AABB::at(#[trigger] points[i])),
    ensures
        outer.encloses(extent(points)),
    decreases points.len(),
{
    let front = points.drop_last();
    assert(outer.encloses(AABB::at(points.last())));
    assert(!points.last().has_nan());
    if front.len() > 0 {
        assert forall|i: int| 0 <= i < front.len() implies outer.encloses(
            AABB::at(#[trigger] front[i]),
        ) by {
            assert(front[i] == points[i]);
        }
        assert forall|i: int| 0 <= i < front.len() implies !(#[trigger] front[i]).has_nan() by {
            assert(front[i] == points[i]);
        }
        lemma_extent_least(front, outer);
        lemma_extent_encloses(front);
    } else {
        assert(extent(front).min == Vec3::splat(Scalar::infinity()));
        assert(extent(front).max == Vec3::splat(Scalar::neg_infinity()));
    }
}

/// The extent of the corners of a valid box is that box again.
pub proof fn lemma_corners_extent(b: AABB)
    requires
        b.is_valid(),
    ensures
        extent(b.spec_corners()).same_extent(b),
{
    let corners = b.spec_corners();
    lemma_extent_encloses(corners);
    assert forall|i: int| 0 <= i < corners.len() implies b.encloses(AABB::at(#[trigger] corners[i])) by {}
    lemma_extent_least(corners, b);
    assert(extent(corners).encloses(AABB::at(corners[0])));
    assert(extent(corners).encloses(AABB::at(corners[7])));
}

} // verus!
