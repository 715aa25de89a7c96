//! The slab test of a ray against a box, on the crossings of the ray with
//! the planes of the box.

use crate::scalar::Scalar;
use vstd::prelude::*;

verus! {

/// Where a ray crosses the two planes that bound a box along one axis.
#[derive(Clone, Copy, Debug, PartialEq, Eq, Structural)]
pub struct Slab {
    /// The reciprocal of the ray's direction along the axis.
    pub inv_d: Scalar,
    /// The ray parameter at the lower plane.
    pub t0: Scalar,
    /// The ray parameter at the upper plane.
    pub t1: Scalar,
}

impl Slab {
    /// The parameter at which the ray enters the slab: that of the upper
    /// plane where the ray runs against the axis.
    pub open spec fn entry(self) -> Scalar {
        if self.inv_d.lt(Scalar::zero()) {
            self.t1
        } else {
            self.t0
        }
    }

    /// The parameter at which the ray leaves the slab.
    pub open spec fn exit(self) -> Scalar {
        if self.inv_d.lt(Scalar::zero()) {
            self.t0
        } else {
            self.t1
        }
    }
}

/// The lower end of the interval that is left of `t_min` after the slabs:
/// the largest of `t_min` and the entries.
pub open spec fn latest_entry(slabs: Seq<Slab>, t_min: Scalar) -> Scalar
    decreases slabs.len(),
{
    if slabs.len() == 0 {
        t_min
    } else {
        latest_entry(slabs.drop_last(), t_min).max(slabs.last().entry())
    }
}

/// The upper end of the interval that is left of `t_max` after the slabs:
/// the smallest of `t_max` and the exits.
pub open spec fn earliest_exit(slabs: Seq<Slab>, t_max: Scalar) -> Scalar
    decreases slabs.len(),
{
    if slabs.len() == 0 {
        t_max
    } else {
        earliest_exit(slabs.drop_last(), t_max).min(slabs.last().exit())
    }
}

/// The interval stays open through every slab: after each of them, taken in
/// order, the upper end is not at or below the lower end.
pub open spec fn stays_open(slabs: Seq<Slab>, t_min: Scalar, t_max: Scalar) -> bool
    decreases slabs.len(),
{
    if slabs.len() == 0 {
        true
    } else {
        &&& stays_open(slabs.drop_last(), t_min, t_max)
        &&& !earliest_exit(slabs, t_max).le(latest_entry(slabs, t_min))
    }
}

/// The slab test of a ray against a box, on the crossings of the ray with
/// the box's planes: the interval from `t_min` to `t_max` is cut down slab by
/// slab, and the ray misses as soon as nothing is left of it.
pub fn slabs_overlap(slabs: &[Slab; 3], t_min: Scalar, t_max: Scalar) -> (hit: bool)
    ensures
        hit == stays_open(slabs@, t_min, t_max),
{
    let mut lo = t_min;
    let mut hi = t_max;
    let mut i: usize = 0;
    while i < 3
        invariant
            i <= 3,
            slabs@.len() == 3,
            lo == latest_entry(slabs@.take(i as int), t_min),
            hi == earliest_exit(slabs@.take(i as int), t_max),
            stays_open(slabs@.take(i as int), t_min, t_max),
        decreases 3 - i,
    {
        let slab = slabs[i];
        let mut t0 = slab.t0;
        let mut t1 = slab.t1;
        if slab.inv_d.lt(Scalar::zero()) {
            t0 = slab.t1;
            t1 = slab.t0;
        }
        lo = lo.max(t0);
        hi = hi.min(t1);
        proof {
            assert(slabs@.take(i + 1).drop_last() == slabs@.take(i as int));
            assert(slabs@.take(i + 1).last() == slabs@[i as int]);
        }
        if hi.le(lo) {
            proof {
                lemma_stays_open_prefix(slabs@, (i + 1) as int, t_min, t_max);
            }
            return false;
        }
        i += 1;
    }
    assert(slabs@.take(3) == slabs@);
    true
}

/// An interval that is shut after some of the slabs is not open after all.
pub proof fn lemma_stays_open_prefix(slabs: Seq<Slab>, n: int, t_min: Scalar, t_max: Scalar)
    requires
        0 <= n <= slabs.len(),
        !stays_open(slabs.take(n), t_min, t_max),
    ensures
        !stays_open(slabs, t_min, t_max),
    decreases slabs.len(),
{
    if n < slabs.len() {
        assert(slabs.drop_last().take(n) == slabs.take(n));
        lemma_stays_open_prefix(slabs.drop_last(), n, t_min, t_max);
    } else {
        assert(slabs.take(n) == slabs);
    }
}

/// For an interval between two numbers the cutting down slab by slab comes
/// to one comparison: the ray crosses the box just when its latest entry
/// lies strictly before its earliest exit.
pub proof fn lemma_slab_test(slabs: Seq<Slab>, t_min: Scalar, t_max: Scalar)
    requires
        !t_min.is_nan(),
        !t_max.is_nan(),
        slabs.len() > 0,
    ensures
        !latest_entry(slabs, t_min).is_nan(),
        !earliest_exit(slabs, t_max).is_nan(),
        t_min.le(latest_entry(slabs, t_min)),
        earliest_exit(slabs, t_max).le(t_max),
        stays_open(slabs, t_min, t_max) == latest_entry(slabs, t_min).lt(
            earliest_exit(slabs, t_max),
        ),
    decreases slabs.len(),
{
    let front = slabs.drop_last();
    if slabs.len() > 1 {
        lemma_slab_test(front, t_min, t_max);
    } else {
        assert(latest_entry(front, t_min) == t_min);
        assert(earliest_exit(front, t_max) == t_max);
        assert(stays_open(front, t_min, t_max));
    }
}

} // verus!
