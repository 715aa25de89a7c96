//! The nearest hit: what it means for objects to behave under an upper
//! limit, and what follows for a scan of them.

use crate::hitable::{later_hit, limit_after, scan_hit, HitRecord, Hitable};
use crate::math::Ray;
use crate::scalar::Scalar;
use std::sync::Arc;
use vstd::prelude::*;

verus! {

/// The limit that cuts nothing off: positive infinity.
pub open spec fn unbounded() -> Scalar {
    Scalar::infinity()
}

/// The hit that an object reports when no upper limit is set.
pub open spec fn first_hit<H: Hitable>(item: H, r: Ray, t_min: Scalar) -> Option<HitRecord> {
    item.hit_spec(r, t_min, unbounded())
}

/// A hit is kept unless the limit is below its parameter.
pub open spec fn clip(first: Option<HitRecord>, t_max: Scalar) -> Option<HitRecord> {
    match first {
        Some(h) => if t_max.lt(h.t) {
            None
        } else {
            Some(h)
        },
        None => None,
    }
}

/// An object is well behaved for a ray when the upper limit only cuts off:
/// whatever the limit, the object reports its first hit or, where that lies
/// beyond the limit, nothing; and the parameter of a hit is a number.
pub open spec fn well_behaved<H: Hitable>(item: H, r: Ray, t_min: Scalar) -> bool {
    &&& forall|t_max: Scalar| #[trigger]
        item.hit_spec(r, t_min, t_max) == clip(first_hit(item, r, t_min), t_max)
    &&& first_hit(item, r, t_min) matches Some(h) ==> !h.t.is_nan()
}

/// Every object of the list is well behaved for the ray.
pub open spec fn all_well_behaved<H: Hitable>(items: Seq<H>, r: Ray, t_min: Scalar) -> bool {
    forall|i: int| 0 <= i < items.len() ==> well_behaved(#[trigger] items[i], r, t_min)
}

/// The first hits of a sequence of objects, in their order.
pub open spec fn first_hits<H: Hitable>(items: Seq<H>, r: Ray, t_min: Scalar) -> Seq<
    Option<HitRecord>,
> {
    Seq::new(items.len(), |i: int| first_hit(items[i], r, t_min))
}

/// Every hit among `firsts` has a number for its parameter.
pub open spec fn all_numbers(firsts: Seq<Option<HitRecord>>) -> bool {
    forall|i: int|
        0 <= i < firsts.len() ==> (#[trigger] firsts[i] matches Some(h) ==> !h.t.is_nan())
}

/// `res` is a nearest of the hits `firsts` that the limit allows: it is one
/// of them, within the limit, and none of them is nearer; or there is none
/// within the limit and `res` is a miss.
pub open spec fn is_closest(
    res: Option<HitRecord>,
    firsts: Seq<Option<HitRecord>>,
    t_max: Scalar,
) -> bool {
    match res {
        Some(h) => {
            &&& !t_max.lt(h.t)
            &&& firsts.contains(Some(h))
            &&& forall|i: int|
                0 <= i < firsts.len() ==> (#[trigger] firsts[i] matches Some(f) ==> !f.t.lt(h.t))
        },
        None => forall|i: int| 0 <= i < firsts.len() ==> clip(#[trigger] firsts[i], t_max).is_none(),
    }
}

/// Two results say the same: both miss, or both hit at numerically the same
/// parameter.
pub open spec fn same_distance(a: Option<HitRecord>, b: Option<HitRecord>) -> bool {
    match (a, b) {
        (Some(x), Some(y)) => x.t.same(y.t),
        (None, None) => true,
        _ => false,
    }
}

/// No two different hits among `firsts` lie at numerically the same parameter.
pub open spec fn no_ties(firsts: Seq<Option<HitRecord>>) -> bool {
    forall|i: int, j: int|
        0 <= i < firsts.len() && 0 <= j < firsts.len() ==> (match (
            #[trigger] firsts[i],
            #[trigger] firsts[j],
        ) {
            (Some(x), Some(y)) => x.t.same(y.t) ==> x == y,
            _ => true,
        })
}

/// Trying one group of objects and then, up to the best found, a second
/// group finds a nearest hit of both groups together.
pub proof fn lemma_closest_then(
    best: Option<HitRecord>,
    tried: Seq<Option<HitRecord>>,
    next: Option<HitRecord>,
    more: Seq<Option<HitRecord>>,
    t_max: Scalar,
)
    requires
        all_numbers(tried),
        all_numbers(more),
        is_closest(best, tried, t_max),
        is_closest(next, more, limit_after(best, t_max)),
    ensures
        is_closest(later_hit(best, next), tried + more, t_max),
{
    let all = tried + more;
    let res = later_hit(best, next);
    assert forall|i: int| 0 <= i < all.len() implies (if i < tried.len() {
        all[i] == tried[i]
    } else {
        all[i] == more[i - tried.len()]
    }) by {}
    match res {
        Some(h) => {
            if next.is_some() {
                let j = choose|j: int| 0 <= j < more.len() && more[j] == Some(h);
                assert(all[tried.len() + j] == Some(h));
            } else {
                let j = choose|j: int| 0 <= j < tried.len() && tried[j] == Some(h);
                assert(all[j] == Some(h));
            }
            assert(all.contains(Some(h)));
            assert forall|i: int| 0 <= i < all.len() implies (#[trigger] all[i] matches Some(f)
                ==> !f.t.lt(h.t)) by {
                if i < tried.len() {
                    assert(all[i] == tried[i]);
                } else {
                    assert(all[i] == more[i - tried.len()]);
                }
            }
        },
        None => {
            assert forall|i: int| 0 <= i < all.len() implies clip(#[trigger] all[i], t_max).is_none() by {
                if i < tried.len() {
                    assert(all[i] == tried[i]);
                } else {
                    assert(all[i] == more[i - tried.len()]);
                }
            }
        },
    }
}

/// What a well-behaved object reports up to a limit is a nearest hit of
/// that object alone.
pub proof fn lemma_closest_single<H: Hitable>(item: H, r: Ray, t_min: Scalar, t_max: Scalar)
    requires
        well_behaved(item, r, t_min),
    ensures
        is_closest(item.hit_spec(r, t_min, t_max), seq![first_hit(item, r, t_min)], t_max),
        all_numbers(seq![first_hit(item, r, t_min)]),
{
    let one = seq![first_hit(item, r, t_min)];
    assert(one[0] == first_hit(item, r, t_min));
    assert(item.hit_spec(r, t_min, t_max) == clip(first_hit(item, r, t_min), t_max));
}

/// The hits of well-behaved objects all have numbers for parameters.
pub proof fn lemma_first_hits_numbers<H: Hitable>(items: Seq<H>, r: Ray, t_min: Scalar)
    requires
        all_well_behaved(items, r, t_min),
    ensures
        all_numbers(first_hits(items, r, t_min)),
{
    let firsts = first_hits(items, r, t_min);
    assert forall|i: int| 0 <= i < firsts.len() implies (#[trigger] firsts[i] matches Some(h)
        ==> !h.t.is_nan()) by {
        assert(well_behaved(items[i], r, t_min));
    }
}

/// A scan of well-behaved objects finds a nearest of their hits within the
/// limit, and misses only where none of them hits within it.
pub proof fn lemma_scan_closest<H: Hitable>(items: Seq<H>, r: Ray, t_min: Scalar, t_max: Scalar)
    requires
        all_well_behaved(items, r, t_min),
    ensures
        is_closest(scan_hit(items, r, t_min, t_max), first_hits(items, r, t_min), t_max),
    decreases items.len(),
{
    if items.len() > 0 {
        let front = items.drop_last();
        let last = items.last();
        assert(well_behaved(last, r, t_min));
        assert forall|i: int| 0 <= i < front.len() implies well_behaved(#[trigger] front[i], r, t_min) by {
            assert(front[i] == items[i]);
        }
        lemma_scan_closest(front, r, t_min, t_max);
        let best = scan_hit(front, r, t_min, t_max);
        lemma_closest_single(last, r, t_min, limit_after(best, t_max));
        lemma_first_hits_numbers(front, r, t_min);
        lemma_closest_then(
            best,
            first_hits(front, r, t_min),
            last.hit_spec(r, t_min, limit_after(best, t_max)),
            seq![first_hit(last, r, t_min)],
            t_max,
        );
        assert(first_hits(front, r, t_min) + seq![first_hit(last, r, t_min)] == first_hits(
            items,
            r,
            t_min,
        ));
    }
}

/// Two nearest hits of the same collection of hits lie at the same
/// distance, and are the same hit where no two hits tie.
pub proof fn lemma_closest_agree(
    a: Option<HitRecord>,
    b: Option<HitRecord>,
    firsts_a: Seq<Option<HitRecord>>,
    firsts_b: Seq<Option<HitRecord>>,
    t_max: Scalar,
)
    requires
        all_numbers(firsts_a),
        is_closest(a, firsts_a, t_max),
        is_closest(b, firsts_b, t_max),
        forall|x: Option<HitRecord>| firsts_a.contains(x) <==> firsts_b.contains(x),
    ensures
        same_distance(a, b),
        no_ties(firsts_a) ==> a == b,
{
    assert forall|x: Option<HitRecord>| firsts_b.contains(x) implies (x matches Some(h)
        ==> !h.t.is_nan()) by {
        assert(firsts_a.contains(x));
    }
    match (a, b) {
        (Some(x), Some(y)) => {
            assert(firsts_a.contains(Some(x)));
            assert(firsts_b.contains(Some(x)));
            assert(firsts_b.contains(Some(y)));
            assert(firsts_a.contains(Some(y)));
            let ia = choose|i: int| 0 <= i < firsts_a.len() && firsts_a[i] == Some(x);
            let ja = choose|i: int| 0 <= i < firsts_a.len() && firsts_a[i] == Some(y);
            let ib = choose|i: int| 0 <= i < firsts_b.len() && firsts_b[i] == Some(x);
            assert(firsts_a[ja] == Some(y));
            assert(firsts_b[ib] == Some(x));
            assert(firsts_a[ia] == Some(x));
        },
        (Some(x), None) => {
            assert(firsts_b.contains(Some(x)));
            let ib = choose|i: int| 0 <= i < firsts_b.len() && firsts_b[i] == Some(x);
            assert(clip(firsts_b[ib], t_max).is_none());
        },
        (None, Some(y)) => {
            assert(firsts_a.contains(Some(y)));
            let ja = choose|i: int| 0 <= i < firsts_a.len() && firsts_a[i] == Some(y);
            assert(clip(firsts_a[ja], t_max).is_none());
        },
        (None, None) => {},
    }
}

/// The order of a list does not decide how far away its nearest hit is:
/// two lists that hold the same well-behaved objects find a hit at the same
/// distance, and the same hit where no two objects tie.
pub proof fn lemma_scan_order_independent<H: Hitable>(
    items: Seq<H>,
    shuffled: Seq<H>,
    r: Ray,
    t_min: Scalar,
    t_max: Scalar,
)
    requires
        all_well_behaved(items, r, t_min),
        items.to_multiset() == shuffled.to_multiset(),
    ensures
        same_distance(scan_hit(items, r, t_min, t_max), scan_hit(shuffled, r, t_min, t_max)),
        no_ties(first_hits(items, r, t_min)) ==> scan_hit(items, r, t_min, t_max) == scan_hit(
            shuffled,
            r,
            t_min,
            t_max,
        ),
{
    broadcast use vstd::seq_lib::group_to_multiset_ensures;

    assert forall|i: int| 0 <= i < shuffled.len() implies well_behaved(
        #[trigger] shuffled[i],
        r,
        t_min,
    ) by {
        assert(shuffled.to_multiset().count(shuffled[i]) > 0);
        assert(items.contains(shuffled[i]));
    }
    lemma_scan_closest(items, r, t_min, t_max);
    lemma_scan_closest(shuffled, r, t_min, t_max);
    lemma_first_hits_numbers(items, r, t_min);
    let fa = first_hits(items, r, t_min);
    let fb = first_hits(shuffled, r, t_min);
    assert forall|x: Option<HitRecord>| fa.contains(x) <==> fb.contains(x) by {
        if fa.contains(x) {
            let i = choose|i: int| 0 <= i < fa.len() && fa[i] == x;
            assert(items.to_multiset().count(items[i]) > 0);
            assert(shuffled.contains(items[i]));
            let j = choose|j: int| 0 <= j < shuffled.len() && shuffled[j] == items[i];
            assert(fb[j] == x);
        }
        if fb.contains(x) {
            let i = choose|i: int| 0 <= i < fb.len() && fb[i] == x;
            assert(shuffled.to_multiset().count(shuffled[i]) > 0);
            assert(items.contains(shuffled[i]));
            let j = choose|j: int| 0 <= j < items.len() && items[j] == shuffled[i];
            assert(fa[j] == x);
        }
    }
    lemma_closest_agree(
        scan_hit(items, r, t_min, t_max),
        scan_hit(shuffled, r, t_min, t_max),
        fa,
        fb,
        t_max,
    );
}

/// A list of well-behaved objects is itself well behaved: the upper limit
/// only cuts off what the scan without a limit finds.
pub proof fn lemma_list_well_behaved<H: Hitable>(items: Seq<H>, r: Ray, t_min: Scalar)
    requires
        all_well_behaved(items, r, t_min),
    ensures
        forall|t_max: Scalar| #[trigger]
            scan_hit(items, r, t_min, t_max) == clip(scan_hit(items, r, t_min, unbounded()), t_max),
        scan_hit(items, r, t_min, unbounded()) matches Some(h) ==> !h.t.is_nan(),
    decreases items.len(),
{
    if items.len() > 0 {
        let front = items.drop_last();
        let last = items.last();
        assert(well_behaved(last, r, t_min));
        assert forall|i: int| 0 <= i < front.len() implies well_behaved(#[trigger] front[i], r, t_min) by {
            assert(front[i] == items[i]);
        }
        lemma_list_well_behaved(front, r, t_min);
        let open = scan_hit(front, r, t_min, unbounded());
        let first = first_hit(last, r, t_min);
        assert(last.hit_spec(r, t_min, limit_after(open, unbounded())) == clip(
            first,
            limit_after(open, unbounded()),
        ));
        assert forall|t_max: Scalar| #[trigger]
            scan_hit(items, r, t_min, t_max) == clip(
                scan_hit(items, r, t_min, unbounded()),
                t_max,
            ) by {
            let cut = scan_hit(front, r, t_min, t_max);
            assert(cut == clip(open, t_max));
            assert(last.hit_spec(r, t_min, limit_after(cut, t_max)) == clip(
                first,
                limit_after(cut, t_max),
            ));
        }
    } else {
        assert forall|t_max: Scalar| #[trigger]
            scan_hit(items, r, t_min, t_max) == clip(
                scan_hit(items, r, t_min, unbounded()),
                t_max,
            ) by {}
    }
}

/// A list of well-behaved objects, taken as one object, is well behaved.
pub proof fn lemma_vec_well_behaved<H: Hitable>(list: Vec<H>, r: Ray, t_min: Scalar)
    requires
        all_well_behaved(list@, r, t_min),
    ensures
        well_behaved(list, r, t_min),
{
    lemma_list_well_behaved(list@, r, t_min);
    assert forall|t_max: Scalar| #[trigger]
        list.hit_spec(r, t_min, t_max) == clip(first_hit(list, r, t_min), t_max) by {
        assert(scan_hit(list@, r, t_min, t_max) == clip(
            scan_hit(list@, r, t_min, unbounded()),
            t_max,
        ));
    }
}

/// A shared handle to a well-behaved object is well behaved.
pub proof fn lemma_shared_well_behaved<H: Hitable>(item: Arc<H>, r: Ray, t_min: Scalar)
    requires
        well_behaved(*item, r, t_min),
    ensures
        well_behaved(item, r, t_min),
{
    assert forall|t_max: Scalar| #[trigger]
        item.hit_spec(r, t_min, t_max) == clip(first_hit(item, r, t_min), t_max) by {
        assert((*item).hit_spec(r, t_min, t_max) == clip(first_hit(*item, r, t_min), t_max));
    }
}

/// What trying the hits `firsts` one after the other finds up to `t_max`:
/// each is tried up to the best before it, and replaces the best where it
/// lies within that limit.
pub open spec fn nearest_of(firsts: Seq<Option<HitRecord>>, t_max: Scalar) -> Option<HitRecord>
    decreases firsts.len(),
{
    if firsts.len() == 0 {
        None
    } else {
        let best = nearest_of(firsts.drop_last(), t_max);
        later_hit(best, clip(firsts.last(), limit_after(best, t_max)))
    }
}

/// A scan of well-behaved objects is decided by their first hits alone.
pub proof fn lemma_scan_is_nearest_of<H: Hitable>(
    items: Seq<H>,
    r: Ray,
    t_min: Scalar,
    t_max: Scalar,
)
    requires
        all_well_behaved(items, r, t_min),
    ensures
        scan_hit(items, r, t_min, t_max) == nearest_of(first_hits(items, r, t_min), t_max),
    decreases items.len(),
{
    if items.len() > 0 {
        let front = items.drop_last();
        assert(well_behaved(items.last(), r, t_min));
        assert forall|i: int| 0 <= i < front.len() implies well_behaved(#[trigger] front[i], r, t_min) by {
            assert(front[i] == items[i]);
        }
        lemma_scan_is_nearest_of(front, r, t_min, t_max);
        assert(first_hits(items, r, t_min).drop_last() == first_hits(front, r, t_min));
        let best = scan_hit(front, r, t_min, t_max);
        assert(items.last().hit_spec(r, t_min, limit_after(best, t_max)) == clip(
            first_hit(items.last(), r, t_min),
            limit_after(best, t_max),
        ));
    }
}

/// Trying one run of hits and then another is trying the second run up to
/// what the first has found.
pub proof fn lemma_nearest_of_split(
    tried: Seq<Option<HitRecord>>,
    more: Seq<Option<HitRecord>>,
    t_max: Scalar,
)
    ensures
        nearest_of(tried + more, t_max) == later_hit(
            nearest_of(tried, t_max),
            nearest_of(more, limit_after(nearest_of(tried, t_max), t_max)),
        ),
    decreases more.len(),
{
    let best = nearest_of(tried, t_max);
    if more.len() == 0 {
        assert(tried + more == tried);
    } else {
        let front = more.drop_last();
        lemma_nearest_of_split(tried, front, t_max);
        assert((tried + more).drop_last() == tried + front);
        assert((tried + more).last() == more.last());
    }
}

/// Where the limit cuts off every one of the hits, nothing is found.
pub proof fn lemma_nearest_of_none(firsts: Seq<Option<HitRecord>>, t_max: Scalar)
    requires
        forall|i: int| 0 <= i < firsts.len() ==> clip(#[trigger] firsts[i], t_max).is_none(),
    ensures
        nearest_of(firsts, t_max).is_none(),
    decreases firsts.len(),
{
    if firsts.len() > 0 {
        let front = firsts.drop_last();
        assert forall|i: int| 0 <= i < front.len() implies clip(#[trigger] front[i], t_max).is_none() by {
            assert(front[i] == firsts[i]);
        }
        lemma_nearest_of_none(front, t_max);
        assert(clip(firsts[firsts.len() - 1], t_max).is_none());
    }
}

/// Trying a hit twice in a row finds what trying it once finds.
pub proof fn lemma_nearest_of_twice(first: Option<HitRecord>, t_max: Scalar)
    ensures
        nearest_of(seq![first, first], t_max) == nearest_of(seq![first], t_max),
        nearest_of(seq![first], t_max) == clip(first, t_max),
{
    let once = seq![first];
    let twice = seq![first, first];
    assert(once.drop_last() == Seq::<Option<HitRecord>>::empty());
    assert(twice.drop_last() == once);
    assert(nearest_of(once.drop_last(), t_max).is_none());
}

} // verus!
