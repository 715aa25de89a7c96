//! What the search of a hierarchy finds: what a scan of the bare list of
//! its objects finds.

use crate::bvh::construction::{lemma_covers_leaves, lemma_in_range_grows};
use crate::bvh::{BvhChild, BvhNode};
use crate::hitable::closest::{
    all_well_behaved, clip, first_hit, first_hits, lemma_nearest_of_none, lemma_nearest_of_split,
    lemma_nearest_of_twice, lemma_scan_is_nearest_of, lemma_scan_order_independent, nearest_of,
    no_ties, same_distance, well_behaved,
};
use crate::hitable::{later_hit, limit_after, scan_hit, HitRecord, Hitable};
use crate::math::{Ray, AABB};
use crate::scalar::Scalar;
use vstd::prelude::*;

verus! {

/// The first hits of the objects at the places `leaves`, in that order.
pub open spec fn hits_of<H: Hitable>(leaves: Seq<int>, objects: Seq<H>, r: Ray, t_min: Scalar) -> Seq<
    Option<HitRecord>,
> {
    Seq::new(leaves.len(), |k: int| first_hit(objects[leaves[k]], r, t_min))
}

/// The places named below a child in range are places of the list.
pub proof fn lemma_child_leaves_in_range(child: BvhChild, len: nat)
    requires
        child.in_range(len),
    ensures
        forall|k: int| 0 <= k < child.leaves().len() ==> 0 <= #[trigger] child.leaves()[k] < len,
        child.leaves().len() > 0,
    decreases child, 0nat,
{
    match child {
        BvhChild::Leaf(_) => {},
        BvhChild::Node(n) => {
            lemma_leaves_in_range(*n, len);
        },
    }
}

/// The places named below a node in range are places of the list.
pub proof fn lemma_leaves_in_range(node: BvhNode, len: nat)
    requires
        node.in_range(len),
    ensures
        forall|k: int| 0 <= k < node.leaves().len() ==> 0 <= #[trigger] node.leaves()[k] < len,
        node.leaves().len() > 0,
    decreases node, 1nat,
{
    lemma_child_leaves_in_range(node.left, len);
    lemma_child_leaves_in_range(node.right, len);
}

proof fn lemma_child_search_is_scan<H: Hitable, B: Fn(AABB, Ray, Scalar, Scalar) -> bool>(
    child: BvhChild,
    objects: Seq<H>,
    crosses: B,
    r: Ray,
    t_min: Scalar,
    t_max: Scalar,
    res: Option<HitRecord>,
)
    requires
        child.in_range(objects.len()),
        all_well_behaved(objects, r, t_min),
        child.box_sound(objects, crosses, r, t_min),
        child.may_find(objects, crosses, r, t_min, t_max, res),
    ensures
        res == nearest_of(hits_of(child.leaves(), objects, r, t_min), t_max),
    decreases child, 0nat,
{
    match child {
        BvhChild::Leaf(i) => {
            let first = first_hit(objects[i as int], r, t_min);
            assert(well_behaved(objects[i as int], r, t_min));
            assert(objects[i as int].hit_spec(r, t_min, t_max) == clip(first, t_max));
            lemma_nearest_of_twice(first, t_max);
            assert(hits_of(child.leaves(), objects, r, t_min) == seq![first]);
        },
        BvhChild::Node(n) => {
            lemma_search_is_scan_of_leaves(*n, objects, crosses, r, t_min, t_max, res);
        },
    }
}

/// Whatever the box tests answered, so long as none turned away a ray that
/// hits an object inside its box, the search of a node ends as a scan of
/// the objects below it ends, taken from left to right.
pub proof fn lemma_search_is_scan_of_leaves<H: Hitable, B: Fn(AABB, Ray, Scalar, Scalar) -> bool>(
    node: BvhNode,
    objects: Seq<H>,
    crosses: B,
    r: Ray,
    t_min: Scalar,
    t_max: Scalar,
    res: Option<HitRecord>,
)
    requires
        node.in_range(objects.len()),
        all_well_behaved(objects, r, t_min),
        node.box_sound(objects, crosses, r, t_min),
        node.may_find(objects, crosses, r, t_min, t_max, res),
    ensures
        res == nearest_of(hits_of(node.leaves(), objects, r, t_min), t_max),
    decreases node, 1nat,
{
    let hits = hits_of(node.leaves(), objects, r, t_min);
    if call_ensures(crosses, (node.aabb, r, t_min, t_max), false) && res.is_none() {
        assert forall|k: int| 0 <= k < hits.len() implies clip(#[trigger] hits[k], t_max).is_none() by {
            assert(node.box_sound_here(objects, crosses, r, t_min));
            let i = node.leaves()[k];
        }
        lemma_nearest_of_none(hits, t_max);
    } else {
        let (left, right): (Option<HitRecord>, Option<HitRecord>) = choose|
            left: Option<HitRecord>,
            right: Option<HitRecord>,
        |
            {
                &&& res == #[trigger] later_hit(left, right)
                &&& node.left.may_find(objects, crosses, r, t_min, t_max, left)
                &&& node.right.may_find(objects, crosses, r, t_min, limit_after(left, t_max), right)
            };
        lemma_child_search_is_scan(node.left, objects, crosses, r, t_min, t_max, left);
        lemma_child_search_is_scan(
            node.right,
            objects,
            crosses,
            r,
            t_min,
            limit_after(left, t_max),
            right,
        );
        let left_hits = hits_of(node.left.leaves(), objects, r, t_min);
        let right_hits = hits_of(node.right.leaves(), objects, r, t_min);
        lemma_nearest_of_split(left_hits, right_hits, t_max);
        assert(left_hits + right_hits == hits);
    }
}

/// Below a hierarchy over `start..end` a scan from left to right meets the
/// objects of that range in their order, a single object twice in a row.
pub proof fn lemma_leaves_in_order<H: Hitable>(
    node: BvhNode,
    objects: Seq<H>,
    start: int,
    end: int,
    r: Ray,
    t_min: Scalar,
    t_max: Scalar,
)
    requires
        0 <= start < end <= objects.len(),
        end <= usize::MAX,
        node.covers(start, end),
    ensures
        nearest_of(hits_of(node.leaves(), objects, r, t_min), t_max) == nearest_of(
            first_hits(objects.subrange(start, end), r, t_min),
            t_max,
        ),
    decreases node,
{
    let hits = hits_of(node.leaves(), objects, r, t_min);
    let range = first_hits(objects.subrange(start, end), r, t_min);
    if end - start == 1 {
        let first = first_hit(objects[start], r, t_min);
        lemma_nearest_of_twice(first, t_max);
        assert(node.leaves() == seq![start, start]);
        assert(hits == seq![first, first]);
        assert(range == seq![first]);
    } else if end - start == 2 {
        assert(node.leaves() == seq![start, start + 1]);
        assert(hits == range);
    } else {
        let mid = start + (end - start) / 2;
        match (node.left, node.right) {
            (BvhChild::Node(l), BvhChild::Node(u)) => {
                let lower = hits_of(l.leaves(), objects, r, t_min);
                let upper = hits_of(u.leaves(), objects, r, t_min);
                let lower_range = first_hits(objects.subrange(start, mid), r, t_min);
                let upper_range = first_hits(objects.subrange(mid, end), r, t_min);
                assert(node.left.leaves() == l.leaves());
                assert(node.right.leaves() == u.leaves());
                assert(hits == lower + upper);
                assert(range == lower_range + upper_range);
                lemma_leaves_in_order(*l, objects, start, mid, r, t_min, t_max);
                let limit = limit_after(nearest_of(lower, t_max), t_max);
                lemma_leaves_in_order(*u, objects, mid, end, r, t_min, limit);
                lemma_nearest_of_split(lower, upper, t_max);
                lemma_nearest_of_split(lower_range, upper_range, t_max);
            },
            _ => {},
        }
    }
}

/// The search of a hierarchy is a scan of its objects.
///
/// Let a hierarchy stand over the places `start..end` of `objects`; let the
/// objects be well behaved for the ray, and let no box test turn away a ray
/// that hits an object inside the box. Then the search of the hierarchy ends
/// exactly as the scan of those objects in their order ends, whatever the
/// box tests answered.
pub proof fn lemma_search_is_scan<H: Hitable, B: Fn(AABB, Ray, Scalar, Scalar) -> bool>(
    node: BvhNode,
    objects: Seq<H>,
    start: int,
    end: int,
    crosses: B,
    r: Ray,
    t_min: Scalar,
    t_max: Scalar,
    res: Option<HitRecord>,
)
    requires
        0 <= start < end <= objects.len(),
        end <= usize::MAX,
        node.covers(start, end),
        all_well_behaved(objects, r, t_min),
        node.box_sound(objects, crosses, r, t_min),
        node.may_find(objects, crosses, r, t_min, t_max, res),
    ensures
        res == scan_hit(objects.subrange(start, end), r, t_min, t_max),
{
    lemma_covers_leaves(node, start, end);
    lemma_in_range_grows(node, end as nat, objects.len());
    lemma_search_is_scan_of_leaves(node, objects, crosses, r, t_min, t_max, res);
    lemma_leaves_in_order(node, objects, start, end, r, t_min, t_max);
    let range = objects.subrange(start, end);
    assert forall|i: int| 0 <= i < range.len() implies well_behaved(#[trigger] range[i], r, t_min) by {
        assert(range[i] == objects[start + i]);
    }
    lemma_scan_is_nearest_of(range, r, t_min, t_max);
}

/// The search of a hierarchy and the scan of a list agree.
///
/// Let a hierarchy be built over the whole of `objects`, a rearrangement of
/// the list `given`; let every object be well behaved for the ray, and let no
/// box test turn away a ray that hits an object inside the box. Then whatever
/// the search of the hierarchy ends with lies at the same distance as what
/// the scan of `given` finds, a miss matching a miss; and where no two
/// objects are hit at the same distance, the two find the same hit.
pub proof fn lemma_search_agrees_with_scan<H: Hitable, B: Fn(AABB, Ray, Scalar, Scalar) -> bool>(
    node: BvhNode,
    given: Seq<H>,
    objects: Seq<H>,
    crosses: B,
    r: Ray,
    t_min: Scalar,
    t_max: Scalar,
    res: Option<HitRecord>,
)
    requires
        0 < objects.len() <= usize::MAX,
        given.to_multiset() == objects.to_multiset(),
        node.covers(0, objects.len() as int),
        all_well_behaved(given, r, t_min),
        node.box_sound(objects, crosses, r, t_min),
        node.may_find(objects, crosses, r, t_min, t_max, res),
    ensures
        same_distance(scan_hit(given, r, t_min, t_max), res),
        no_ties(first_hits(given, r, t_min)) ==> res == scan_hit(given, r, t_min, t_max),
{
    broadcast use vstd::seq_lib::group_to_multiset_ensures;

    assert forall|i: int| 0 <= i < objects.len() implies well_behaved(
        #[trigger] objects[i],
        r,
        t_min,
    ) by {
        assert(objects.to_multiset().count(objects[i]) > 0);
        assert(given.contains(objects[i]));
    }
    lemma_search_is_scan(node, objects, 0, objects.len() as int, crosses, r, t_min, t_max, res);
    assert(objects.subrange(0, objects.len() as int) == objects);
    lemma_scan_order_independent(given, objects, r, t_min, t_max);
}

/// A ray that the box test turns away from a node finds nothing below it.
pub proof fn lemma_turned_away<H: Hitable, B: Fn(AABB, Ray, Scalar, Scalar) -> bool>(
    node: BvhNode,
    objects: Seq<H>,
    crosses: B,
    r: Ray,
    t_min: Scalar,
    t_max: Scalar,
    res: Option<HitRecord>,
)
    requires
        node.may_find(objects, crosses, r, t_min, t_max, res),
        !call_ensures(crosses, (node.aabb, r, t_min, t_max), true),
    ensures
        res.is_none(),
{
}

/// A ray that the box test lets into a node finds what the children find,
/// the right child searched up to the hit of the left.
pub proof fn lemma_let_in<H: Hitable, B: Fn(AABB, Ray, Scalar, Scalar) -> bool>(
    node: BvhNode,
    objects: Seq<H>,
    crosses: B,
    r: Ray,
    t_min: Scalar,
    t_max: Scalar,
    res: Option<HitRecord>,
)
    requires
        node.may_find(objects, crosses, r, t_min, t_max, res),
        !call_ensures(crosses, (node.aabb, r, t_min, t_max), false),
    ensures
        exists|left: Option<HitRecord>, right: Option<HitRecord>|
            {
                &&& res == #[trigger] later_hit(left, right)
                &&& node.left.may_find(objects, crosses, r, t_min, t_max, left)
                &&& node.right.may_find(objects, crosses, r, t_min, limit_after(left, t_max), right)
            },
{
}

} // verus!
