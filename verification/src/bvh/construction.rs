//! Building the hierarchy: sorting along a drawn axis, halving, and taking
//! the unions of the boxes on the way back up.

use crate::bvh::{bounds_or_origin, BvhChild, BvhNode};
use crate::hitable::Hitable;
use crate::math::{lemma_encloses_transitive, lemma_surround_encloses, AABB};
use crate::rng::draw_axis;
use rand::rngs::SmallRng;
use vstd::prelude::*;

verus! {

/// The number by which an object is sorted along an axis: the lower corner of
/// its bounds there, as its place in the total order.
pub open spec fn sort_key<H: Hitable>(item: H, axis: int) -> int {
    bounds_or_origin(item).min.axis(axis).key as int
}

/// The number by which `item` is sorted along `axis`.
pub fn box_min_key<H: Hitable>(item: &H, axis: usize) -> (key: i32)
    requires
        axis < 3,
    ensures
        key == sort_key(*item, axis as int),
{
    let mut bounds = AABB::default();
    let _ = item.bbox(&mut bounds);
    bounds.min.get(axis).key
}

/// The items of `list` whose key along `axis` is `key`, in their order.
pub open spec fn with_key<H: Hitable>(list: Seq<H>, axis: int, key: int) -> Seq<H> {
    list.filter(|item: H| sort_key(item, axis) == key)
}

/// `after` is `before` sorted stably along `axis`: it holds the same items,
/// its keys never fall, and the items of each key stand as they stood.
pub open spec fn stably_sorted<H: Hitable>(before: Seq<H>, after: Seq<H>, axis: int) -> bool {
    &&& after.len() == before.len()
    &&& after.to_multiset() == before.to_multiset()
    &&& forall|i: int, j: int|
        0 <= i <= j < after.len() ==> sort_key(#[trigger] after[i], axis) <= sort_key(
            #[trigger] after[j],
            axis,
        )
    &&& forall|key: int| #[trigger] with_key(after, axis, key) == with_key(before, axis, key)
}

/// `<[T]>::sort_by_key` on the objects at the places `start..end`, with
/// [`box_min_key`] along `axis` as the key. The sort is the stable sort of
/// the standard library: it rearranges those objects so that their keys never
/// fall, keeps objects of equal key in their order, and touches no other
/// place of the list.
#[verifier::external_body]
fn sort_range_by_key<H: Hitable>(objects: &mut Vec<H>, start: usize, end: usize, axis: usize)
    requires
        start <= end <= old(objects)@.len(),
        axis < 3,
    ensures
        final(objects)@.len() == old(objects)@.len(),
        forall|i: int|
            0 <= i < start || end <= i < old(objects)@.len() ==> final(objects)@[i] == old(
                objects,
            )@[i],
        stably_sorted(
            old(objects)@.subrange(start as int, end as int),
            final(objects)@.subrange(start as int, end as int),
            axis as int,
        ),
{
    objects[start..end].sort_by_key(|item| box_min_key(item, axis));
}

impl BvhNode {
    /// The shape of the hierarchy over the places `start..end`: a single
    /// object hangs on both sides of its node; two objects hang one on each
    /// side; more are halved, the smaller half to the left.
    pub open spec fn covers(self, start: int, end: int) -> bool
        decreases self,
    {
        if end - start == 1 {
            self.left == BvhChild::Leaf(start as usize) && self.right == BvhChild::Leaf(
                start as usize,
            )
        } else if end - start == 2 {
            self.left == BvhChild::Leaf(start as usize) && self.right == BvhChild::Leaf(
                (start + 1) as usize,
            )
        } else if end - start > 2 {
            let mid = start + (end - start) / 2;
            match (self.left, self.right) {
                (BvhChild::Node(l), BvhChild::Node(r)) => l.covers(start, mid) && r.covers(
                    mid,
                    end,
                ),
                _ => false,
            }
        } else {
            false
        }
    }

    /// Along `axis` no object on the left lies after an object on the right.
    pub open spec fn split_along<H: Hitable>(self, objects: Seq<H>, axis: int) -> bool {
        forall|i: int, j: int|
            0 <= i < self.left.leaves().len() && 0 <= j < self.right.leaves().len() ==> sort_key(
                objects[#[trigger] self.left.leaves()[i]],
                axis,
            ) <= sort_key(objects[#[trigger] self.right.leaves()[j]], axis)
    }

    /// Every node from here down splits its objects along one of the three
    /// axes.
    pub open spec fn partitioned<H: Hitable>(self, objects: Seq<H>) -> bool
        decreases self,
    {
        &&& exists|axis: int| 0 <= axis < 3 && #[trigger] self.split_along(objects, axis)
        &&& match self.left {
            BvhChild::Leaf(_) => true,
            BvhChild::Node(n) => n.partitioned(objects),
        }
        &&& match self.right {
            BvhChild::Leaf(_) => true,
            BvhChild::Node(n) => n.partitioned(objects),
        }
    }
}

fn child_bounds<H: Hitable>(child: &BvhChild, objects: &Vec<H>) -> (bounds: AABB)
    requires
        child.in_range(objects@.len()),
    ensures
        bounds == child.bounds(objects@),
{
    match child {
        BvhChild::Leaf(i) => {
            let mut bounds = AABB::default();
            let _ = objects[*i].bbox(&mut bounds);
            bounds
        },
        BvhChild::Node(n) => n.aabb,
    }
}

impl BvhNode {
    /// Builds the hierarchy over the objects at the places `start..end`.
    ///
    /// One axis is drawn from `rng` for this node. A single object hangs on
    /// both sides of the node. Otherwise the objects of the range are sorted
    /// along the axis by the lower corners of their bounds, an object without
    /// bounds counting as the box at the origin; two objects hang one on each
    /// side, and more are halved and a hierarchy built over each half. The
    /// box of the node is the union of the boxes of its two sides.
    ///
    /// The objects are rearranged within `start..end` and nowhere else; the
    /// hierarchy names them by their new places.
    pub fn new<H: Hitable>(
        objects: &mut Vec<H>,
        start: usize,
        end: usize,
        rng: &mut SmallRng,
    ) -> (node: BvhNode)
        requires
            start < end <= old(objects)@.len(),
        ensures
            final(objects)@.len() == old(objects)@.len(),
            forall|i: int|
                0 <= i < start || end <= i < old(objects)@.len() ==> final(objects)@[i] == old(
                    objects,
                )@[i],
            final(objects)@.subrange(start as int, end as int).to_multiset() == old(
                objects,
            )@.subrange(start as int, end as int).to_multiset(),
            node.covers(start as int, end as int),
            node.in_range(final(objects)@.len()),
            node.boxed(final(objects)@),
            node.partitioned(final(objects)@),
        decreases end - start,
    {
        let axis = draw_axis(rng);
        let object_span = end - start;
        let ghost given = objects@;
        if object_span == 1 {
            let left = BvhChild::Leaf(start);
            let right = BvhChild::Leaf(start);
            let aabb = child_bounds(&left, objects).surround(child_bounds(&right, objects));
            let node = BvhNode { aabb, left, right };
            proof {
                assert(node.left.leaves()[0] == start);
                assert(node.right.leaves()[0] == start);
                assert(node.split_along(objects@, axis as int));
            }
            return node;
        }
        sort_range_by_key(objects, start, end, axis);
        let ghost sorted = objects@;
        proof {
            assert forall|i: int, j: int| start <= i <= j < end implies sort_key(
                sorted[i],
                axis as int,
            ) <= sort_key(sorted[j], axis as int) by {
                let range = sorted.subrange(start as int, end as int);
                assert(range[i - start] == sorted[i]);
                assert(range[j - start] == sorted[j]);
            }
        }
        if object_span == 2 {
            let left = BvhChild::Leaf(start);
            let right = BvhChild::Leaf(start + 1);
            let aabb = child_bounds(&left, objects).surround(child_bounds(&right, objects));
            let node = BvhNode { aabb, left, right };
            proof {
                assert(node.left.leaves()[0] == start);
                assert(node.right.leaves()[0] == start + 1);
                assert(node.split_along(objects@, axis as int));
            }
            return node;
        }
        let mid = start + object_span / 2;
        let lower = BvhNode::new(objects, start, mid, rng);
        let ghost halfway = objects@;
        let upper = BvhNode::new(objects, mid, end, rng);
        let ghost done = objects@;
        proof {
            lemma_covers_leaves(lower, start as int, mid as int);
            lemma_covers_leaves(upper, mid as int, end as int);
            lemma_frame(lower, start as int, mid as int, halfway, done);
        }
        let left = BvhChild::Node(Box::new(lower));
        let right = BvhChild::Node(Box::new(upper));
        let aabb = child_bounds(&left, objects).surround(child_bounds(&right, objects));
        let node = BvhNode { aabb, left, right };
        proof {
            assert(halfway.subrange(mid as int, end as int) == sorted.subrange(
                mid as int,
                end as int,
            ));
            assert(done.subrange(start as int, mid as int) == halfway.subrange(
                start as int,
                mid as int,
            ));
            lemma_ranges_join(done, sorted, start as int, mid as int, end as int);
            assert(node.left.leaves() == lower.leaves());
            assert(node.right.leaves() == upper.leaves());
            assert forall|i: int, j: int|
                0 <= i < node.left.leaves().len() && 0 <= j
                    < node.right.leaves().len() implies sort_key(
                done[#[trigger] node.left.leaves()[i]],
                axis as int,
            ) <= sort_key(done[#[trigger] node.right.leaves()[j]], axis as int) by {
                let low = lower.leaves()[i];
                let high = upper.leaves()[j];
                let was_low = lemma_found_in_range(done, sorted, start as int, mid as int, low);
                let was_high = lemma_found_in_range(done, sorted, mid as int, end as int, high);
                assert(start <= was_low <= was_high < end);
            }
            assert(node.split_along(done, axis as int));
        }
        node
    }
}

/// A hierarchy over `start..end` names every place of that range, and no
/// other.
pub proof fn lemma_covers_leaves(node: BvhNode, start: int, end: int)
    requires
        0 <= start < end <= usize::MAX,
        node.covers(start, end),
    ensures
        node.in_range(end as nat),
        forall|k: int| 0 <= k < node.leaves().len() ==> start <= #[trigger] node.leaves()[k] < end,
        forall|i: int| start <= i < end ==> node.leaves().contains(i),
        node.left.leaves().len() > 0,
        node.right.leaves().len() > 0,
    decreases node,
{
    if end - start == 1 {
        assert(node.leaves()[0] == start);
    } else if end - start == 2 {
        assert(node.leaves()[0] == start);
        assert(node.leaves()[1] == start + 1);
    } else {
        let mid = start + (end - start) / 2;
        match (node.left, node.right) {
            (BvhChild::Node(l), BvhChild::Node(r)) => {
                lemma_covers_leaves(*l, start, mid);
                lemma_covers_leaves(*r, mid, end);
                lemma_in_range_grows(*l, mid as nat, end as nat);
                assert forall|i: int| start <= i < end implies node.leaves().contains(i) by {
                    assert(node.left.leaves() == l.leaves());
                    assert(node.right.leaves() == r.leaves());
                    if i < mid {
                        assert(l.leaves().contains(i));
                        let k = choose|k: int| 0 <= k < l.leaves().len() && l.leaves()[k] == i;
                        assert(node.leaves()[k] == i);
                    } else {
                        assert(r.leaves().contains(i));
                        let k = choose|k: int| 0 <= k < r.leaves().len() && r.leaves()[k] == i;
                        assert(node.leaves()[l.leaves().len() + k] == i);
                    }
                }
            },
            _ => {},
        }
    }
}

/// A hierarchy in range of a list is in range of every longer list.
pub proof fn lemma_in_range_grows(node: BvhNode, len: nat, longer: nat)
    requires
        node.in_range(len),
        len <= longer,
    ensures
        node.in_range(longer),
    decreases node,
{
    match node.left {
        BvhChild::Leaf(_) => {},
        BvhChild::Node(n) => lemma_in_range_grows(*n, len, longer),
    }
    match node.right {
        BvhChild::Leaf(_) => {},
        BvhChild::Node(n) => lemma_in_range_grows(*n, len, longer),
    }
}

/// What is stated of a hierarchy over `start..end` speaks of the objects at
/// those places alone.
pub proof fn lemma_frame<H: Hitable>(node: BvhNode, start: int, end: int, a: Seq<H>, b: Seq<H>)
    requires
        0 <= start < end <= usize::MAX,
        node.covers(start, end),
        end <= a.len(),
        end <= b.len(),
        forall|i: int| start <= i < end ==> a[i] == b[i],
    ensures
        node.boxed(a) == node.boxed(b),
        node.partitioned(a) == node.partitioned(b),
        node.left.bounds(a) == node.left.bounds(b),
        node.right.bounds(a) == node.right.bounds(b),
    decreases node,
{
    lemma_covers_leaves(node, start, end);
    let ll = node.left.leaves();
    let rl = node.right.leaves();
    assert forall|k: int| 0 <= k < ll.len() implies a[#[trigger] ll[k]] == b[ll[k]] by {
        assert(node.leaves()[k] == ll[k]);
    }
    assert forall|k: int| 0 <= k < rl.len() implies a[#[trigger] rl[k]] == b[rl[k]] by {
        assert(node.leaves()[ll.len() + k] == rl[k]);
    }
    assert forall|axis: int| node.split_along(a, axis) == node.split_along(b, axis) by {
        if node.split_along(a, axis) {
            assert forall|i: int, j: int| 0 <= i < ll.len() && 0 <= j < rl.len() implies sort_key(
                b[#[trigger] ll[i]],
                axis,
            ) <= sort_key(b[#[trigger] rl[j]], axis) by {
                assert(a[ll[i]] == b[ll[i]]);
                assert(a[rl[j]] == b[rl[j]]);
            }
        }
        if node.split_along(b, axis) {
            assert forall|i: int, j: int| 0 <= i < ll.len() && 0 <= j < rl.len() implies sort_key(
                a[#[trigger] ll[i]],
                axis,
            ) <= sort_key(a[#[trigger] rl[j]], axis) by {
                assert(a[ll[i]] == b[ll[i]]);
                assert(a[rl[j]] == b[rl[j]]);
            }
        }
    }
    if end - start > 2 {
        let mid = start + (end - start) / 2;
        match (node.left, node.right) {
            (BvhChild::Node(l), BvhChild::Node(r)) => {
                lemma_frame(*l, start, mid, a, b);
                lemma_frame(*r, mid, end, a, b);
            },
            _ => {},
        }
    } else {
        assert(ll[0] == start);
        assert(a[start] == b[start]);
        if end - start == 2 {
            assert(rl[0] == start + 1);
            assert(a[start + 1] == b[start + 1]);
        } else {
            assert(rl[0] == start);
        }
    }
    if exists|axis: int| 0 <= axis < 3 && #[trigger] node.split_along(a, axis) {
        let axis = choose|axis: int| 0 <= axis < 3 && #[trigger] node.split_along(a, axis);
        assert(node.split_along(b, axis));
    }
    if exists|axis: int| 0 <= axis < 3 && #[trigger] node.split_along(b, axis) {
        let axis = choose|axis: int| 0 <= axis < 3 && #[trigger] node.split_along(b, axis);
        assert(node.split_along(a, axis));
    }
}

/// An object at a place of a range stands at some place of that range in
/// every list that holds the same objects there.
proof fn lemma_found_in_range<H>(a: Seq<H>, b: Seq<H>, start: int, end: int, i: int) -> (j: int)
    requires
        0 <= start <= i < end <= a.len(),
        end <= b.len(),
        a.subrange(start, end).to_multiset() == b.subrange(start, end).to_multiset(),
    ensures
        start <= j < end,
        b[j] == a[i],
{
    broadcast use vstd::seq_lib::group_to_multiset_ensures;

    let sa = a.subrange(start, end);
    let sb = b.subrange(start, end);
    assert(sa[i - start] == a[i]);
    assert(sa.contains(a[i]));
    assert(sa.to_multiset().count(a[i]) > 0);
    assert(sb.contains(a[i]));
    let k = choose|k: int| 0 <= k < sb.len() && sb[k] == a[i];
    start + k
}

/// Two lists that hold the same objects in each of two adjoining ranges hold
/// the same objects in the two ranges together.
proof fn lemma_ranges_join<H>(a: Seq<H>, b: Seq<H>, start: int, mid: int, end: int)
    requires
        0 <= start <= mid <= end <= a.len(),
        end <= b.len(),
        a.subrange(start, mid).to_multiset() == b.subrange(start, mid).to_multiset(),
        a.subrange(mid, end).to_multiset() == b.subrange(mid, end).to_multiset(),
    ensures
        a.subrange(start, end).to_multiset() == b.subrange(start, end).to_multiset(),
{
    vstd::seq_lib::lemma_multiset_commutative(a.subrange(start, mid), a.subrange(mid, end));
    vstd::seq_lib::lemma_multiset_commutative(b.subrange(start, mid), b.subrange(mid, end));
    assert(a.subrange(start, mid) + a.subrange(mid, end) == a.subrange(start, end));
    assert(b.subrange(start, mid) + b.subrange(mid, end) == b.subrange(start, end));
}

/// Every object at the places `leaves` has valid bounds, or none.
pub open spec fn bounds_valid<H: Hitable>(leaves: Seq<int>, objects: Seq<H>) -> bool {
    forall|k: int|
        0 <= k < leaves.len() ==> bounds_or_origin(objects[#[trigger] leaves[k]]).is_valid()
}

proof fn lemma_child_encloses<H: Hitable>(child: BvhChild, objects: Seq<H>)
    requires
        child.boxed(objects),
        bounds_valid(child.leaves(), objects),
    ensures
        child.bounds(objects).is_valid(),
        forall|k: int|
            0 <= k < child.leaves().len() ==> child.bounds(objects).encloses(
                bounds_or_origin(objects[#[trigger] child.leaves()[k]]),
            ),
    decreases child, 0nat,
{
    match child {
        BvhChild::Leaf(i) => {
            assert(child.leaves()[0] == i);
        },
        BvhChild::Node(n) => {
            lemma_node_encloses(*n, objects);
        },
    }
}

/// The box of a node bounds every object below it: where the objects have
/// valid bounds, the box of a node whose boxes are unions is valid and
/// encloses the bounds of each object below the node.
pub proof fn lemma_node_encloses<H: Hitable>(node: BvhNode, objects: Seq<H>)
    requires
        node.boxed(objects),
        bounds_valid(node.leaves(), objects),
    ensures
        node.aabb.is_valid(),
        node.aabb.encloses(node.left.bounds(objects)),
        node.aabb.encloses(node.right.bounds(objects)),
        forall|k: int|
            0 <= k < node.leaves().len() ==> node.aabb.encloses(
                bounds_or_origin(objects[#[trigger] node.leaves()[k]]),
            ),
    decreases node, 1nat,
{
    let ll = node.left.leaves();
    let rl = node.right.leaves();
    assert forall|k: int| 0 <= k < ll.len() implies bounds_or_origin(
        objects[#[trigger] ll[k]],
    ).is_valid() by {
        assert(node.leaves()[k] == ll[k]);
    }
    assert forall|k: int| 0 <= k < rl.len() implies bounds_or_origin(
        objects[#[trigger] rl[k]],
    ).is_valid() by {
        assert(node.leaves()[ll.len() + k] == rl[k]);
    }
    lemma_child_encloses(node.left, objects);
    lemma_child_encloses(node.right, objects);
    let a = node.left.bounds(objects);
    let b = node.right.bounds(objects);
    lemma_surround_encloses(a, b);
    assert forall|k: int| 0 <= k < node.leaves().len() implies node.aabb.encloses(
        bounds_or_origin(objects[#[trigger] node.leaves()[k]]),
    ) by {
        if k < ll.len() {
            assert(node.leaves()[k] == ll[k]);
            lemma_encloses_transitive(node.aabb, a, bounds_or_origin(objects[ll[k]]));
        } else {
            let j = k - ll.len();
            assert(node.leaves()[k] == rl[j]);
            lemma_encloses_transitive(node.aabb, b, bounds_or_origin(objects[rl[j]]));
        }
    }
}

/// Two to the power `n`.
pub open spec fn two_to(n: nat) -> nat
    decreases n,
{
    if n == 0 {
        1
    } else {
        2 * two_to((n - 1) as nat)
    }
}

impl BvhChild {
    /// The number of nodes on the longest way down from here to an object.
    pub open spec fn height(self) -> nat
        decreases self,
    {
        match self {
            BvhChild::Leaf(_) => 0,
            BvhChild::Node(n) => n.height(),
        }
    }
}

impl BvhNode {
    /// The number of nodes on the longest way down from here to an object.
    pub open spec fn height(self) -> nat
        decreases self,
    {
        if self.left.height() >= self.right.height() {
            1 + self.left.height()
        } else {
            1 + self.right.height()
        }
    }
}

/// The hierarchy is balanced: over one or two objects it is a single node,
/// and over more objects its height is the least `h` with `2^h` not below
/// their number, so that a way down passes no more boxes than the number of
/// objects has binary digits.
pub proof fn lemma_height_is_logarithmic(node: BvhNode, start: int, end: int)
    requires
        0 <= start < end,
        node.covers(start, end),
    ensures
        node.height() >= 1,
        end - start <= 2 ==> node.height() == 1,
        end - start <= two_to(node.height()),
        end - start >= 2 ==> two_to((node.height() - 1) as nat) < end - start,
    decreases node,
{
    let span = end - start;
    if span > 2 {
        let mid = start + span / 2;
        match (node.left, node.right) {
            (BvhChild::Node(l), BvhChild::Node(r)) => {
                lemma_height_is_logarithmic(*l, start, mid);
                lemma_height_is_logarithmic(*r, mid, end);
                let hl = l.height();
                let hr = r.height();
                assert(node.left.height() == hl);
                assert(node.right.height() == hr);
                assert(two_to(hl) == 2 * two_to((hl - 1) as nat));
                assert(two_to(hr) == 2 * two_to((hr - 1) as nat));
                assert(two_to(1) == 2 * two_to(0));
                assert(two_to(hl) < span);
                assert(two_to(hr) < span);
                assert(two_to(node.height()) == 2 * two_to((node.height() - 1) as nat));
                lemma_two_to_grows(hl, (node.height() - 1) as nat);
                lemma_two_to_grows(hr, (node.height() - 1) as nat);
            },
            _ => {},
        }
    } else {
        assert(node.height() == 1);
        assert(two_to(1) == 2 * two_to(0));
    }
}

/// A larger power of two is not smaller.
proof fn lemma_two_to_grows(a: nat, b: nat)
    requires
        a <= b,
    ensures
        two_to(a) <= two_to(b),
    decreases b,
{
    if a < b {
        lemma_two_to_grows(a, (b - 1) as nat);
    }
}

} // verus!
