//! A scene made ready for tracing: the hierarchy together with its objects
//! and its box test, as one object.

use crate::bvh::construction::lemma_covers_leaves;
use crate::bvh::search::{lemma_search_agrees_with_scan, lemma_search_is_scan};
use crate::bvh::{box_test_total, BvhChild, BvhNode};
use crate::hitable::closest::{
    all_well_behaved, clip, first_hit, first_hits, lemma_list_well_behaved, no_ties,
    same_distance, unbounded, well_behaved,
};
use crate::hitable::{later_hit, limit_after, scan_hit, HitRecord, Hitable};
use crate::math::{Ray, AABB};
use crate::scalar::Scalar;
use rand::rngs::SmallRng;
use vstd::prelude::*;

verus! {

/// The box test is a function of its arguments: asked the same twice, it
/// answers the same.
pub open spec fn box_test_settled<B: Fn(AABB, Ray, Scalar, Scalar) -> bool>(crosses: B) -> bool {
    forall|b: AABB, r: Ray, lo: Scalar, hi: Scalar, yes: bool, no: bool|
        call_ensures(crosses, (b, r, lo, hi), yes) && call_ensures(crosses, (b, r, lo, hi), no)
            ==> yes == no
}

/// What a settled box test answers.
pub open spec fn box_answer<B: Fn(AABB, Ray, Scalar, Scalar) -> bool>(
    crosses: B,
    b: AABB,
    r: Ray,
    t_min: Scalar,
    t_max: Scalar,
) -> bool {
    choose|answer: bool| call_ensures(crosses, (b, r, t_min, t_max), answer)
}

/// The box test has an answer to every question.
pub open spec fn box_test_answers<B: Fn(AABB, Ray, Scalar, Scalar) -> bool>(crosses: B) -> bool {
    forall|b: AABB, r: Ray, lo: Scalar, hi: Scalar|
        call_ensures(crosses, (b, r, lo, hi), #[trigger] box_answer(crosses, b, r, lo, hi))
}

impl BvhChild {
    /// What the search below this child finds, the box test being settled.
    pub open spec fn finds<H: Hitable, B: Fn(AABB, Ray, Scalar, Scalar) -> bool>(
        self,
        objects: Seq<H>,
        crosses: B,
        r: Ray,
        t_min: Scalar,
        t_max: Scalar,
    ) -> Option<HitRecord>
        decreases self, 0nat,
    {
        match self {
            BvhChild::Leaf(i) => objects[i as int].hit_spec(r, t_min, t_max),
            BvhChild::Node(n) => n.finds(objects, crosses, r, t_min, t_max),
        }
    }
}

impl BvhNode {
    /// What the search of this node finds, the box test being settled:
    /// nothing where the box test turns the ray away; else what the right
    /// child finds up to the hit of the left child, or failing that, what
    /// the left child finds.
    pub open spec fn finds<H: Hitable, B: Fn(AABB, Ray, Scalar, Scalar) -> bool>(
        self,
        objects: Seq<H>,
        crosses: B,
        r: Ray,
        t_min: Scalar,
        t_max: Scalar,
    ) -> Option<HitRecord>
        decreases self, 1nat,
    {
        if !box_answer(crosses, self.aabb, r, t_min, t_max) {
            None
        } else {
            let left = self.left.finds(objects, crosses, r, t_min, t_max);
            let right = self.right.finds(objects, crosses, r, t_min, limit_after(left, t_max));
            later_hit(left, right)
        }
    }
}

proof fn lemma_settled_child<H: Hitable, B: Fn(AABB, Ray, Scalar, Scalar) -> bool>(
    child: BvhChild,
    objects: Seq<H>,
    crosses: B,
    r: Ray,
    t_min: Scalar,
    t_max: Scalar,
    res: Option<HitRecord>,
)
    requires
        box_test_settled(crosses),
        child.may_find(objects, crosses, r, t_min, t_max, res),
    ensures
        res == child.finds(objects, crosses, r, t_min, t_max),
    decreases child, 0nat,
{
    match child {
        BvhChild::Leaf(_) => {},
        BvhChild::Node(n) => lemma_settled_search(*n, objects, crosses, r, t_min, t_max, res),
    }
}

/// With a settled box test the search of a node can end in one way only.
pub proof fn lemma_settled_search<H: Hitable, B: Fn(AABB, Ray, Scalar, Scalar) -> bool>(
    node: BvhNode,
    objects: Seq<H>,
    crosses: B,
    r: Ray,
    t_min: Scalar,
    t_max: Scalar,
    res: Option<HitRecord>,
)
    requires
        box_test_settled(crosses),
        node.may_find(objects, crosses, r, t_min, t_max, res),
    ensures
        res == node.finds(objects, crosses, r, t_min, t_max),
        call_ensures(
            crosses,
            (node.aabb, r, t_min, t_max),
            box_answer(crosses, node.aabb, r, t_min, t_max),
        ),
    decreases node, 1nat,
{
    if call_ensures(crosses, (node.aabb, r, t_min, t_max), false) && res.is_none() {
        assert(!box_answer(crosses, node.aabb, r, t_min, t_max));
    } else {
        assert(call_ensures(crosses, (node.aabb, r, t_min, t_max), true));
        assert(box_answer(crosses, node.aabb, r, t_min, t_max));
        let (left, right): (Option<HitRecord>, Option<HitRecord>) = choose|
            left: Option<HitRecord>,
            right: Option<HitRecord>,
        |
            {
                &&& res == #[trigger] later_hit(left, right)
                &&& node.left.may_find(objects, crosses, r, t_min, t_max, left)
                &&& node.right.may_find(objects, crosses, r, t_min, limit_after(left, t_max), right)
            };
        lemma_settled_child(node.left, objects, crosses, r, t_min, t_max, left);
        lemma_settled_child(
            node.right,
            objects,
            crosses,
            r,
            t_min,
            limit_after(left, t_max),
            right,
        );
    }
}

proof fn lemma_child_finds_may_be_found<H: Hitable, B: Fn(AABB, Ray, Scalar, Scalar) -> bool>(
    child: BvhChild,
    objects: Seq<H>,
    crosses: B,
    r: Ray,
    t_min: Scalar,
    t_max: Scalar,
)
    requires
        box_test_answers(crosses),
    ensures
        child.may_find(
            objects,
            crosses,
            r,
            t_min,
            t_max,
            child.finds(objects, crosses, r, t_min, t_max),
        ),
    decreases child, 0nat,
{
    match child {
        BvhChild::Leaf(_) => {},
        BvhChild::Node(n) => lemma_finds_may_be_found(*n, objects, crosses, r, t_min, t_max),
    }
}

/// Where the box test answers every question, what `finds` says is a result
/// that the search can end with.
pub proof fn lemma_finds_may_be_found<H: Hitable, B: Fn(AABB, Ray, Scalar, Scalar) -> bool>(
    node: BvhNode,
    objects: Seq<H>,
    crosses: B,
    r: Ray,
    t_min: Scalar,
    t_max: Scalar,
)
    requires
        box_test_answers(crosses),
    ensures
        node.may_find(
            objects,
            crosses,
            r,
            t_min,
            t_max,
            node.finds(objects, crosses, r, t_min, t_max),
        ),
    decreases node, 1nat,
{
    let answer = box_answer(crosses, node.aabb, r, t_min, t_max);
    assert(call_ensures(crosses, (node.aabb, r, t_min, t_max), answer));
    if answer {
        let left = node.left.finds(objects, crosses, r, t_min, t_max);
        let right = node.right.finds(objects, crosses, r, t_min, limit_after(left, t_max));
        lemma_child_finds_may_be_found(node.left, objects, crosses, r, t_min, t_max);
        lemma_child_finds_may_be_found(
            node.right,
            objects,
            crosses,
            r,
            t_min,
            limit_after(left, t_max),
        );
        assert(node.finds(objects, crosses, r, t_min, t_max) == later_hit(left, right));
    }
}

/// A scene made ready for tracing: the objects, the hierarchy of boxes over
/// them, and the test of a ray against a box. It is an object like the
/// objects it holds.
pub struct Bvh<H: Hitable, B: Fn(AABB, Ray, Scalar, Scalar) -> bool> {
    objects: Vec<H>,
    root: BvhNode,
    crosses: B,
}

impl<H: Hitable, B: Fn(AABB, Ray, Scalar, Scalar) -> bool> Bvh<H, B> {
    /// The hierarchy stands over all the objects, every box in it is the
    /// union of the boxes below it, and the box test is total and settled.
    #[verifier::type_invariant]
    pub closed spec fn well_formed(&self) -> bool {
        &&& 0 < self.objects@.len() <= usize::MAX
        &&& self.root.covers(0, self.objects@.len() as int)
        &&& self.root.boxed(self.objects@)
        &&& self.root.partitioned(self.objects@)
        &&& box_test_total(self.crosses)
        &&& box_test_settled(self.crosses)
    }

    /// The objects, in the order that the hierarchy has put them in.
    pub closed spec fn objects(&self) -> Seq<H> {
        self.objects@
    }

    /// The root of the hierarchy.
    pub closed spec fn root(&self) -> BvhNode {
        self.root
    }

    /// The test of a ray against a box.
    pub closed spec fn box_test(&self) -> B {
        self.crosses
    }

    /// Builds the hierarchy over `objects`, drawing the split axes from
    /// `rng`. There is no hierarchy over no objects.
    pub fn build(objects: Vec<H>, crosses: B, rng: &mut SmallRng) -> (scene: Option<
        Bvh<H, B>,
    >)
        requires
            box_test_total(crosses),
            box_test_settled(crosses),
        ensures
            scene.is_some() == (objects@.len() > 0),
            scene matches Some(bvh) ==> {
                &&& bvh.well_formed()
                &&& bvh.objects().to_multiset() == objects@.to_multiset()
                &&& bvh.box_test() == crosses
                &&& bvh.root().covers(0, objects@.len() as int)
                &&& bvh.root().boxed(bvh.objects())
                &&& bvh.root().partitioned(bvh.objects())
            },
    {
        let mut objects = objects;
        let ghost given = objects@;
        let n = objects.len();
        if n == 0 {
            return None;
        }
        let root = BvhNode::new(&mut objects, 0, n, rng);
        proof {
            assert(objects@.subrange(0, n as int) == objects@);
            assert(given.subrange(0, n as int) == given);
        }
        Some(Bvh { objects, root, crosses })
    }

    /// The number of objects in the scene.
    pub fn len(&self) -> (n: usize)
        ensures
            n == self.objects().len(),
            n > 0,
    {
        proof {
            use_type_invariant(self);
        }
        self.objects.len()
    }

    /// The object at a place of the list.
    pub fn object(&self, i: usize) -> (item: &H)
        requires
            i < self.objects().len(),
        ensures
            *item == self.objects()[i as int],
    {
        &self.objects[i]
    }

    /// The root of the hierarchy.
    pub fn node(&self) -> (root: &BvhNode)
        ensures
            *root == self.root(),
    {
        &self.root
    }
}

impl<H: Hitable, B: Fn(AABB, Ray, Scalar, Scalar) -> bool> Hitable for Bvh<H, B> {
    /// A scene is hit where the search of its hierarchy finds a hit.
    open spec fn hit_spec(&self, r: Ray, t_min: Scalar, t_max: Scalar) -> Option<HitRecord> {
        self.root().finds(self.objects(), self.box_test(), r, t_min, t_max)
    }

    /// The bounds of a scene are the box at the root of its hierarchy.
    open spec fn bbox_spec(&self) -> Option<AABB> {
        Some(self.root().aabb)
    }

    fn hit(&self, r: &Ray, t_min: Scalar, t_max: Scalar, rec: &mut HitRecord) -> (found: bool) {
        proof {
            use_type_invariant(self);
            lemma_covers_leaves(self.root, 0, self.objects@.len() as int);
        }
        let found = self.root.hit(&self.objects, &self.crosses, r, t_min, t_max, rec);
        proof {
            let res = if found {
                Some(*rec)
            } else {
                None
            };
            lemma_settled_search(self.root, self.objects@, self.crosses, *r, t_min, t_max, res);
        }
        found
    }

    fn bbox(&self, aabb: &mut AABB) -> (found: bool) {
        *aabb = self.root.aabb;
        true
    }

    fn memo(&self) -> (name: String)
        ensures
            name@ == "BvhNode"@,
    {
        "BvhNode".to_string()
    }
}

/// A scene shows exactly what the bare list of its objects shows.
///
/// Let every object of the scene be well behaved for the ray, and let the
/// box test answer every question and turn no ray away that hits an object
/// inside the box. Then the scene finds what the scan of its objects finds,
/// in the order that the hierarchy has put them in.
pub proof fn lemma_scene_is_scan<H: Hitable, B: Fn(AABB, Ray, Scalar, Scalar) -> bool>(
    scene: Bvh<H, B>,
    r: Ray,
    t_min: Scalar,
    t_max: Scalar,
)
    requires
        scene.well_formed(),
        box_test_answers(scene.box_test()),
        all_well_behaved(scene.objects(), r, t_min),
        scene.root().box_sound(scene.objects(), scene.box_test(), r, t_min),
    ensures
        scene.hit_spec(r, t_min, t_max) == scan_hit(scene.objects(), r, t_min, t_max),
{
    let res = scene.hit_spec(r, t_min, t_max);
    let n = scene.objects@.len() as int;
    lemma_finds_may_be_found(scene.root, scene.objects@, scene.crosses, r, t_min, t_max);
    lemma_search_is_scan(scene.root, scene.objects@, 0, n, scene.crosses, r, t_min, t_max, res);
    assert(scene.objects@.subrange(0, n) == scene.objects@);
}

/// A scene of well-behaved objects is itself well behaved, and can stand
/// among the objects of another list or scene.
pub proof fn lemma_scene_well_behaved<H: Hitable, B: Fn(AABB, Ray, Scalar, Scalar) -> bool>(
    scene: Bvh<H, B>,
    r: Ray,
    t_min: Scalar,
)
    requires
        scene.well_formed(),
        box_test_answers(scene.box_test()),
        all_well_behaved(scene.objects(), r, t_min),
        scene.root().box_sound(scene.objects(), scene.box_test(), r, t_min),
    ensures
        well_behaved(scene, r, t_min),
{
    lemma_list_well_behaved(scene.objects(), r, t_min);
    lemma_scene_is_scan(scene, r, t_min, unbounded());
    assert forall|t_max: Scalar| #[trigger]
        scene.hit_spec(r, t_min, t_max) == clip(first_hit(scene, r, t_min), t_max) by {
        lemma_scene_is_scan(scene, r, t_min, t_max);
        assert(scan_hit(scene.objects(), r, t_min, t_max) == clip(
            scan_hit(scene.objects(), r, t_min, unbounded()),
            t_max,
        ));
    }
}

/// A scene and the list that it was made from show the same.
///
/// Let `given` hold the objects of a scene in any order, every one of them
/// well behaved for the ray, and let the box test answer every question and
/// turn no ray away that hits an object inside the box. Then the scene and
/// the scan of `given` find a hit at the same distance or both none; and
/// where no two objects are hit at the same distance, they find the same
/// hit.
pub proof fn lemma_scene_agrees_with_scan<H: Hitable, B: Fn(AABB, Ray, Scalar, Scalar) -> bool>(
    scene: Bvh<H, B>,
    given: Seq<H>,
    r: Ray,
    t_min: Scalar,
    t_max: Scalar,
)
    requires
        scene.well_formed(),
        box_test_answers(scene.box_test()),
        given.to_multiset() == scene.objects().to_multiset(),
        all_well_behaved(given, r, t_min),
        scene.root().box_sound(scene.objects(), scene.box_test(), r, t_min),
    ensures
        same_distance(scan_hit(given, r, t_min, t_max), scene.hit_spec(r, t_min, t_max)),
        no_ties(first_hits(given, r, t_min)) ==> scene.hit_spec(r, t_min, t_max) == scan_hit(
            given,
            r,
            t_min,
            t_max,
        ),
{
    let res = scene.hit_spec(r, t_min, t_max);
    lemma_finds_may_be_found(scene.root, scene.objects@, scene.crosses, r, t_min, t_max);
    lemma_search_agrees_with_scan(
        scene.root,
        given,
        scene.objects@,
        scene.crosses,
        r,
        t_min,
        t_max,
        res,
    );
}

} // verus!
