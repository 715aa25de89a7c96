use pathtrace::bvh::{box_min_key, Bvh, BvhChild, BvhNode};
use pathtrace::hitable::{sphere_root, HitRecord, Hitable};
use pathtrace::math::{slabs_overlap, Ray, Slab, Vec2, Vec3, AABB};
use pathtrace::scalar::Scalar;
use rand::rngs::SmallRng;
use rand::{Rng, SeedableRng};

fn sc(x: f32) -> Scalar {
    Scalar::from_bits(x.to_bits())
}

fn fl(s: Scalar) -> f32 {
    f32::from_bits(s.to_bits())
}

fn v3(v: [f32; 3]) -> Vec3 {
    Vec3::new(sc(v[0]), sc(v[1]), sc(v[2]))
}

fn arr(v: Vec3) -> [f32; 3] {
    [fl(v.x), fl(v.y), fl(v.z)]
}

fn dot(a: [f32; 3], b: [f32; 3]) -> f32 {
    a[0] * b[0] + a[1] * b[1] + a[2] * b[2]
}

fn ray(o: [f32; 3], d: [f32; 3]) -> Ray {
    Ray { o: v3(o), d: v3(d), s: Vec2::zero() }
}

/// The slab test of a ray against a box, with the arithmetic in single precision.
fn crosses(b: AABB, r: Ray, t_min: Scalar, t_max: Scalar) -> bool {
    let min = arr(b.min);
    let max = arr(b.max);
    let o = arr(r.o);
    let d = arr(r.d);
    let mut slabs = [Slab { inv_d: sc(0.0), t0: sc(0.0), t1: sc(0.0) }; 3];
    for i in 0..3 {
        let inv_d = 1.0 / d[i];
        slabs[i] =
            Slab { inv_d: sc(inv_d), t0: sc((min[i] - o[i]) * inv_d), t1: sc((max[i] - o[i]) * inv_d) };
    }
    slabs_overlap(&slabs, t_min, t_max)
}

#[derive(Clone, Debug, PartialEq)]
struct Ball {
    c: [f32; 3],
    r: f32,
    mat: usize,
}

impl Hitable for Ball {
    fn hit(&self, r: &Ray, t_min: Scalar, t_max: Scalar, rec: &mut HitRecord) -> bool {
        let o = arr(r.o);
        let d = arr(r.d);
        let oc = [o[0] - self.c[0], o[1] - self.c[1], o[2] - self.c[2]];
        let a = dot(d, d);
        let half_b = dot(oc, d);
        let c = dot(oc, oc) - self.r * self.r;
        let discriminant = half_b * half_b - a * c;
        let sqrtd = discriminant.sqrt();
        let near = (-half_b - sqrtd) / a;
        let far = (-half_b + sqrtd) / a;
        let t = match sphere_root(sc(discriminant), sc(near), sc(far), t_min, t_max) {
            Some(t) => t,
            None => return false,
        };
        let tf = fl(t);
        let p = [o[0] + d[0] * tf, o[1] + d[1] * tf, o[2] + d[2] * tf];
        let outward = [
            (p[0] - self.c[0]) / self.r,
            (p[1] - self.c[1]) / self.r,
            (p[2] - self.c[2]) / self.r,
        ];
        rec.t = t;
        rec.p = v3(p);
        rec.set_face_normal(sc(dot(d, outward)), v3(outward));
        rec.mat = Some(self.mat);
        true
    }

    fn bbox(&self, aabb: &mut AABB) -> bool {
        aabb.min = v3([self.c[0] - self.r, self.c[1] - self.r, self.c[2] - self.r]);
        aabb.max = v3([self.c[0] + self.r, self.c[1] + self.r, self.c[2] + self.r]);
        true
    }

    fn memo(&self) -> String {
        "Ball".to_string()
    }
}

/// An object that is never hit and has no bounds.
struct Ghostly;

impl Hitable for Ghostly {
    fn hit(&self, _r: &Ray, _t_min: Scalar, _t_max: Scalar, _rec: &mut HitRecord) -> bool {
        false
    }

    fn bbox(&self, _aabb: &mut AABB) -> bool {
        false
    }

    fn memo(&self) -> String {
        "Ghostly".to_string()
    }
}

fn leaves_of_child(child: &BvhChild, out: &mut Vec<usize>) {
    match child {
        BvhChild::Leaf(i) => out.push(*i),
        BvhChild::Node(n) => leaves(n, out),
    }
}

fn leaves(node: &BvhNode, out: &mut Vec<usize>) {
    leaves_of_child(&node.left, out);
    leaves_of_child(&node.right, out);
}

fn bounds_of_child(child: &BvhChild, objects: &Vec<Ball>) -> AABB {
    match child {
        BvhChild::Leaf(i) => {
            let mut b = AABB::default();
            objects[*i].bbox(&mut b);
            b
        }
        BvhChild::Node(n) => n.aabb,
    }
}

/// Every node has the union of its children's boxes, and splits its objects
/// along some axis.
fn check_node(node: &BvhNode, objects: &Vec<Ball>) {
    let l = bounds_of_child(&node.left, objects);
    let r = bounds_of_child(&node.right, objects);
    assert_eq!(node.aabb, l.surround(r));
    let mut left = Vec::new();
    let mut right = Vec::new();
    leaves_of_child(&node.left, &mut left);
    leaves_of_child(&node.right, &mut right);
    let split = (0..3).any(|axis| {
        left.iter().all(|&i| {
            right.iter().all(|&j| box_min_key(&objects[i], axis) <= box_min_key(&objects[j], axis))
        })
    });
    assert!(split);
    if let BvhChild::Node(n) = &node.left {
        check_node(n, objects);
    }
    if let BvhChild::Node(n) = &node.right {
        check_node(n, objects);
    }
}

fn random_balls(rng: &mut SmallRng, n: usize) -> Vec<Ball> {
    let mut out = Vec::new();
    for i in 0..n {
        let c = [rng.gen_range(-10.0..10.0), rng.gen_range(-10.0..10.0), rng.gen_range(-30.0..-5.0)];
        out.push(Ball { c, r: rng.gen_range(0.2..2.0), mat: i });
    }
    out
}

#[test]
fn single_object_hangs_on_both_sides() {
    let mut rng = SmallRng::seed_from_u64(1);
    let mut objects = vec![Ball { c: [1.0, 2.0, 3.0], r: 1.0, mat: 0 }];
    let node = BvhNode::new(&mut objects, 0, 1, &mut rng);
    assert!(matches!(node.left, BvhChild::Leaf(0)));
    assert!(matches!(node.right, BvhChild::Leaf(0)));
    assert_eq!(arr(node.aabb.min), [0.0, 1.0, 2.0]);
    assert_eq!(arr(node.aabb.max), [2.0, 3.0, 4.0]);
}

#[test]
fn two_objects_are_sorted_along_the_axis() {
    for seed in 0..20 {
        let mut rng = SmallRng::seed_from_u64(seed);
        // The second ball lies before the first along every axis.
        let mut objects = vec![
            Ball { c: [5.0, 5.0, 5.0], r: 1.0, mat: 0 },
            Ball { c: [-5.0, -5.0, -5.0], r: 1.0, mat: 1 },
        ];
        let node = BvhNode::new(&mut objects, 0, 2, &mut rng);
        assert_eq!(objects[0].mat, 1);
        assert_eq!(objects[1].mat, 0);
        assert!(matches!(node.left, BvhChild::Leaf(0)));
        assert!(matches!(node.right, BvhChild::Leaf(1)));
        assert_eq!(arr(node.aabb.min), [-6.0, -6.0, -6.0]);
        assert_eq!(arr(node.aabb.max), [6.0, 6.0, 6.0]);
    }
}

#[test]
fn sorted_objects_stay_in_place() {
    for seed in 0..20 {
        let mut rng = SmallRng::seed_from_u64(seed);
        let mut objects = vec![
            Ball { c: [-5.0, -5.0, -5.0], r: 1.0, mat: 0 },
            Ball { c: [5.0, 5.0, 5.0], r: 1.0, mat: 1 },
        ];
        BvhNode::new(&mut objects, 0, 2, &mut rng);
        assert_eq!(objects[0].mat, 0);
        assert_eq!(objects[1].mat, 1);
    }
}

#[test]
fn equal_keys_keep_their_order() {
    for seed in 0..20 {
        let mut rng = SmallRng::seed_from_u64(seed);
        let mut objects = vec![
            Ball { c: [0.0, 0.0, 0.0], r: 1.0, mat: 0 },
            Ball { c: [0.0, 0.0, 0.0], r: 1.0, mat: 1 },
        ];
        BvhNode::new(&mut objects, 0, 2, &mut rng);
        assert_eq!(objects[0].mat, 0);
        assert_eq!(objects[1].mat, 1);
    }
}

#[test]
fn hierarchy_over_six_objects() {
    let mut rng = SmallRng::seed_from_u64(1995);
    let mut objects = random_balls(&mut rng, 6);
    let given = objects.clone();
    let node = BvhNode::new(&mut objects, 0, 6, &mut rng);
    let mut found = Vec::new();
    leaves(&node, &mut found);
    // Halves of three, each a single object beside a pair.
    assert_eq!(found, vec![0, 0, 1, 2, 3, 3, 4, 5]);
    check_node(&node, &objects);
    // The list holds what it held.
    let mut before: Vec<usize> = given.iter().map(|b| b.mat).collect();
    let mut after: Vec<usize> = objects.iter().map(|b| b.mat).collect();
    before.sort();
    after.sort();
    assert_eq!(before, after);
    for b in &objects {
        assert_eq!(*b, given[b.mat]);
    }
    // The root box is the union of all.
    let mut all = AABB::default();
    assert!(objects.bbox(&mut all));
    assert_eq!(node.aabb, all);
}

#[test]
fn hierarchy_of_many_sizes() {
    for n in 1..40 {
        let mut rng = SmallRng::seed_from_u64(n as u64);
        let mut objects = random_balls(&mut rng, n);
        let node = BvhNode::new(&mut objects, 0, n, &mut rng);
        let mut found = Vec::new();
        leaves(&node, &mut found);
        found.dedup();
        let expected: Vec<usize> = (0..n).collect();
        assert_eq!(found, expected);
        check_node(&node, &objects);
    }
}

#[test]
fn build_touches_only_its_range() {
    let mut rng = SmallRng::seed_from_u64(7);
    let mut objects = random_balls(&mut rng, 10);
    let given = objects.clone();
    let node = BvhNode::new(&mut objects, 3, 8, &mut rng);
    for i in (0..3).chain(8..10) {
        assert_eq!(objects[i], given[i]);
    }
    let mut found = Vec::new();
    leaves(&node, &mut found);
    // A pair, then a single object beside a pair.
    assert_eq!(found, vec![3, 4, 5, 5, 6, 7]);
    let mut before: Vec<usize> = given[3..8].iter().map(|b| b.mat).collect();
    let mut after: Vec<usize> = objects[3..8].iter().map(|b| b.mat).collect();
    before.sort();
    after.sort();
    assert_eq!(before, after);
}

#[test]
fn object_without_bounds_counts_as_the_origin() {
    assert_eq!(box_min_key(&Ghostly, 0), 0);
    assert_eq!(box_min_key(&Ghostly, 1), 0);
    assert_eq!(box_min_key(&Ghostly, 2), 0);
    let mut rng = SmallRng::seed_from_u64(3);
    let mut objects = vec![Ghostly, Ghostly, Ghostly];
    let node = BvhNode::new(&mut objects, 0, 3, &mut rng);
    assert_eq!(node.aabb, AABB::default());
}

#[test]
fn sort_key_is_the_lower_corner() {
    let ball = Ball { c: [1.0, -2.0, 3.0], r: 0.5, mat: 0 };
    assert_eq!(box_min_key(&ball, 0), sc(0.5).key);
    assert_eq!(box_min_key(&ball, 1), sc(-2.5).key);
    assert_eq!(box_min_key(&ball, 2), sc(2.5).key);
}

#[test]
fn node_reports_its_box_and_name() {
    let mut rng = SmallRng::seed_from_u64(5);
    let mut objects = random_balls(&mut rng, 4);
    let node = BvhNode::new(&mut objects, 0, 4, &mut rng);
    let mut b = AABB::default();
    assert!(node.bbox(&mut b));
    assert_eq!(b, node.aabb);
    assert_eq!(node.memo(), "BvhNode".to_string());
}

#[test]
fn search_finds_the_nearest_ball() {
    let mut rng = SmallRng::seed_from_u64(11);
    let mut objects = vec![
        Ball { c: [0.0, 0.0, -10.0], r: 1.0, mat: 0 },
        Ball { c: [0.0, 0.0, -4.0], r: 1.0, mat: 1 },
        Ball { c: [0.0, 0.0, -7.0], r: 1.0, mat: 2 },
        Ball { c: [5.0, 0.0, -7.0], r: 1.0, mat: 3 },
    ];
    let node = BvhNode::new(&mut objects, 0, 4, &mut rng);
    let mut rec = HitRecord::default();
    let r = ray([0.0; 3], [0.0, 0.0, -1.0]);
    assert!(node.hit(&objects, &crosses, &r, sc(0.001), sc(f32::INFINITY), &mut rec));
    assert_eq!(rec.mat, Some(1));
    assert_eq!(fl(rec.t), 3.0);
    assert!(!node.hit(&objects, &crosses, &r, sc(0.001), sc(2.0), &mut rec));
    let up = ray([0.0; 3], [0.0, 1.0, 0.0]);
    let before = rec;
    assert!(!node.hit(&objects, &crosses, &up, sc(0.001), sc(f32::INFINITY), &mut rec));
    assert_eq!(rec, before);
}

#[test]
fn search_never_enters_a_box_that_is_missed() {
    let mut rng = SmallRng::seed_from_u64(11);
    let mut objects = random_balls(&mut rng, 9);
    let node = BvhNode::new(&mut objects, 0, 9, &mut rng);
    let mut rec = HitRecord::default();
    let r = ray([0.0; 3], [0.0, 0.0, -1.0]);
    let never = |_b: AABB, _r: Ray, _lo: Scalar, _hi: Scalar| false;
    assert!(!node.hit(&objects, &never, &r, sc(0.001), sc(f32::INFINITY), &mut rec));
    assert_eq!(rec, HitRecord::default());
}

#[test]
fn search_agrees_with_scan() {
    let mut rng = SmallRng::seed_from_u64(1995);
    let mut rays = 0;
    let mut hits = 0;
    for n in [1usize, 2, 3, 5, 8, 16, 33] {
        for _ in 0..3 {
            let given = random_balls(&mut rng, n);
            let mut objects = given.clone();
            let node = BvhNode::new(&mut objects, 0, n, &mut rng);
            for _ in 0..500 {
                let o = [
                    rng.gen_range(-5.0..5.0),
                    rng.gen_range(-5.0..5.0),
                    rng.gen_range(-2.0..5.0),
                ];
                // Two rays in three are aimed near a ball, the third anywhere.
                let near = given[rng.gen_range(0..n)].c;
                let spread = if rng.gen_range(0..3) == 0 { 12.0 } else { 1.5 };
                let aim = [
                    near[0] + rng.gen_range(-spread..spread),
                    near[1] + rng.gen_range(-spread..spread),
                    near[2] + rng.gen_range(-spread..spread),
                ];
                let d = [aim[0] - o[0], aim[1] - o[1], aim[2] - o[2]];
                let len = dot(d, d).sqrt();
                let r = ray(o, [d[0] / len, d[1] / len, d[2] / len]);
                let mut scanned = HitRecord::default();
                let mut searched = HitRecord::default();
                let by_scan = given.hit(&r, sc(0.001), sc(f32::INFINITY), &mut scanned);
                let by_search =
                    node.hit(&objects, &crosses, &r, sc(0.001), sc(f32::INFINITY), &mut searched);
                assert_eq!(by_scan, by_search);
                if by_scan {
                    assert_eq!(scanned.t, searched.t);
                    assert_eq!(scanned.p, searched.p);
                    assert_eq!(scanned.mat, searched.mat);
                    hits += 1;
                }
                rays += 1;
            }
        }
    }
    assert_eq!(rays, 10500);
    assert!(hits > 1000);
}

#[test]
fn no_scene_without_objects() {
    let mut rng = SmallRng::seed_from_u64(1);
    let empty: Vec<Ball> = Vec::new();
    assert!(Bvh::build(empty, crosses, &mut rng).is_none());
    assert!(Bvh::build(vec![Ball { c: [0.0; 3], r: 1.0, mat: 0 }], crosses, &mut rng).is_some());
}

#[test]
fn scene_holds_what_it_was_given() {
    let mut rng = SmallRng::seed_from_u64(21);
    let given = random_balls(&mut rng, 12);
    let scene = Bvh::build(given.clone(), crosses, &mut rng).unwrap();
    assert_eq!(scene.len(), 12);
    let mut mats: Vec<usize> = (0..12).map(|i| scene.object(i).mat).collect();
    mats.sort();
    assert_eq!(mats, (0..12).collect::<Vec<usize>>());
    for i in 0..12 {
        assert_eq!(*scene.object(i), given[scene.object(i).mat]);
    }
    let mut found = Vec::new();
    leaves(scene.node(), &mut found);
    found.dedup();
    assert_eq!(found, (0..12).collect::<Vec<usize>>());
}

#[test]
fn scene_is_an_object() {
    let mut rng = SmallRng::seed_from_u64(11);
    let given = vec![
        Ball { c: [0.0, 0.0, -10.0], r: 1.0, mat: 0 },
        Ball { c: [0.0, 0.0, -4.0], r: 1.0, mat: 1 },
        Ball { c: [0.0, 0.0, -7.0], r: 1.0, mat: 2 },
    ];
    let scene = Bvh::build(given, crosses, &mut rng).unwrap();
    let mut rec = HitRecord::default();
    assert!(scene.hit(&ray([0.0; 3], [0.0, 0.0, -1.0]), sc(0.001), sc(f32::INFINITY), &mut rec));
    assert_eq!(rec.mat, Some(1));
    assert_eq!(fl(rec.t), 3.0);
    let before = rec;
    assert!(!scene.hit(&ray([0.0; 3], [0.0, 1.0, 0.0]), sc(0.001), sc(f32::INFINITY), &mut rec));
    assert_eq!(rec, before);
    let mut b = AABB::default();
    assert!(scene.bbox(&mut b));
    assert_eq!(arr(b.min), [-1.0, -1.0, -11.0]);
    assert_eq!(arr(b.max), [1.0, 1.0, -3.0]);
    assert_eq!(scene.memo(), "BvhNode".to_string());
    // Scenes can be listed and nested like other objects.
    let nested = vec![scene];
    assert!(nested.hit(&ray([0.0; 3], [0.0, 0.0, -1.0]), sc(3.5), sc(f32::INFINITY), &mut rec));
    assert_eq!(fl(rec.t), 5.0);
}

#[test]
fn scene_agrees_with_scan() {
    let mut rng = SmallRng::seed_from_u64(2024);
    let mut hits = 0;
    for n in [1usize, 4, 7, 20, 64] {
        let given = random_balls(&mut rng, n);
        let scene = Bvh::build(given.clone(), crosses, &mut rng).unwrap();
        for _ in 0..400 {
            let o = [rng.gen_range(-5.0..5.0), rng.gen_range(-5.0..5.0), rng.gen_range(-2.0..5.0)];
            let near = given[rng.gen_range(0..n)].c;
            let aim = [
                near[0] + rng.gen_range(-2.0..2.0),
                near[1] + rng.gen_range(-2.0..2.0),
                near[2] + rng.gen_range(-2.0..2.0),
            ];
            let d = [aim[0] - o[0], aim[1] - o[1], aim[2] - o[2]];
            let len = dot(d, d).sqrt();
            let r = ray(o, [d[0] / len, d[1] / len, d[2] / len]);
            for (lo, hi) in [(0.001, f32::INFINITY), (0.001, 15.0), (8.0, f32::MAX)] {
                let mut scanned = HitRecord::default();
                let mut searched = HitRecord::default();
                let by_scan = given.hit(&r, sc(lo), sc(hi), &mut scanned);
                let by_scene = scene.hit(&r, sc(lo), sc(hi), &mut searched);
                assert_eq!(by_scan, by_scene);
                assert_eq!(scanned, searched);
                if by_scan {
                    hits += 1;
                }
            }
        }
    }
    assert!(hits > 1000);
}

#[test]
fn every_axis_is_drawn() {
    // P lies before Q along x, after Q along y, and beside Q along z.
    let p = Ball { c: [0.0, 5.0, 0.0], r: 1.0, mat: 0 };
    let q = Ball { c: [5.0, 0.0, 0.0], r: 1.0, mat: 1 };
    let mut drawn = [false; 3];
    for seed in 0..64 {
        let mut pq = vec![p.clone(), q.clone()];
        let mut qp = vec![q.clone(), p.clone()];
        BvhNode::new(&mut pq, 0, 2, &mut SmallRng::seed_from_u64(seed));
        BvhNode::new(&mut qp, 0, 2, &mut SmallRng::seed_from_u64(seed));
        let axis = match (pq[0].mat, qp[0].mat) {
            (0, 0) => 0,
            (1, 1) => 1,
            (0, 1) => 2,
            other => panic!("no axis sorts like {:?}", other),
        };
        drawn[axis] = true;
    }
    assert_eq!(drawn, [true, true, true]);
}

fn height_of_child(child: &BvhChild) -> u32 {
    match child {
        BvhChild::Leaf(_) => 0,
        BvhChild::Node(n) => height(n),
    }
}

fn height(node: &BvhNode) -> u32 {
    1 + height_of_child(&node.left).max(height_of_child(&node.right))
}

#[test]
fn hierarchy_is_balanced() {
    let mut rng = SmallRng::seed_from_u64(99);
    for n in 1..130usize {
        let mut objects = random_balls(&mut rng, n);
        let node = BvhNode::new(&mut objects, 0, n, &mut rng);
        let h = height(&node);
        assert!(n <= 1 << h);
        if n >= 2 {
            assert!(1 << (h - 1) < n);
        } else {
            assert_eq!(h, 1);
        }
    }
    let mut objects = random_balls(&mut rng, 1000);
    assert_eq!(height(&BvhNode::new(&mut objects, 0, 1000, &mut rng)), 10);
}

#[test]
fn every_box_encloses_what_is_below() {
    fn check(node: &BvhNode, objects: &Vec<Ball>) {
        let mut below = Vec::new();
        leaves(node, &mut below);
        let min = arr(node.aabb.min);
        let max = arr(node.aabb.max);
        for i in below {
            let b = &objects[i];
            for k in 0..3 {
                assert!(min[k] <= b.c[k] - b.r);
                assert!(b.c[k] + b.r <= max[k]);
            }
        }
        if let BvhChild::Node(n) = &node.left {
            check(n, objects);
        }
        if let BvhChild::Node(n) = &node.right {
            check(n, objects);
        }
    }
    let mut rng = SmallRng::seed_from_u64(17);
    let mut objects = random_balls(&mut rng, 50);
    let node = BvhNode::new(&mut objects, 0, 50, &mut rng);
    check(&node, &objects);
}

#[test]
fn search_is_the_scan_of_its_list_even_with_ties() {
    let mut rng = SmallRng::seed_from_u64(5);
    let mut hits = 0;
    for n in [2usize, 3, 6, 11] {
        // Every ball stands twice in the list, under two materials.
        let mut objects = Vec::new();
        for (i, b) in random_balls(&mut rng, n).into_iter().enumerate() {
            objects.push(Ball { c: b.c, r: b.r, mat: 2 * i });
            objects.push(Ball { c: b.c, r: b.r, mat: 2 * i + 1 });
        }
        let node = BvhNode::new(&mut objects, 0, 2 * n, &mut rng);
        for _ in 0..300 {
            let near = objects[rng.gen_range(0..2 * n)].c;
            let o = [rng.gen_range(-5.0..5.0), rng.gen_range(-5.0..5.0), rng.gen_range(-2.0..5.0)];
            let aim = [
                near[0] + rng.gen_range(-1.0..1.0),
                near[1] + rng.gen_range(-1.0..1.0),
                near[2] + rng.gen_range(-1.0..1.0),
            ];
            let d = [aim[0] - o[0], aim[1] - o[1], aim[2] - o[2]];
            let len = dot(d, d).sqrt();
            let r = ray(o, [d[0] / len, d[1] / len, d[2] / len]);
            let mut scanned = HitRecord::default();
            let mut searched = HitRecord::default();
            let by_scan = objects.hit(&r, sc(0.001), sc(f32::INFINITY), &mut scanned);
            let by_search =
                node.hit(&objects, &crosses, &r, sc(0.001), sc(f32::INFINITY), &mut searched);
            assert_eq!(by_scan, by_search);
            assert_eq!(scanned, searched);
            if by_scan {
                hits += 1;
            }
        }
    }
    assert!(hits > 300);
}
