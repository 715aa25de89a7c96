use pathtrace::math::{slabs_overlap, Ray, Slab, Vec2, Vec3, AABB};
use pathtrace::scalar::Scalar;

fn sc(x: f32) -> Scalar {
    Scalar::from_bits(x.to_bits())
}

fn fl(s: Scalar) -> f32 {
    f32::from_bits(s.to_bits())
}

fn v3(x: f32, y: f32, z: f32) -> Vec3 {
    Vec3::new(sc(x), sc(y), sc(z))
}

fn arr(v: Vec3) -> [f32; 3] {
    [fl(v.x), fl(v.y), fl(v.z)]
}

fn bx(min: [f32; 3], max: [f32; 3]) -> AABB {
    AABB { min: v3(min[0], min[1], min[2]), max: v3(max[0], max[1], max[2]) }
}

fn ray(o: [f32; 3], d: [f32; 3]) -> Ray {
    Ray { o: v3(o[0], o[1], o[2]), d: v3(d[0], d[1], d[2]), s: Vec2::zero() }
}

/// The crossings of a ray with the planes of a box, computed in single precision.
fn slabs(b: &AABB, r: &Ray) -> [Slab; 3] {
    let min = arr(b.min);
    let max = arr(b.max);
    let o = arr(r.o);
    let d = arr(r.d);
    let mut out = [Slab { inv_d: sc(0.0), t0: sc(0.0), t1: sc(0.0) }; 3];
    for i in 0..3 {
        let inv_d = 1.0 / d[i];
        out[i] = Slab { inv_d: sc(inv_d), t0: sc((min[i] - o[i]) * inv_d), t1: sc((max[i] - o[i]) * inv_d) };
    }
    out
}

/// The slab test written out on numbers, as a reference.
fn reference_hit(b: &AABB, r: &Ray, mut t_min: f32, mut t_max: f32) -> bool {
    let min = arr(b.min);
    let max = arr(b.max);
    let o = arr(r.o);
    let d = arr(r.d);
    for i in 0..3 {
        let inv_d = 1.0 / d[i];
        let mut t0 = (min[i] - o[i]) * inv_d;
        let mut t1 = (max[i] - o[i]) * inv_d;
        if inv_d < 0. {
            std::mem::swap(&mut t0, &mut t1);
        }
        t_min = t_min.max(t0);
        t_max = t_max.min(t1);
        if t_max <= t_min {
            return false;
        }
    }
    true
}

#[test]
fn vec3_components() {
    let v = v3(1.0, 2.0, 3.0);
    assert_eq!(fl(v.get(0)), 1.0);
    assert_eq!(fl(v.get(1)), 2.0);
    assert_eq!(fl(v.get(2)), 3.0);
    assert_eq!(arr(Vec3::zero()), [0.0, 0.0, 0.0]);
    assert_eq!(arr(Vec3::one()), [1.0, 1.0, 1.0]);
    assert_eq!(arr(Vec3::unit_x()), [1.0, 0.0, 0.0]);
    assert_eq!(arr(Vec3::splat(sc(7.5))), [7.5, 7.5, 7.5]);
    assert_eq!(arr(v.neg()), [-1.0, -2.0, -3.0]);
    assert_eq!(arr(v.min(v3(0.0, 5.0, 3.0))), [0.0, 2.0, 3.0]);
    assert_eq!(arr(v.max(v3(0.0, 5.0, 3.0))), [1.0, 5.0, 3.0]);
    let w = Vec2::new(sc(0.25), sc(0.75));
    assert_eq!((fl(w.x), fl(w.y)), (0.25, 0.75));
}

#[test]
fn surround_takes_outer_corners() {
    let a = bx([0.0, -1.0, 2.0], [1.0, 1.0, 3.0]);
    let b = bx([-2.0, 0.0, 2.5], [0.5, 4.0, 2.75]);
    let u = a.surround(b);
    assert_eq!(arr(u.min), [-2.0, -1.0, 2.0]);
    assert_eq!(arr(u.max), [1.0, 4.0, 3.0]);
}

#[test]
fn surround_is_commutative() {
    let a = bx([0.0, -1.0, 2.0], [1.0, 1.0, 3.0]);
    let b = bx([-2.0, 0.0, 2.5], [0.5, 4.0, 2.75]);
    assert_eq!(a.surround(b), b.surround(a));
}

#[test]
fn surround_is_associative() {
    let a = bx([0.0, -1.0, 2.0], [1.0, 1.0, 3.0]);
    let b = bx([-2.0, 0.0, 2.5], [0.5, 4.0, 2.75]);
    let c = bx([-1.0, -7.0, 10.0], [9.0, -6.0, 11.0]);
    assert_eq!(a.surround(b.surround(c)), a.surround(b).surround(c));
    let u = a.surround(b).surround(c);
    assert_eq!(arr(u.min), [-2.0, -7.0, 2.0]);
    assert_eq!(arr(u.max), [9.0, 4.0, 11.0]);
}

#[test]
fn surround_with_itself() {
    let a = bx([0.0, -1.0, 2.0], [1.0, 1.0, 3.0]);
    assert_eq!(a.surround(a), a);
}

#[test]
fn default_box_is_the_origin() {
    let d = AABB::default();
    assert_eq!(arr(d.min), [0.0, 0.0, 0.0]);
    assert_eq!(arr(d.max), [0.0, 0.0, 0.0]);
    assert_eq!(d.min.x.to_bits(), 0);
}

#[test]
fn extent_of_points() {
    let pts = vec![v3(1.0, 5.0, -3.0), v3(-2.0, 6.0, 0.0), v3(0.5, -1.0, 4.0)];
    let b = AABB::around(&pts);
    assert_eq!(arr(b.min), [-2.0, -1.0, -3.0]);
    assert_eq!(arr(b.max), [1.0, 6.0, 4.0]);
}

#[test]
fn extent_of_nothing_is_inside_out() {
    let b = AABB::around(&Vec::new());
    assert_eq!(arr(b.min), [f32::INFINITY; 3]);
    assert_eq!(arr(b.max), [f32::NEG_INFINITY; 3]);
}

#[test]
fn extent_of_a_rotated_box() {
    // The eight corners of the unit cube, turned by a quarter about y.
    let mut pts = Vec::new();
    for i in 0..2 {
        for j in 0..2 {
            for k in 0..2 {
                let (x, y, z) = (i as f32, j as f32, k as f32);
                pts.push(v3(z, y, -x));
            }
        }
    }
    let b = AABB::around(&pts);
    assert_eq!(arr(b.min), [0.0, 0.0, -1.0]);
    assert_eq!(arr(b.max), [1.0, 1.0, 0.0]);
}

#[test]
fn slab_test_hits_and_misses() {
    let b = bx([-1.0, -1.0, -1.0], [1.0, 1.0, 1.0]);
    let toward = ray([0.0, 0.0, -5.0], [0.0, 0.0, 1.0]);
    let away = ray([0.0, 0.0, -5.0], [0.0, 0.0, -1.0]);
    let beside = ray([3.0, 0.0, -5.0], [0.0, 0.0, 1.0]);
    let skew = ray([-5.0, -5.0, -5.0], [1.0, 1.0, 1.0]);
    assert!(slabs_overlap(&slabs(&b, &toward), sc(0.001), sc(f32::INFINITY)));
    assert!(!slabs_overlap(&slabs(&b, &away), sc(0.001), sc(f32::INFINITY)));
    assert!(!slabs_overlap(&slabs(&b, &beside), sc(0.001), sc(f32::INFINITY)));
    assert!(slabs_overlap(&slabs(&b, &skew), sc(0.001), sc(f32::INFINITY)));
    // The box lies between parameters 4 and 6 of the first ray.
    assert!(!slabs_overlap(&slabs(&b, &toward), sc(0.001), sc(3.9)));
    assert!(!slabs_overlap(&slabs(&b, &toward), sc(6.1), sc(f32::INFINITY)));
    assert!(slabs_overlap(&slabs(&b, &toward), sc(5.0), sc(5.5)));
}

#[test]
fn slab_test_with_zero_direction_components() {
    let b = bx([-1.0, -1.0, -1.0], [1.0, 1.0, 1.0]);
    let inside_slab = ray([0.5, 0.5, -5.0], [0.0, 0.0, 1.0]);
    let outside_slab = ray([1.5, 0.5, -5.0], [0.0, 0.0, 1.0]);
    let negative_zero = ray([0.5, 0.5, -5.0], [-0.0, 0.0, 1.0]);
    assert!(slabs_overlap(&slabs(&b, &inside_slab), sc(0.0), sc(f32::MAX)));
    assert!(!slabs_overlap(&slabs(&b, &outside_slab), sc(0.0), sc(f32::MAX)));
    assert!(slabs_overlap(&slabs(&b, &negative_zero), sc(0.0), sc(f32::MAX)));
}

#[test]
fn slab_test_agrees_with_reference() {
    let boxes = vec![
        bx([-1.0, -1.0, -1.0], [1.0, 1.0, 1.0]),
        bx([0.0, 0.0, 0.0], [555.0, 0.0001, 555.0]),
        bx([2.0, -3.0, 1.0], [2.5, 4.0, 9.0]),
    ];
    let origins = vec![[0.0, 0.0, -5.0], [278.0, 278.0, -800.0], [2.25, 0.0, 0.0], [1.0, 1.0, 1.0]];
    let dirs = vec![
        [0.0, 0.0, 1.0],
        [0.0, 1.0, 0.0],
        [1.0, 0.0, 0.0],
        [0.0, -1.0, 0.0],
        [0.3, 0.4, 0.5],
        [-0.3, 0.4, -0.5],
        [0.0, 0.7, 0.7],
        [-0.0, -0.7, 0.7],
    ];
    let limits = vec![(0.001, f32::INFINITY), (0.0, 10.0), (5.0, 6.0), (0.001, f32::MAX)];
    let mut hits = 0;
    for b in &boxes {
        for o in &origins {
            for d in &dirs {
                for &(lo, hi) in &limits {
                    let r = ray(*o, *d);
                    let expected = reference_hit(b, &r, lo, hi);
                    assert_eq!(slabs_overlap(&slabs(b, &r), sc(lo), sc(hi)), expected);
                    if expected {
                        hits += 1;
                    }
                }
            }
        }
    }
    assert!(hits > 10);
}

#[test]
fn corners_of_a_box() {
    let b = bx([0.0, 1.0, 2.0], [10.0, 11.0, 12.0]);
    let got: Vec<[f32; 3]> = b.corners().into_iter().map(arr).collect();
    let expected = vec![
        [0.0, 1.0, 2.0],
        [0.0, 1.0, 12.0],
        [0.0, 11.0, 2.0],
        [0.0, 11.0, 12.0],
        [10.0, 1.0, 2.0],
        [10.0, 1.0, 12.0],
        [10.0, 11.0, 2.0],
        [10.0, 11.0, 12.0],
    ];
    assert_eq!(got, expected);
    assert_eq!(AABB::around(&b.corners()), b);
}
