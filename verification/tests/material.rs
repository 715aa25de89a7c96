use pathtrace::material::{cannot_refract, dielectric_reflects, incidence_cosine, metal_scatters};
use pathtrace::math::{vec3a_near_zero, Vec3, EPSILON_BITS};
use pathtrace::render::{checkpoint, column_seed};
use pathtrace::scalar::Scalar;

fn sc(x: f32) -> Scalar {
    Scalar::from_bits(x.to_bits())
}

fn fl(s: Scalar) -> f32 {
    f32::from_bits(s.to_bits())
}

fn v3(x: f32, y: f32, z: f32) -> Vec3 {
    Vec3::new(sc(x), sc(y), sc(z))
}

#[test]
fn cosine_of_incidence() {
    // Head on, the direction is opposite to the normal.
    assert_eq!(fl(incidence_cosine(sc(-1.0))), 1.0);
    assert_eq!(fl(incidence_cosine(sc(-0.5))), 0.5);
    assert_eq!(incidence_cosine(sc(0.0)).to_bits(), (-0.0f32).to_bits());
    // The product is capped at one before its sign is flipped.
    assert_eq!(fl(incidence_cosine(sc(1.5))), -1.0);
    assert_eq!(fl(incidence_cosine(sc(f32::NAN))), -1.0);
    for x in [-1.0f32, -0.25, 0.0, 0.75, 1.0, 3.0] {
        assert_eq!(fl(incidence_cosine(sc(x))), -x.min(1.0));
    }
}

#[test]
fn total_reflection_beyond_the_critical_angle() {
    assert!(cannot_refract(sc(1.0001)));
    assert!(cannot_refract(sc(1.5)));
    assert!(!cannot_refract(sc(1.0)));
    assert!(!cannot_refract(sc(0.3)));
    assert!(!cannot_refract(sc(f32::NAN)));
}

#[test]
fn glass_reflects_by_the_draw() {
    // At normal incidence on glass about one ray in twenty-five is reflected.
    let r0 = ((1.0f32 - 1.5) / (1.0 + 1.5)) * ((1.0f32 - 1.5) / (1.0 + 1.5));
    assert!((r0 - 0.04).abs() < 1e-6);
    assert!(dielectric_reflects(sc(0.0), sc(r0), sc(0.01)));
    assert!(!dielectric_reflects(sc(0.0), sc(r0), sc(r0)));
    assert!(!dielectric_reflects(sc(0.0), sc(r0), sc(0.05)));
    assert!(!dielectric_reflects(sc(0.0), sc(r0), sc(0.5)));
    assert!(dielectric_reflects(sc(1.2), sc(r0), sc(0.5)));
    assert!(dielectric_reflects(sc(1.2), sc(0.0), sc(0.999)));
    assert!(!dielectric_reflects(sc(0.9), sc(0.0), sc(0.0)));
    assert!(dielectric_reflects(sc(0.9), sc(1.0), sc(0.999)));
}

#[test]
fn metal_rejects_what_points_into_the_surface() {
    assert!(metal_scatters(sc(0.5)));
    assert!(metal_scatters(sc(1.0e-30)));
    assert!(!metal_scatters(sc(0.0)));
    assert!(!metal_scatters(sc(-0.0)));
    assert!(!metal_scatters(sc(-0.5)));
}

#[test]
fn near_zero_vectors() {
    assert_eq!(EPSILON_BITS, f32::EPSILON.to_bits());
    assert!(vec3a_near_zero(v3(0.0, 0.0, 0.0)));
    assert!(vec3a_near_zero(v3(1.0e-8, -1.0e-8, -0.0)));
    assert!(!vec3a_near_zero(v3(f32::EPSILON, 0.0, 0.0)));
    assert!(!vec3a_near_zero(v3(0.0, -1.0e-3, 0.0)));
    assert!(!vec3a_near_zero(v3(0.0, 0.0, 1.0)));
    assert!(!vec3a_near_zero(v3(f32::NAN, 0.0, 0.0)));
    for v in [[1.0e-7f32, 0.0, 0.0], [1.2e-7, 0.0, 0.0], [-1.1e-7, 1.0e-9, 0.0]] {
        let s = f32::EPSILON;
        let expected = v[0].abs() < s && v[1].abs() < s && v[2].abs() < s;
        assert_eq!(vec3a_near_zero(v3(v[0], v[1], v[2])), expected);
    }
}

#[test]
fn every_column_has_its_seed() {
    assert_eq!(column_seed(0), 95);
    assert_eq!(column_seed(1), 96);
    assert_eq!(column_seed(399), 494);
    assert_eq!(column_seed(u32::MAX), 95 + u32::MAX as u64);
}

#[test]
fn snapshots_every_ten_rows() {
    assert_eq!(checkpoint(4000, 400), Some(10));
    assert_eq!(checkpoint(8000, 400), Some(20));
    assert_eq!(checkpoint(160000, 400), Some(400));
    assert_eq!(checkpoint(1, 400), None);
    assert_eq!(checkpoint(400, 400), None);
    assert_eq!(checkpoint(3999, 400), None);
    assert_eq!(checkpoint(4001, 400), None);
    assert_eq!(checkpoint(0, 400), Some(0));
    assert_eq!(checkpoint(30, 3), Some(10));
}
