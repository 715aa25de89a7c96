//! The numbers of geometry as the library holds them: pairs and triples of
//! scalars, rays, boxes, and the slab test.

use crate::scalar::Scalar;
use vstd::prelude::*;

pub mod aabb;
pub mod slab;

pub use crate::math::aabb::{
    extent, lemma_encloses_transitive, lemma_surround_associative, lemma_surround_commutative,
    lemma_surround_encloses, AABB,
};
pub use crate::math::slab::{slabs_overlap, Slab};

verus! {

/// A pair of numbers: a texture or screen coordinate.
#[derive(Clone, Copy, Debug, PartialEq, Eq, Structural)]
pub struct Vec2 {
    pub x: Scalar,
    pub y: Scalar,
}

/// A point, direction or colour: three numbers.
#[derive(Clone, Copy, Debug, PartialEq, Eq, Structural)]
pub struct Vec3 {
    pub x: Scalar,
    pub y: Scalar,
    pub z: Scalar,
}

impl Vec2 {
    /// The pair of `x` and `y`.
    pub fn new(x: Scalar, y: Scalar) -> (v: Vec2)
        ensures
            v.x == x,
            v.y == y,
    {
        Vec2 { x, y }
    }

    /// The pair of positive zeros.
    pub open spec fn spec_zero() -> Vec2 {
        Vec2 { x: Scalar::zero(), y: Scalar::zero() }
    }

    /// The pair of positive zeros.
    #[verifier::when_used_as_spec(spec_zero)]
    pub fn zero() -> (v: Vec2)
        ensures
            v == Vec2::spec_zero(),
    {
        Vec2 { x: Scalar::zero(), y: Scalar::zero() }
    }
}

impl Vec3 {
    /// The component along an axis: 0 is x, 1 is y, anything else is z.
    pub open spec fn axis(self, axis: int) -> Scalar {
        if axis == 0 {
            self.x
        } else if axis == 1 {
            self.y
        } else {
            self.z
        }
    }

    /// The same number in all three places.
    pub open spec fn spec_splat(s: Scalar) -> Vec3 {
        Vec3 { x: s, y: s, z: s }
    }

    /// The triple of positive zeros.
    pub open spec fn spec_zero() -> Vec3 {
        Vec3::spec_splat(Scalar::zero())
    }

    /// The triple of ones.
    pub open spec fn spec_one() -> Vec3 {
        Vec3::spec_splat(Scalar::one())
    }

    /// The unit vector along x.
    pub open spec fn spec_unit_x() -> Vec3 {
        Vec3 { x: Scalar::one(), y: Scalar::zero(), z: Scalar::zero() }
    }

    /// Some component is not a number.
    pub open spec fn has_nan(self) -> bool {
        self.x.is_nan() || self.y.is_nan() || self.z.is_nan()
    }

    /// Every component of `self` is numerically at most that of `other`.
    pub open spec fn le_all(self, other: Vec3) -> bool {
        self.x.le(other.x) && self.y.le(other.y) && self.z.le(other.z)
    }

    /// The component-wise smaller of two triples.
    pub open spec fn spec_min(self, other: Vec3) -> Vec3 {
        Vec3 { x: self.x.min(other.x), y: self.y.min(other.y), z: self.z.min(other.z) }
    }

    /// The component-wise larger of two triples.
    pub open spec fn spec_max(self, other: Vec3) -> Vec3 {
        Vec3 { x: self.x.max(other.x), y: self.y.max(other.y), z: self.z.max(other.z) }
    }

    /// The triple of `x`, `y` and `z`.
    pub fn new(x: Scalar, y: Scalar, z: Scalar) -> (v: Vec3)
        ensures
            v.x == x,
            v.y == y,
            v.z == z,
    {
        Vec3 { x, y, z }
    }

    /// The same number in all three places.
    #[verifier::when_used_as_spec(spec_splat)]
    pub fn splat(s: Scalar) -> (v: Vec3)
        ensures
            v == Vec3::spec_splat(s),
    {
        Vec3 { x: s, y: s, z: s }
    }

    /// The triple of positive zeros: the origin, and black.
    #[verifier::when_used_as_spec(spec_zero)]
    pub fn zero() -> (v: Vec3)
        ensures
            v == Vec3::spec_zero(),
    {
        Vec3::splat(Scalar::zero())
    }

    /// The triple of ones: white.
    #[verifier::when_used_as_spec(spec_one)]
    pub fn one() -> (v: Vec3)
        ensures
            v == Vec3::spec_one(),
    {
        Vec3::splat(Scalar::one())
    }

    /// The unit vector along x.
    #[verifier::when_used_as_spec(spec_unit_x)]
    pub fn unit_x() -> (v: Vec3)
        ensures
            v == Vec3::spec_unit_x(),
    {
        Vec3 { x: Scalar::one(), y: Scalar::zero(), z: Scalar::zero() }
    }

    /// The component along `axis`.
    pub fn get(&self, axis: usize) -> (s: Scalar)
        requires
            axis < 3,
        ensures
            s == self.axis(axis as int),
    {
        if axis == 0 {
            self.x
        } else if axis == 1 {
            self.y
        } else {
            self.z
        }
    }

    /// The component-wise smaller of two triples.
    #[verifier::when_used_as_spec(spec_min)]
    pub fn min(self, other: Vec3) -> (v: Vec3)
        ensures
            v == self.spec_min(other),
    {
        Vec3 { x: self.x.min(other.x), y: self.y.min(other.y), z: self.z.min(other.z) }
    }

    /// The component-wise larger of two triples.
    #[verifier::when_used_as_spec(spec_max)]
    pub fn max(self, other: Vec3) -> (v: Vec3)
        ensures
            v == self.spec_max(other),
    {
        Vec3 { x: self.x.max(other.x), y: self.y.max(other.y), z: self.z.max(other.z) }
    }

    /// The opposite vector.
    pub open spec fn spec_neg(self) -> Vec3 {
        Vec3 { x: self.x.neg(), y: self.y.neg(), z: self.z.neg() }
    }

    /// The opposite vector: the sign of every component flipped.
    #[verifier::when_used_as_spec(spec_neg)]
    pub fn neg(self) -> (v: Vec3)
        ensures
            v == self.spec_neg(),
    {
        Vec3 { x: self.x.neg(), y: self.y.neg(), z: self.z.neg() }
    }
}

/// Bit pattern of the machine epsilon: the gap between one and the next
/// number above it.
pub const EPSILON_BITS: u32 = 0x3400_0000;

/// Every component is closer to zero than the machine epsilon.
pub open spec fn spec_vec3a_near_zero(v: Vec3) -> bool {
    let s = Scalar { key: EPSILON_BITS as i32 };
    v.x.abs().lt(s) && v.y.abs().lt(s) && v.z.abs().lt(s)
}

/// Whether a vector is too short to be given a direction.
#[verifier::when_used_as_spec(spec_vec3a_near_zero)]
pub fn vec3a_near_zero(v: Vec3) -> (near: bool)
    ensures
        near == spec_vec3a_near_zero(v),
{
    let s = Scalar::from_bits(EPSILON_BITS);
    v.x.abs().lt(s) && v.y.abs().lt(s) && v.z.abs().lt(s)
}

/// A ray: an origin, a direction, and the screen sample it was shot for.
#[derive(Clone, Copy, Debug, PartialEq, Eq, Structural)]
pub struct Ray {
    pub o: Vec3,
    pub d: Vec3,
    pub s: Vec2,
}

} // verus!
