//! The decisions that the materials take once the numbers are computed:
//! whether glass reflects or refracts, and whether metal scatters at all.

use crate::scalar::Scalar;
use vstd::prelude::*;

verus! {

/// The cosine of the angle of incidence, from the product of the incoming
/// direction with the normal: the product is capped at one and its sign
/// flipped.
pub open spec fn spec_incidence_cosine(facing: Scalar) -> Scalar {
    facing.min(Scalar::one()).neg()
}

/// The cosine of the angle at which a ray meets a surface.
#[verifier::when_used_as_spec(spec_incidence_cosine)]
pub fn incidence_cosine(facing: Scalar) -> (cosine: Scalar)
    ensures
        cosine == spec_incidence_cosine(facing),
{
    facing.min(Scalar::one()).neg()
}

/// A ray cannot enter the other medium where the sine of its angle, times
/// the ratio of the refractive indices, is above one.
pub open spec fn spec_cannot_refract(scaled_sine: Scalar) -> bool {
    Scalar::one().lt(scaled_sine)
}

/// Whether the ray is reflected whole. `scaled_sine` is the sine of the
/// angle of incidence times the ratio of the refractive indices.
#[verifier::when_used_as_spec(spec_cannot_refract)]
pub fn cannot_refract(scaled_sine: Scalar) -> (total: bool)
    ensures
        total == spec_cannot_refract(scaled_sine),
{
    Scalar::one().lt(scaled_sine)
}

/// A ray at a glass surface is reflected where it cannot be refracted, and
/// else with the probability that the reflectance gives: where the draw
/// falls below the reflectance.
pub open spec fn spec_dielectric_reflects(
    scaled_sine: Scalar,
    reflectance: Scalar,
    draw: Scalar,
) -> bool {
    cannot_refract(scaled_sine) || draw.lt(reflectance)
}

/// Whether a ray at a glass surface is reflected rather than refracted.
/// `draw` is a number drawn uniformly between zero and one.
#[verifier::when_used_as_spec(spec_dielectric_reflects)]
pub fn dielectric_reflects(scaled_sine: Scalar, reflectance: Scalar, draw: Scalar) -> (reflects:
    bool)
    ensures
        reflects == spec_dielectric_reflects(scaled_sine, reflectance, draw),
{
    cannot_refract(scaled_sine) || draw.lt(reflectance)
}

/// A reflection off metal counts unless it points into the surface: unless
/// its product with the normal is zero or below.
pub open spec fn spec_metal_scatters(facing: Scalar) -> bool {
    !facing.le(Scalar::zero())
}

/// Whether a reflected direction leaves the surface. `facing` is the
/// product of the reflected direction with the normal.
#[verifier::when_used_as_spec(spec_metal_scatters)]
pub fn metal_scatters(facing: Scalar) -> (scatters: bool)
    ensures
        scatters == spec_metal_scatters(facing),
{
    !facing.le(Scalar::zero())
}

} // verus!
