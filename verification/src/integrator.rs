//! The path integrator: the radiance along a ray, bounce after bounce, up
//! to the depth limit. The library walks the path and decides; the numeric
//! work on the way is handed in as functions.

use crate::hitable::{unbounded, HitRecord, Hitable};
use crate::math::{Ray, Vec3};
use crate::scalar::Scalar;
use vstd::prelude::*;

verus! {

/// The number of bounces after which a path is cut off.
pub const MAX_DEPTH: i32 = 50;

/// Bit pattern of the nearest ray parameter at which a surface counts as
/// hit: one thousandth, which keeps a bounced ray off the surface it left.
pub const SHADOW_EPSILON_BITS: u32 = 0x3a83_126f;

/// Bit pattern of the largest contribution per channel that a bounce may
/// add when its direction was not drawn towards the light: ten.
pub const FIREFLY_LIMIT_BITS: u32 = 0x4120_0000;

/// What a surface does with the light that reaches it along a ray.
#[derive(Clone, Copy, Debug)]
pub enum Scatter {
    /// Nothing goes on: the surface only emits.
    Absorbed,
    /// The light goes on along one ray, tinted by `attenuation`.
    Specular { attenuation: Vec3, ray: Ray },
    /// The light goes on along a ray that was drawn from the mixture of the
    /// surface's own distribution and the one aimed at the light.
    Sampled {
        attenuation: Vec3,
        ray: Ray,
        /// The density of the mixture in the drawn direction.
        mixture_pdf: Scalar,
        /// The surface's own density in that direction over `mixture_pdf`.
        pdf_ratio: Scalar,
        /// Whether the direction was drawn towards the light.
        direct_light: bool,
    },
}

/// What the material at a hit says: the radiance it emits there, and what it
/// does with incoming light.
#[derive(Clone, Copy, Debug)]
pub struct Shading {
    pub emitted: Vec3,
    pub scatter: Scatter,
}

/// The nearest ray parameter at which a surface counts as hit.
pub open spec fn shadow_epsilon() -> Scalar {
    Scalar { key: SHADOW_EPSILON_BITS as i32 }
}

/// The cap on a contribution that did not come by way of the light.
pub open spec fn firefly_limit() -> Vec3 {
    Vec3::splat(Scalar { key: FIREFLY_LIMIT_BITS as i32 })
}

/// No light at all.
pub open spec fn black() -> Vec3 {
    Vec3::zero()
}

/// A sampled bounce is dropped where the mixture has no density in the
/// drawn direction, or the ratio of the densities is not a finite number.
pub open spec fn degenerate(mixture_pdf: Scalar, pdf_ratio: Scalar) -> bool {
    mixture_pdf.is_zero() || !pdf_ratio.is_finite()
}

/// The contribution of a bounce as it is added: capped per channel unless
/// its direction was drawn towards the light.
pub open spec fn capped(contribution: Vec3, direct_light: bool) -> Vec3 {
    if direct_light {
        contribution
    } else {
        contribution.min(firefly_limit())
    }
}

impl Scatter {
    /// Where the path goes on: the attenuation and the ray of the bounce.
    /// It ends at a surface that absorbs, and at a degenerate sampled bounce.
    pub open spec fn spec_next(self) -> Option<(Vec3, Ray)> {
        match self {
            Scatter::Absorbed => None,
            Scatter::Specular { attenuation, ray } => Some((attenuation, ray)),
            Scatter::Sampled { attenuation, ray, mixture_pdf, pdf_ratio, direct_light } => {
                if degenerate(mixture_pdf, pdf_ratio) {
                    None
                } else {
                    Some((attenuation, ray))
                }
            },
        }
    }

    /// The weight of the bounce: the ratio of the densities for a sampled
    /// bounce, one for any other.
    pub open spec fn spec_weight(self) -> Scalar {
        match self {
            Scatter::Sampled { attenuation, ray, mixture_pdf, pdf_ratio, direct_light } => pdf_ratio,
            _ => Scalar::one(),
        }
    }

    /// Whether what the bounce adds is left uncapped: a sampled bounce is
    /// capped unless it was drawn towards the light, no other bounce is.
    pub open spec fn spec_uncapped(self) -> bool {
        match self {
            Scatter::Sampled { attenuation, ray, mixture_pdf, pdf_ratio, direct_light } => direct_light,
            _ => true,
        }
    }

    /// Where the path goes on, if it does.
    #[verifier::when_used_as_spec(spec_next)]
    pub fn next(self) -> (bounce: Option<(Vec3, Ray)>)
        ensures
            bounce == self.spec_next(),
    {
        match self {
            Scatter::Absorbed => None,
            Scatter::Specular { attenuation, ray } => Some((attenuation, ray)),
            Scatter::Sampled { attenuation, ray, mixture_pdf, pdf_ratio, direct_light } => {
                if mixture_pdf.is_zero() || !pdf_ratio.is_finite() {
                    None
                } else {
                    Some((attenuation, ray))
                }
            },
        }
    }

    /// The weight of the bounce.
    #[verifier::when_used_as_spec(spec_weight)]
    pub fn weight(self) -> (w: Scalar)
        ensures
            w == self.spec_weight(),
    {
        match self {
            Scatter::Sampled { attenuation, ray, mixture_pdf, pdf_ratio, direct_light } => pdf_ratio,
            _ => Scalar::one(),
        }
    }

    /// Whether what the bounce adds is left uncapped.
    #[verifier::when_used_as_spec(spec_uncapped)]
    pub fn uncapped(self) -> (free: bool)
        ensures
            free == self.spec_uncapped(),
    {
        match self {
            Scatter::Sampled { attenuation, ray, mixture_pdf, pdf_ratio, direct_light } => direct_light,
            _ => true,
        }
    }
}

/// `color` is a radiance that tracing `r` at `depth` can end with.
///
/// Beyond the depth limit it is black. A ray that hits nothing in `world`
/// from the shadow epsilon on gets what `sky` gives for its direction.
/// Otherwise `shade` is asked at the nearest hit, and the path follows what
/// it answers.
pub open spec fn may_shine<
    W: Hitable,
    M: Fn(Ray, HitRecord) -> Shading,
    K: Fn(Vec3) -> Vec3,
    G: Fn(Vec3, Vec3, Scalar) -> Vec3,
    A: Fn(Vec3, Vec3) -> Vec3,
>(r: Ray, world: W, depth: int, shade: M, sky: K, weigh: G, sum: A, color: Vec3) -> bool
    decreases MAX_DEPTH + 1 - depth, 1nat,
{
    if depth > MAX_DEPTH {
        color == black()
    } else {
        match world.hit_spec(r, shadow_epsilon(), unbounded()) {
            None => call_ensures(sky, (r.d,), color),
            Some(rec) => exists|s: Shading| #[trigger]
                call_ensures(shade, (r, rec), s) && may_follow(
                    s,
                    world,
                    depth,
                    shade,
                    sky,
                    weigh,
                    sum,
                    color,
                ),
        }
    }
}

/// `color` is a radiance that a path can end with after the material has
/// said `s` at a hit within the depth limit.
///
/// Where the path ends, it is what the surface emits. Else the ray of the
/// bounce is traced one level deeper; `weigh` puts what comes back together
/// with the attenuation and the weight of the bounce, the result is capped
/// unless the bounce is left uncapped, and `sum` adds it to what the surface
/// emits.
pub open spec fn may_follow<
    W: Hitable,
    M: Fn(Ray, HitRecord) -> Shading,
    K: Fn(Vec3) -> Vec3,
    G: Fn(Vec3, Vec3, Scalar) -> Vec3,
    A: Fn(Vec3, Vec3) -> Vec3,
>(s: Shading, world: W, depth: int, shade: M, sky: K, weigh: G, sum: A, color: Vec3) -> bool
    decreases MAX_DEPTH + 1 - depth, 0nat,
{
    if depth > MAX_DEPTH {
        false
    } else {
        match s.scatter.next() {
            None => color == s.emitted,
            Some((attenuation, ray)) => exists|incoming: Vec3, contribution: Vec3|
                {
                    &&& may_shine(ray, world, depth + 1, shade, sky, weigh, sum, incoming)
                    &&& #[trigger] call_ensures(
                        weigh,
                        (attenuation, incoming, s.scatter.weight()),
                        contribution,
                    )
                    &&& call_ensures(
                        sum,
                        (s.emitted, capped(contribution, s.scatter.uncapped())),
                        color,
                    )
                },
        }
    }
}

/// The radiance that arrives along `r`, which has bounced `depth` times.
///
/// `world` is the scene. The numeric work is done by the four functions
/// handed in: `shade` evaluates the material at a hit, `sky` gives the
/// radiance of the environment in a direction, `weigh` multiplies an
/// attenuation, an incoming radiance and a weight, and `sum` adds two
/// radiances.
pub fn ray_color<
    W: Hitable,
    M: Fn(Ray, HitRecord) -> Shading,
    K: Fn(Vec3) -> Vec3,
    G: Fn(Vec3, Vec3, Scalar) -> Vec3,
    A: Fn(Vec3, Vec3) -> Vec3,
>(r: Ray, world: &W, depth: i32, shade: &M, sky: &K, weigh: &G, sum: &A) -> (color: Vec3)
    requires
        forall|q: Ray, rec: HitRecord| call_requires(shade, (q, rec)),
        forall|d: Vec3| call_requires(sky, (d,)),
        forall|a: Vec3, l: Vec3, w: Scalar| call_requires(weigh, (a, l, w)),
        forall|a: Vec3, b: Vec3| call_requires(sum, (a, b)),
    ensures
        may_shine(r, *world, depth as int, *shade, *sky, *weigh, *sum, color),
    decreases MAX_DEPTH + 1 - depth,
{
    if depth > MAX_DEPTH {
        return Vec3::zero();
    }
    let mut rec = HitRecord::default();
    let t_min = Scalar::from_bits(SHADOW_EPSILON_BITS);
    if !world.hit(&r, t_min, Scalar::infinity(), &mut rec) {
        return sky(r.d);
    }
    let s = shade(r, rec);
    match s.scatter.next() {
        None => s.emitted,
        Some((attenuation, ray)) => {
            let incoming = ray_color(ray, world, depth + 1, shade, sky, weigh, sum);
            let contribution = weigh(attenuation, incoming, s.scatter.weight());
            let added = if s.scatter.uncapped() {
                contribution
            } else {
                contribution.min(Vec3::splat(Scalar::from_bits(FIREFLY_LIMIT_BITS)))
            };
            let color = sum(s.emitted, added);
            proof {
                assert(call_ensures(
                    *weigh,
                    (attenuation, incoming, s.scatter.weight()),
                    contribution,
                ));
                assert(may_follow(s, *world, depth as int, *shade, *sky, *weigh, *sum, color));
            }
            color
        },
    }
}

/// Beyond the depth limit every path is black, whatever the scene, the
/// materials and the sky.
pub proof fn lemma_depth_cutoff<
    W: Hitable,
    M: Fn(Ray, HitRecord) -> Shading,
    K: Fn(Vec3) -> Vec3,
    G: Fn(Vec3, Vec3, Scalar) -> Vec3,
    A: Fn(Vec3, Vec3) -> Vec3,
>(r: Ray, world: W, depth: int, shade: M, sky: K, weigh: G, sum: A, color: Vec3)
    requires
        depth > MAX_DEPTH,
        may_shine(r, world, depth, shade, sky, weigh, sum, color),
    ensures
        color == black(),
{
}

/// Within the depth limit a ray that hits nothing gets the radiance of the
/// sky in its direction, and nothing else.
pub proof fn lemma_miss_is_sky<
    W: Hitable,
    M: Fn(Ray, HitRecord) -> Shading,
    K: Fn(Vec3) -> Vec3,
    G: Fn(Vec3, Vec3, Scalar) -> Vec3,
    A: Fn(Vec3, Vec3) -> Vec3,
>(r: Ray, world: W, depth: int, shade: M, sky: K, weigh: G, sum: A, color: Vec3)
    requires
        depth <= MAX_DEPTH,
        world.hit_spec(r, shadow_epsilon(), unbounded()).is_none(),
        may_shine(r, world, depth, shade, sky, weigh, sum, color),
    ensures
        call_ensures(sky, (r.d,), color),
{
}

/// Within the depth limit a ray that hits a surface gets what the path can
/// end with after some answer of the material at the nearest hit.
pub proof fn lemma_hit_is_shaded<
    W: Hitable,
    M: Fn(Ray, HitRecord) -> Shading,
    K: Fn(Vec3) -> Vec3,
    G: Fn(Vec3, Vec3, Scalar) -> Vec3,
    A: Fn(Vec3, Vec3) -> Vec3,
>(r: Ray, world: W, depth: int, shade: M, sky: K, weigh: G, sum: A, color: Vec3, rec: HitRecord)
    requires
        depth <= MAX_DEPTH,
        world.hit_spec(r, shadow_epsilon(), unbounded()) == Some(rec),
        may_shine(r, world, depth, shade, sky, weigh, sum, color),
    ensures
        exists|s: Shading| #[trigger]
            call_ensures(shade, (r, rec), s) && may_follow(
                s,
                world,
                depth,
                shade,
                sky,
                weigh,
                sum,
                color,
            ),
{
}

/// A path that goes on adds to what the surface emits the weighed and, as
/// the case may be, capped radiance of the ray one level deeper.
pub proof fn lemma_path_goes_on<
    W: Hitable,
    M: Fn(Ray, HitRecord) -> Shading,
    K: Fn(Vec3) -> Vec3,
    G: Fn(Vec3, Vec3, Scalar) -> Vec3,
    A: Fn(Vec3, Vec3) -> Vec3,
>(s: Shading, world: W, depth: int, shade: M, sky: K, weigh: G, sum: A, color: Vec3)
    requires
        may_follow(s, world, depth, shade, sky, weigh, sum, color),
    ensures
        depth <= MAX_DEPTH,
        s.scatter.next().is_none() ==> color == s.emitted,
        s.scatter.next() matches Some((attenuation, ray)) ==> exists|
            incoming: Vec3,
            contribution: Vec3,
        |
            {
                &&& may_shine(ray, world, depth + 1, shade, sky, weigh, sum, incoming)
                &&& #[trigger] call_ensures(
                    weigh,
                    (attenuation, incoming, s.scatter.weight()),
                    contribution,
                )
                &&& call_ensures(
                    sum,
                    (s.emitted, capped(contribution, s.scatter.uncapped())),
                    color,
                )
            },
{
}

/// Within the depth limit a ray whose nearest hit lies on a surface that
/// only emits gets exactly what that surface emits.
pub proof fn lemma_light_is_emitted<
    W: Hitable,
    M: Fn(Ray, HitRecord) -> Shading,
    K: Fn(Vec3) -> Vec3,
    G: Fn(Vec3, Vec3, Scalar) -> Vec3,
    A: Fn(Vec3, Vec3) -> Vec3,
>(r: Ray, world: W, depth: int, shade: M, sky: K, weigh: G, sum: A, color: Vec3, emitted: Vec3)
    requires
        depth <= MAX_DEPTH,
        world.hit_spec(r, shadow_epsilon(), unbounded()) matches Some(rec) && (forall|s: Shading|
            call_ensures(shade, (r, rec), s) ==> s.scatter is Absorbed && s.emitted == emitted),
        may_shine(r, world, depth, shade, sky, weigh, sum, color),
    ensures
        color == emitted,
{
}

} // verus!
