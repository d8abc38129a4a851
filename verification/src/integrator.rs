//! The decisions of the path integrator.
//!
//! A path is followed from the camera into the scene.  At each surface the
//! light that the surface emits is added, and the path goes on along the
//! scattered ray with a fixed probability; it ends where the ray leaves the
//! scene, where the material absorbs it, or where the draw says so.

use vstd::prelude::*;
use crate::material::MaterialScatter;
use crate::ray::Ray;
use crate::scalar::Scalar;
use crate::vec3::Vec3;

verus! {

/// The probability with which a path goes on after a scattering, 0.7.  The
/// light of a path that goes on is divided by it.
pub open spec fn spec_survival_probability() -> Scalar {
    Scalar { bits: 0x3fe6_6666_6666_6666 }
}

#[verifier::when_used_as_spec(spec_survival_probability)]
pub fn survival_probability() -> (r: Scalar)
    ensures
        r == spec_survival_probability(),
{
    Scalar { bits: 0x3fe6_6666_6666_6666 }
}

/// The least parameter at which a path looks for its next surface, 0.01:
/// it keeps a scattered ray from hitting the surface that it leaves.
pub open spec fn spec_min_distance() -> Scalar {
    Scalar { bits: 0x3f84_7ae1_47ae_147b }
}

#[verifier::when_used_as_spec(spec_min_distance)]
pub fn min_distance() -> (r: Scalar)
    ensures
        r == spec_min_distance(),
{
    Scalar { bits: 0x3f84_7ae1_47ae_147b }
}

/// The ray along which a path goes on after a scattering, if it goes on: it
/// does where the uniform draw falls below the survival probability and the
/// material gave a scattered ray.
pub open spec fn spec_continuation(scatter: MaterialScatter, draw: Scalar) -> Option<Ray> {
    if draw.spec_lt(spec_survival_probability()) {
        scatter.scattered
    } else {
        None
    }
}

#[verifier::when_used_as_spec(spec_continuation)]
pub fn continuation(scatter: MaterialScatter, draw: Scalar) -> (r: Option<Ray>)
    ensures
        r == spec_continuation(scatter, draw),
{
    if draw.lt(survival_probability()) {
        scatter.scattered
    } else {
        None
    }
}

/// What a path does at one of its stops.
#[derive(Clone, Copy, Debug, PartialEq, Eq, Structural)]
pub enum PathStep {
    /// The ray left the scene: the path ends with the light of the
    /// background.
    Background,
    /// The path ends at a surface with the light that the surface emits.
    Emission,
    /// The path gathers the light that the surface emits and goes on along
    /// `ray`; of the light that comes back along it, `attenuation` is kept,
    /// divided by the survival probability.
    Scattered { ray: Ray, attenuation: Vec3 },
}

/// What a path does after its ray was sent into the scene.  `hit` tells
/// whether the ray met a surface, `scatter` is what the material of that
/// surface made of the ray, and `draw` is the uniform draw.
pub open spec fn spec_path_step(hit: bool, scatter: Option<MaterialScatter>, draw: Scalar) -> PathStep {
    if !hit {
        PathStep::Background
    } else {
        match scatter {
            None => PathStep::Emission,
            Some(made) => match spec_continuation(made, draw) {
                Some(ray) => PathStep::Scattered { ray, attenuation: made.attenuation },
                None => PathStep::Emission,
            },
        }
    }
}

/// Decides what a path does at one stop: it ends with the background where
/// the ray met nothing, it ends with the surface's own light where the
/// material absorbed the ray, gave no scattered ray, or the draw did not fall
/// below the survival probability, and it goes on otherwise.
#[verifier::when_used_as_spec(spec_path_step)]
pub fn path_step(hit: bool, scatter: Option<MaterialScatter>, draw: Scalar) -> (r: PathStep)
    ensures
        r == spec_path_step(hit, scatter, draw),
{
    if !hit {
        return PathStep::Background;
    }
    match scatter {
        None => PathStep::Emission,
        Some(made) => match continuation(made, draw) {
            Some(ray) => PathStep::Scattered { ray, attenuation: made.attenuation },
            None => PathStep::Emission,
        },
    }
}

} // verus!
