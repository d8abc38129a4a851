//! Planes without bounds.

use vstd::prelude::*;
use crate::scalar::{epsilon, is_in_range, spec_epsilon, spec_is_in_range, Scalar};
use crate::vec3::{Pt3, Vec3};

verus! {

/// The plane through `point` with the given normal.  `uv_base` holds the
/// two vectors onto which a point is projected for its surface parameters.
#[derive(Clone, Copy, Debug)]
pub struct Plane {
    pub point: Pt3,
    pub normal: Vec3,
    pub uv_base: (Vec3, Vec3),
    pub material: usize,
}

impl Plane {
    /// A plane whose surface parameters are zero everywhere.
    pub fn new(point: Pt3, normal: Vec3, material: usize) -> (r: Plane)
        ensures
            r.point == point,
            r.normal == normal,
            r.uv_base == (
                Vec3 { x: Scalar::spec_zero(), y: Scalar::spec_zero(), z: Scalar::spec_zero() },
                Vec3 { x: Scalar::spec_zero(), y: Scalar::spec_zero(), z: Scalar::spec_zero() },
            ),
            r.material == material,
    {
        Plane { point, normal, uv_base: (Vec3::zero(), Vec3::zero()), material }
    }

    pub fn with_uv(point: Pt3, normal: Vec3, uv_base: (Vec3, Vec3), material: usize) -> (r: Plane)
        ensures
            r.point == point,
            r.normal == normal,
            r.uv_base == uv_base,
            r.material == material,
    {
        Plane { point, normal, uv_base, material }
    }

    /// A plane is hit where the ray is not nearly parallel to it, that is
    /// where the dot product of the ray's direction and the normal is a
    /// number of a magnitude above epsilon, and the parameter lies in the
    /// interval.
    pub open spec fn spec_accepts(
        denominator: Scalar,
        t: Scalar,
        tmin: Scalar,
        tmax: Option<Scalar>,
    ) -> bool {
        spec_epsilon().spec_lt(denominator.spec_abs()) && spec_is_in_range(t, tmin, tmax)
    }

    #[verifier::when_used_as_spec(spec_accepts)]
    pub fn accepts(denominator: Scalar, t: Scalar, tmin: Scalar, tmax: Option<Scalar>) -> (r:
        bool)
        ensures
            r == Plane::spec_accepts(denominator, t, tmin, tmax),
            r ==> !denominator.nan() && !t.nan(),
    {
        if !epsilon().lt(denominator.abs()) {
            return false;
        }
        proof {
            denominator.lemma_abs();
        }
        is_in_range(t, tmin, tmax)
    }
}

} // verus!
