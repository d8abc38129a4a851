//! Spheres.

use vstd::prelude::*;
use crate::closest::within_bound;
use crate::scalar::{is_in_range, spec_is_in_range, Scalar};
use crate::vec3::Pt3;

verus! {

/// A sphere, by its centre and radius.
#[derive(Clone, Copy, Debug, PartialEq, Eq, Structural)]
pub struct Sphere {
    pub center: Pt3,
    pub radius: Scalar,
    pub material: usize,
}

/// What a choice of root leaves for an interval cut off at `end`.
pub open spec fn root_cut_off(whole: Option<Scalar>, end: Scalar) -> Option<Scalar> {
    match whole {
        Some(t) => if t.spec_lt(end) {
            Some(t)
        } else {
            None
        },
        None => None,
    }
}

impl Sphere {
    pub fn new(center: Pt3, radius: Scalar, material: usize) -> (r: Sphere)
        ensures
            r == (Sphere { center, radius, material }),
    {
        Sphere { center, radius, material }
    }

    /// The root of a sphere's quadratic that counts as the hit: none unless
    /// the discriminant is a number that is not negative, else the smaller
    /// root `t1` if it lies in `[tmin, tmax)`, else the larger root `t2` if
    /// that does.
    pub open spec fn spec_root(
        discriminant: Scalar,
        t1: Scalar,
        t2: Scalar,
        tmin: Scalar,
        tmax: Option<Scalar>,
    ) -> Option<Scalar> {
        if !Scalar::spec_zero().spec_le(discriminant) {
            None
        } else if spec_is_in_range(t1, tmin, tmax) {
            Some(t1)
        } else if spec_is_in_range(t2, tmin, tmax) {
            Some(t2)
        } else {
            None
        }
    }

    #[verifier::when_used_as_spec(spec_root)]
    pub fn root(
        discriminant: Scalar,
        t1: Scalar,
        t2: Scalar,
        tmin: Scalar,
        tmax: Option<Scalar>,
    ) -> (r: Option<Scalar>)
        ensures
            r == Sphere::spec_root(discriminant, t1, t2, tmin, tmax),
            r matches Some(t) ==> !t.nan() && spec_is_in_range(t, tmin, tmax) && (t == t1 || t
                == t2),
    {
        if !Scalar::zero().le(discriminant) {
            return None;
        }
        if is_in_range(t1, tmin, tmax) {
            return Some(t1);
        }
        if is_in_range(t2, tmin, tmax) {
            Some(t2)
        } else {
            None
        }
    }

    /// A sphere reports its first intersection.  With the smaller root
    /// first, the root chosen for an interval is a number, the least root in
    /// the interval; and for an interval cut off earlier the choice is the
    /// same root if it still lies inside, and none otherwise.
    pub proof fn lemma_root_is_first(
        discriminant: Scalar,
        t1: Scalar,
        t2: Scalar,
        tmin: Scalar,
        tmax: Option<Scalar>,
        end: Scalar,
    )
        requires
            t1.spec_le(t2),
            !end.nan(),
            tmax matches Some(limit) ==> !limit.nan(),
            within_bound(end, tmax),
        ensures
            Sphere::spec_root(discriminant, t1, t2, tmin, tmax) matches Some(t) ==> {
                &&& !t.nan()
                &&& spec_is_in_range(t, tmin, tmax)
                &&& (spec_is_in_range(t1, tmin, tmax) ==> t.key() <= t1.key())
                &&& (spec_is_in_range(t2, tmin, tmax) ==> t.key() <= t2.key())
            },
            Sphere::spec_root(discriminant, t1, t2, tmin, Some(end)) == root_cut_off(
                Sphere::spec_root(discriminant, t1, t2, tmin, tmax),
                end,
            ),
    {
    }
}

} // verus!
