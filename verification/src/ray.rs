//! Rays.

use vstd::prelude::*;
use crate::vec3::{Pt3, Vec3};

verus! {

/// A half-line: the points `origin + direction * t`.  The direction need not
/// have unit length.
#[derive(Clone, Copy, Debug, PartialEq, Eq, Structural)]
pub struct Ray {
    pub origin: Pt3,
    pub direction: Vec3,
}

impl Ray {
    pub fn new(origin: Pt3, direction: Vec3) -> (r: Ray)
        ensures
            r == (Ray { origin, direction }),
    {
        Ray { origin, direction }
    }
}

} // verus!
