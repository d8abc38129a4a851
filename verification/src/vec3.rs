//! Three-component vectors and points.

use vstd::prelude::*;
use crate::scalar::Scalar;

verus! {

/// One of the three coordinate axes.
#[derive(Clone, Copy, Debug, PartialEq, Eq, Structural)]
pub enum Axis {
    X,
    Y,
    Z,
}

/// A vector of three numbers.
#[derive(Clone, Copy, Debug, PartialEq, Eq, Structural)]
pub struct Vec3 {
    pub x: Scalar,
    pub y: Scalar,
    pub z: Scalar,
}

/// A point has the representation of a vector.
pub type Pt3 = Vec3;

impl Vec3 {
    /// The component along `axis`.
    pub open spec fn spec_get(self, axis: Axis) -> Scalar {
        match axis {
            Axis::X => self.x,
            Axis::Y => self.y,
            Axis::Z => self.z,
        }
    }

    /// Each component negated.
    pub open spec fn spec_neg(self) -> Vec3 {
        Vec3 { x: self.x.spec_neg(), y: self.y.spec_neg(), z: self.z.spec_neg() }
    }

    /// One of the components is a NaN.
    pub open spec fn spec_has_nan(self) -> bool {
        self.x.nan() || self.y.nan() || self.z.nan()
    }

    pub fn new(x: Scalar, y: Scalar, z: Scalar) -> (r: Vec3)
        ensures
            r == (Vec3 { x, y, z }),
    {
        Vec3 { x, y, z }
    }

    pub fn zero() -> (r: Vec3)
        ensures
            r == (Vec3 { x: Scalar::spec_zero(), y: Scalar::spec_zero(), z: Scalar::spec_zero() }),
    {
        Vec3::new(Scalar::zero(), Scalar::zero(), Scalar::zero())
    }

    pub fn all(x: Scalar) -> (r: Vec3)
        ensures
            r == (Vec3 { x, y: x, z: x }),
    {
        Vec3::new(x, x, x)
    }

    #[verifier::when_used_as_spec(spec_get)]
    pub fn get(self, axis: Axis) -> (r: Scalar)
        ensures
            r == self.spec_get(axis),
    {
        match axis {
            Axis::X => self.x,
            Axis::Y => self.y,
            Axis::Z => self.z,
        }
    }

    #[verifier::when_used_as_spec(spec_neg)]
    pub fn neg(self) -> (r: Vec3)
        ensures
            r == self.spec_neg(),
    {
        Vec3 { x: self.x.neg(), y: self.y.neg(), z: self.z.neg() }
    }

    #[verifier::when_used_as_spec(spec_has_nan)]
    pub fn has_nan(self) -> (r: bool)
        ensures
            r == self.spec_has_nan(),
    {
        self.x.is_nan() || self.y.is_nan() || self.z.is_nan()
    }
}

} // verus!
