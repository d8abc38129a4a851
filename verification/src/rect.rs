//! Axis-aligned rectangles and the box made of six of them.

use vstd::prelude::*;
use crate::aabb::AABB;
use crate::scalar::{is_in_range, spec_is_in_range, Scalar};
use crate::vec3::{Axis, Vec3};

verus! {

/// A rectangle in the plane `z = self.z`.
#[derive(Clone, Copy, Debug, PartialEq, Eq, Structural)]
pub struct XYRect {
    pub x0: Scalar,
    pub x1: Scalar,
    pub y0: Scalar,
    pub y1: Scalar,
    pub z: Scalar,
    pub material: usize,
}

/// A rectangle in the plane `x = self.x`.
#[derive(Clone, Copy, Debug, PartialEq, Eq, Structural)]
pub struct YZRect {
    pub x: Scalar,
    pub y0: Scalar,
    pub y1: Scalar,
    pub z0: Scalar,
    pub z1: Scalar,
    pub material: usize,
}

/// A rectangle in the plane `y = self.y`.
#[derive(Clone, Copy, Debug, PartialEq, Eq, Structural)]
pub struct XZRect {
    pub x0: Scalar,
    pub x1: Scalar,
    pub z0: Scalar,
    pub z1: Scalar,
    pub y: Scalar,
    pub material: usize,
}

/// A rectangle of any of the three orientations, by what they share: the
/// axis it is perpendicular to and its place `k` along that axis, and the
/// two axes of its plane with its extent along each.
#[derive(Clone, Copy, Debug, PartialEq, Eq, Structural)]
pub struct AxisRect {
    pub normal_axis: Axis,
    pub k: Scalar,
    pub a_axis: Axis,
    pub a0: Scalar,
    pub a1: Scalar,
    pub b_axis: Axis,
    pub b0: Scalar,
    pub b1: Scalar,
    pub material: usize,
}

/// One side of a box.
#[derive(Clone, Copy, Debug, PartialEq, Eq, Structural)]
pub enum Side {
    XY(XYRect),
    XZ(XZRect),
    YZ(YZRect),
}

/// A side of a box, and whether it is seen from its other side.
#[derive(Clone, Copy, Debug, PartialEq, Eq, Structural)]
pub struct Face {
    pub side: Side,
    pub flipped: bool,
}

/// An axis-aligned rectangle is hit where the parameter at which the ray
/// crosses its plane lies in the interval and the crossing point, `(a, b)`
/// in the plane, lies within the rectangle's extent on both axes.  A
/// crossing that is not a number, as that of a ray within the plane, is no
/// hit.
pub open spec fn spec_rect_accepts(
    t: Scalar,
    a: Scalar,
    b: Scalar,
    a0: Scalar,
    a1: Scalar,
    b0: Scalar,
    b1: Scalar,
    tmin: Scalar,
    tmax: Option<Scalar>,
) -> bool {
    &&& spec_is_in_range(t, tmin, tmax)
    &&& a0.spec_le(a) && a.spec_le(a1)
    &&& b0.spec_le(b) && b.spec_le(b1)
}

#[verifier::when_used_as_spec(spec_rect_accepts)]
pub fn rect_accepts(
    t: Scalar,
    a: Scalar,
    b: Scalar,
    a0: Scalar,
    a1: Scalar,
    b0: Scalar,
    b1: Scalar,
    tmin: Scalar,
    tmax: Option<Scalar>,
) -> (r: bool)
    ensures
        r == spec_rect_accepts(t, a, b, a0, a1, b0, b1, tmin, tmax),
        r ==> !t.nan() && !a.nan() && !b.nan(),
{
    if !is_in_range(t, tmin, tmax) {
        return false;
    }
    a0.le(a) && a.le(a1) && b0.le(b) && b.le(b1)
}

/// The vector with `value` along `axis` and zero along the others.
pub open spec fn spec_along_axis(axis: Axis, value: Scalar) -> Vec3 {
    let o = Scalar::spec_zero();
    match axis {
        Axis::X => Vec3 { x: value, y: o, z: o },
        Axis::Y => Vec3 { x: o, y: value, z: o },
        Axis::Z => Vec3 { x: o, y: o, z: value },
    }
}

/// The vector with the given components along the given axes.
pub open spec fn spec_placed(
    first: (Axis, Scalar),
    second: (Axis, Scalar),
    third: (Axis, Scalar),
) -> Vec3 {
    Vec3 {
        x: if first.0 == Axis::X {
            first.1
        } else if second.0 == Axis::X {
            second.1
        } else {
            third.1
        },
        y: if first.0 == Axis::Y {
            first.1
        } else if second.0 == Axis::Y {
            second.1
        } else {
            third.1
        },
        z: if first.0 == Axis::Z {
            first.1
        } else if second.0 == Axis::Z {
            second.1
        } else {
            third.1
        },
    }
}

fn same_axis(a: Axis, b: Axis) -> (r: bool)
    ensures
        r == (a == b),
{
    match (a, b) {
        (Axis::X, Axis::X) => true,
        (Axis::Y, Axis::Y) => true,
        (Axis::Z, Axis::Z) => true,
        _ => false,
    }
}

/// Puts three components at the places of their axes.
fn placed(first: (Axis, Scalar), second: (Axis, Scalar), third: (Axis, Scalar)) -> (r: Vec3)
    ensures
        r == spec_placed(first, second, third),
{
    let pick = |axis: Axis| -> (value: Scalar)
        ensures
            value == (if first.0 == axis {
                first.1
            } else if second.0 == axis {
                second.1
            } else {
                third.1
            }),
        {
            if same_axis(first.0, axis) {
                first.1
            } else if same_axis(second.0, axis) {
                second.1
            } else {
                third.1
            }
        };
    Vec3 { x: pick(Axis::X), y: pick(Axis::Y), z: pick(Axis::Z) }
}

impl XYRect {
    pub fn new(x0: Scalar, x1: Scalar, y0: Scalar, y1: Scalar, z: Scalar, material: usize) -> (r:
        XYRect)
        ensures
            r == (XYRect { x0, x1, y0, y1, z, material }),
    {
        XYRect { x0, x1, y0, y1, z, material }
    }

    /// The rectangle by its axes: perpendicular to z, spanning x and y.
    pub fn oriented(&self) -> (r: AxisRect)
        ensures
            r == (AxisRect {
                normal_axis: Axis::Z,
                k: self.z,
                a_axis: Axis::X,
                a0: self.x0,
                a1: self.x1,
                b_axis: Axis::Y,
                b0: self.y0,
                b1: self.y1,
                material: self.material,
            }),
    {
        AxisRect {
            normal_axis: Axis::Z,
            k: self.z,
            a_axis: Axis::X,
            a0: self.x0,
            a1: self.x1,
            b_axis: Axis::Y,
            b0: self.y0,
            b1: self.y1,
            material: self.material,
        }
    }
}

impl YZRect {
    pub fn new(y0: Scalar, y1: Scalar, z0: Scalar, z1: Scalar, x: Scalar, material: usize) -> (r:
        YZRect)
        ensures
            r == (YZRect { x, y0, y1, z0, z1, material }),
    {
        YZRect { x, y0, y1, z0, z1, material }
    }

    /// The rectangle by its axes: perpendicular to x, spanning y and z.
    pub fn oriented(&self) -> (r: AxisRect)
        ensures
            r == (AxisRect {
                normal_axis: Axis::X,
                k: self.x,
                a_axis: Axis::Y,
                a0: self.y0,
                a1: self.y1,
                b_axis: Axis::Z,
                b0: self.z0,
                b1: self.z1,
                material: self.material,
            }),
    {
        AxisRect {
            normal_axis: Axis::X,
            k: self.x,
            a_axis: Axis::Y,
            a0: self.y0,
            a1: self.y1,
            b_axis: Axis::Z,
            b0: self.z0,
            b1: self.z1,
            material: self.material,
        }
    }
}

impl XZRect {
    pub fn new(x0: Scalar, x1: Scalar, z0: Scalar, z1: Scalar, y: Scalar, material: usize) -> (r:
        XZRect)
        ensures
            r == (XZRect { x0, x1, z0, z1, y, material }),
    {
        XZRect { x0, x1, y, z0, z1, material }
    }

    /// The rectangle by its axes: perpendicular to y, spanning x and z.
    pub fn oriented(&self) -> (r: AxisRect)
        ensures
            r == (AxisRect {
                normal_axis: Axis::Y,
                k: self.y,
                a_axis: Axis::X,
                a0: self.x0,
                a1: self.x1,
                b_axis: Axis::Z,
                b0: self.z0,
                b1: self.z1,
                material: self.material,
            }),
    {
        AxisRect {
            normal_axis: Axis::Y,
            k: self.y,
            a_axis: Axis::X,
            a0: self.x0,
            a1: self.x1,
            b_axis: Axis::Z,
            b0: self.z0,
            b1: self.z1,
            material: self.material,
        }
    }
}

impl AxisRect {
    /// The three axes of the rectangle are the three axes of space.
    pub open spec fn wf(self) -> bool {
        self.normal_axis != self.a_axis && self.normal_axis != self.b_axis && self.a_axis
            != self.b_axis
    }

    /// The outward normal: the unit vector along the axis that the
    /// rectangle is perpendicular to.
    pub fn outward_normal(&self) -> (r: Vec3)
        ensures
            r == spec_along_axis(self.normal_axis, Scalar::spec_one()),
    {
        let o = Scalar::zero();
        let l = Scalar::one();
        match self.normal_axis {
            Axis::X => Vec3 { x: l, y: o, z: o },
            Axis::Y => Vec3 { x: o, y: l, z: o },
            Axis::Z => Vec3 { x: o, y: o, z: l },
        }
    }

    /// Whether a ray that crosses the rectangle's plane at parameter `t`, in
    /// the point `(a, b)` of the plane, hits the rectangle.
    pub fn accepts(&self, t: Scalar, a: Scalar, b: Scalar, tmin: Scalar, tmax: Option<Scalar>) -> (r:
        bool)
        ensures
            r == spec_rect_accepts(t, a, b, self.a0, self.a1, self.b0, self.b1, tmin, tmax),
            r ==> !t.nan() && !a.nan() && !b.nan(),
    {
        rect_accepts(t, a, b, self.a0, self.a1, self.b0, self.b1, tmin, tmax)
    }

    /// The box around the rectangle, which is flat, given a little
    /// thickness: it reaches from `below` to `above` along the axis that the
    /// rectangle is perpendicular to, and over the rectangle's extent along
    /// the two others.
    pub fn bounding_box(&self, below: Scalar, above: Scalar) -> (r: AABB)
        ensures
            r.min == spec_placed(
                (self.normal_axis, below),
                (self.a_axis, self.a0),
                (self.b_axis, self.b0),
            ),
            r.max == spec_placed(
                (self.normal_axis, above),
                (self.a_axis, self.a1),
                (self.b_axis, self.b1),
            ),
    {
        AABB {
            min: placed((self.normal_axis, below), (self.a_axis, self.a0), (self.b_axis, self.b0)),
            max: placed((self.normal_axis, above), (self.a_axis, self.a1), (self.b_axis, self.b1)),
        }
    }
}

impl Side {
    /// The side by its axes.
    pub fn oriented(&self) -> (r: AxisRect)
        ensures
            r == (match *self {
                Side::XY(rect) => AxisRect {
                    normal_axis: Axis::Z,
                    k: rect.z,
                    a_axis: Axis::X,
                    a0: rect.x0,
                    a1: rect.x1,
                    b_axis: Axis::Y,
                    b0: rect.y0,
                    b1: rect.y1,
                    material: rect.material,
                },
                Side::XZ(rect) => AxisRect {
                    normal_axis: Axis::Y,
                    k: rect.y,
                    a_axis: Axis::X,
                    a0: rect.x0,
                    a1: rect.x1,
                    b_axis: Axis::Z,
                    b0: rect.z0,
                    b1: rect.z1,
                    material: rect.material,
                },
                Side::YZ(rect) => AxisRect {
                    normal_axis: Axis::X,
                    k: rect.x,
                    a_axis: Axis::Y,
                    a0: rect.y0,
                    a1: rect.y1,
                    b_axis: Axis::Z,
                    b0: rect.z0,
                    b1: rect.z1,
                    material: rect.material,
                },
            }),
            r.wf(),
    {
        match self {
            Side::XY(rect) => rect.oriented(),
            Side::XZ(rect) => rect.oriented(),
            Side::YZ(rect) => rect.oriented(),
        }
    }
}

/// The six sides of the box between two corners, all of one material.
///
/// For each pair of parallel sides the one at the far corner comes first
/// and the one at the near corner second, seen from its other side, so
/// that every side faces out of the box: first the pair across z, then the
/// pair across y, then the pair across x.
pub fn make_box(min: Vec3, max: Vec3, material: usize) -> (r: Vec<Face>)
    ensures
        r@ == seq![
            Face {
                side: Side::XY(
                    XYRect { x0: min.x, x1: max.x, y0: min.y, y1: max.y, z: max.z, material },
                ),
                flipped: false,
            },
            Face {
                side: Side::XY(
                    XYRect { x0: min.x, x1: max.x, y0: min.y, y1: max.y, z: min.z, material },
                ),
                flipped: true,
            },
            Face {
                side: Side::XZ(
                    XZRect { x0: min.x, x1: max.x, z0: min.z, z1: max.z, y: max.y, material },
                ),
                flipped: false,
            },
            Face {
                side: Side::XZ(
                    XZRect { x0: min.x, x1: max.x, z0: min.z, z1: max.z, y: min.y, material },
                ),
                flipped: true,
            },
            Face {
                side: Side::YZ(
                    YZRect { y0: min.y, y1: max.y, z0: min.z, z1: max.z, x: max.x, material },
                ),
                flipped: false,
            },
            Face {
                side: Side::YZ(
                    YZRect { y0: min.y, y1: max.y, z0: min.z, z1: max.z, x: min.x, material },
                ),
                flipped: true,
            },
        ],
{
    let mut res: Vec<Face> = Vec::with_capacity(6);
    res.push(
        Face {
            side: Side::XY(XYRect::new(min.x, max.x, min.y, max.y, max.z, material)),
            flipped: false,
        },
    );
    res.push(
        Face {
            side: Side::XY(XYRect::new(min.x, max.x, min.y, max.y, min.z, material)),
            flipped: true,
        },
    );
    res.push(
        Face {
            side: Side::XZ(XZRect::new(min.x, max.x, min.z, max.z, max.y, material)),
            flipped: false,
        },
    );
    res.push(
        Face {
            side: Side::XZ(XZRect::new(min.x, max.x, min.z, max.z, min.y, material)),
            flipped: true,
        },
    );
    res.push(
        Face {
            side: Side::YZ(YZRect::new(min.y, max.y, min.z, max.z, max.x, material)),
            flipped: false,
        },
    );
    res.push(
        Face {
            side: Side::YZ(YZRect::new(min.y, max.y, min.z, max.z, min.x, material)),
            flipped: true,
        },
    );
    assert(res@ =~= seq![res@[0], res@[1], res@[2], res@[3], res@[4], res@[5]]);
    res
}

} // verus!
