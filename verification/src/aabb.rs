//! Axis-aligned bounding boxes.

use vstd::prelude::*;
use crate::scalar::{fmax, fmin, spec_fmax, spec_fmin, Scalar};
use crate::vec3::{Axis, Pt3, Vec3};

verus! {

/// A box with sides parallel to the axes, by its two extreme corners.
#[derive(Clone, Copy, Debug, PartialEq, Eq, Structural)]
pub struct AABB {
    pub min: Pt3,
    pub max: Pt3,
}

/// Where a ray meets the two planes that bound a box along one axis.
///
/// With `o` and `d` the ray's origin and direction along the axis, and `lo`
/// and `hi` the box's extent, the caller computes `inv_dir = 1 / d`,
/// `t0 = (lo - o) * inv_dir` and `t1 = (hi - o) * inv_dir`.
#[derive(Clone, Copy, Debug, PartialEq, Eq, Structural)]
pub struct Crossing {
    pub inv_dir: Scalar,
    pub t0: Scalar,
    pub t1: Scalar,
}

impl Crossing {
    /// The parameter at which the ray enters the slab: the crossings swap
    /// when the ray runs against the axis.
    pub open spec fn near(self) -> Scalar {
        if self.inv_dir.spec_lt(Scalar::spec_zero()) {
            self.t1
        } else {
            self.t0
        }
    }

    /// The parameter at which the ray leaves the slab.
    pub open spec fn far(self) -> Scalar {
        if self.inv_dir.spec_lt(Scalar::spec_zero()) {
            self.t0
        } else {
            self.t1
        }
    }

    /// The running interval `(lo, hi)` cut down to this slab.
    pub open spec fn narrow(self, lo: Scalar, hi: Option<Scalar>) -> (Scalar, Scalar) {
        (
            spec_fmax(self.near(), lo),
            match hi {
                Some(end) => spec_fmin(self.far(), end),
                None => self.far(),
            },
        )
    }

    /// None of the three numbers that the test reads is a NaN.
    pub open spec fn numeric(self) -> bool {
        !self.inv_dir.nan() && !self.t0.nan() && !self.t1.nan()
    }

    /// Cuts the running interval down to this slab.
    fn narrowed(self, lo: Scalar, hi: Option<Scalar>) -> (r: (Scalar, Scalar))
        ensures
            r == self.narrow(lo, hi),
    {
        let (near, far) = if self.inv_dir.lt(Scalar::zero()) {
            (self.t1, self.t0)
        } else {
            (self.t0, self.t1)
        };
        let low = fmax(near, lo);
        let high = match hi {
            Some(end) => fmin(far, end),
            None => far,
        };
        (low, high)
    }
}

/// The larger of two integers.
pub open spec fn int_max(a: int, b: int) -> int {
    if a >= b {
        a
    } else {
        b
    }
}

/// The smaller of two integers.
pub open spec fn int_min(a: int, b: int) -> int {
    if a <= b {
        a
    } else {
        b
    }
}

/// The first smallest of `s[0..n]`: the fold that replaces the running value
/// by each later one that is less than it.
pub open spec fn running_least(s: Seq<Scalar>, n: int) -> Scalar
    decreases n,
{
    if n <= 1 {
        s[0]
    } else {
        let m = running_least(s, n - 1);
        if s[n - 1].spec_lt(m) {
            s[n - 1]
        } else {
            m
        }
    }
}

/// The first largest of `s[0..n]`.
pub open spec fn running_greatest(s: Seq<Scalar>, n: int) -> Scalar
    decreases n,
{
    if n <= 1 {
        s[0]
    } else {
        let m = running_greatest(s, n - 1);
        if m.spec_lt(s[n - 1]) {
            s[n - 1]
        } else {
            m
        }
    }
}

/// Among numbers, the running least is one of them and below all of them.
pub proof fn lemma_running_least(s: Seq<Scalar>, n: int)
    requires
        1 <= n <= s.len(),
        forall|i: int| 0 <= i < n ==> !(#[trigger] s[i]).nan(),
    ensures
        exists|j: int| 0 <= j < n && running_least(s, n) == s[j],
        forall|i: int| 0 <= i < n ==> running_least(s, n).key() <= (#[trigger] s[i]).key(),
    decreases n,
{
    if n > 1 {
        lemma_running_least(s, n - 1);
        let m = running_least(s, n - 1);
        let j = choose|j: int| 0 <= j < n - 1 && m == s[j];
        if s[n - 1].spec_lt(m) {
            assert(running_least(s, n) == s[n - 1]);
        } else {
            assert(running_least(s, n) == s[j]);
        }
    } else {
        assert(running_least(s, n) == s[0]);
    }
}

/// Among numbers, the running greatest is one of them and above all of them.
pub proof fn lemma_running_greatest(s: Seq<Scalar>, n: int)
    requires
        1 <= n <= s.len(),
        forall|i: int| 0 <= i < n ==> !(#[trigger] s[i]).nan(),
    ensures
        exists|j: int| 0 <= j < n && running_greatest(s, n) == s[j],
        forall|i: int| 0 <= i < n ==> running_greatest(s, n).key() >= (#[trigger] s[i]).key(),
    decreases n,
{
    if n > 1 {
        lemma_running_greatest(s, n - 1);
        let m = running_greatest(s, n - 1);
        let j = choose|j: int| 0 <= j < n - 1 && m == s[j];
        if m.spec_lt(s[n - 1]) {
            assert(running_greatest(s, n) == s[n - 1]);
        } else {
            assert(running_greatest(s, n) == s[j]);
        }
    } else {
        assert(running_greatest(s, n) == s[0]);
    }
}

/// The components of `points` along `axis`.
pub open spec fn along(points: Seq<Pt3>, axis: Axis) -> Seq<Scalar> {
    Seq::new(points.len(), |i: int| points[i].spec_get(axis))
}

impl AABB {
    /// Along every axis the box begins no later than it ends.  No
    /// coordinate of such a box is a NaN.
    pub open spec fn wf(self) -> bool {
        &&& self.min.x.spec_le(self.max.x)
        &&& self.min.y.spec_le(self.max.y)
        &&& self.min.z.spec_le(self.max.z)
    }

    /// The box that the component-wise least and greatest corners span.
    pub open spec fn spec_surrounding(a: AABB, b: AABB) -> AABB {
        AABB {
            min: Vec3 {
                x: spec_fmin(a.min.x, b.min.x),
                y: spec_fmin(a.min.y, b.min.y),
                z: spec_fmin(a.min.z, b.min.z),
            },
            max: Vec3 {
                x: spec_fmax(a.max.x, b.max.x),
                y: spec_fmax(a.max.y, b.max.y),
                z: spec_fmax(a.max.z, b.max.z),
            },
        }
    }

    /// `self` lies within `outer`, as numbers.
    pub open spec fn within(self, outer: AABB) -> bool {
        &&& outer.min.x.spec_le(self.min.x)
        &&& outer.min.y.spec_le(self.min.y)
        &&& outer.min.z.spec_le(self.min.z)
        &&& self.max.x.spec_le(outer.max.x)
        &&& self.max.y.spec_le(outer.max.y)
        &&& self.max.z.spec_le(outer.max.z)
    }

    /// The two boxes have the same corners, as numbers: a zero of either
    /// sign is the same coordinate.
    pub open spec fn same_extent(self, other: AABB) -> bool {
        &&& self.min.x.spec_same(other.min.x)
        &&& self.min.y.spec_same(other.min.y)
        &&& self.min.z.spec_same(other.min.z)
        &&& self.max.x.spec_same(other.max.x)
        &&& self.max.y.spec_same(other.max.y)
        &&& self.max.z.spec_same(other.max.z)
    }

    /// Whether a ray with the given crossings passes through the box
    /// within `[tmin, tmax]`: the interval is cut down axis by axis and
    /// must stay non-empty after each cut.
    pub open spec fn spec_check_hit(
        x: Crossing,
        y: Crossing,
        z: Crossing,
        tmin: Scalar,
        tmax: Option<Scalar>,
    ) -> bool {
        let (l1, h1) = x.narrow(tmin, tmax);
        let (l2, h2) = y.narrow(l1, Some(h1));
        let (l3, h3) = z.narrow(l2, Some(h2));
        !h1.spec_le(l1) && !h2.spec_le(l2) && !h3.spec_le(l3)
    }

    /// The latest of `tmin` and the three entries, by key.
    pub open spec fn latest_entry(x: Crossing, y: Crossing, z: Crossing, tmin: Scalar) -> int {
        int_max(int_max(tmin.key(), x.near().key()), int_max(y.near().key(), z.near().key()))
    }

    /// The earliest of `tmax`, where there is one, and the three exits, by
    /// key.
    pub open spec fn earliest_exit(
        x: Crossing,
        y: Crossing,
        z: Crossing,
        tmax: Option<Scalar>,
    ) -> int {
        let exits = int_min(x.far().key(), int_min(y.far().key(), z.far().key()));
        match tmax {
            Some(end) => int_min(end.key(), exits),
            None => exits,
        }
    }

    /// One of the six numbers that bound the box, each taken so that a
    /// smaller value means a larger box: for `side` 0, 1, 2 the key of where
    /// the box begins along x, y, z, and for 3, 4, 5 the negated key of where
    /// it ends.
    pub open spec fn extent_key(self, side: int) -> int {
        if side == 0 {
            self.min.x.key()
        } else if side == 1 {
            self.min.y.key()
        } else if side == 2 {
            self.min.z.key()
        } else if side == 3 {
            -self.max.x.key()
        } else if side == 4 {
            -self.max.y.key()
        } else {
            -self.max.z.key()
        }
    }

    pub fn new(min: Pt3, max: Pt3) -> (r: AABB)
        ensures
            r == (AABB { min, max }),
    {
        AABB { min, max }
    }

    /// Tells whether the box is well formed.
    pub fn is_valid(&self) -> (r: bool)
        ensures
            r == self.wf(),
    {
        self.min.x.le(self.max.x) && self.min.y.le(self.max.y) && self.min.z.le(self.max.z)
    }

    /// The smallest box around two boxes.
    pub fn surrounding(a: AABB, b: AABB) -> (r: AABB)
        ensures
            r == AABB::spec_surrounding(a, b),
            a.wf() && b.wf() ==> r.wf() && a.within(r) && b.within(r),
    {
        let min = Vec3::new(
            fmin(a.min.x, b.min.x),
            fmin(a.min.y, b.min.y),
            fmin(a.min.z, b.min.z),
        );
        let max = Vec3::new(
            fmax(a.max.x, b.max.x),
            fmax(a.max.y, b.max.y),
            fmax(a.max.z, b.max.z),
        );
        AABB { min, max }
    }

    /// The corner of the box with the given number: the three bits of the
    /// number choose, from the highest to the lowest, between the least and
    /// the greatest coordinate along x, y and z.
    pub open spec fn spec_corner(self, n: int) -> Pt3 {
        Vec3 {
            x: if (n / 4) % 2 == 0 {
                self.min.x
            } else {
                self.max.x
            },
            y: if (n / 2) % 2 == 0 {
                self.min.y
            } else {
                self.max.y
            },
            z: if n % 2 == 0 {
                self.min.z
            } else {
                self.max.z
            },
        }
    }

    /// The eight corners of the box.
    pub fn corners(&self) -> (r: [Pt3; 8])
        ensures
            forall|n: int| 0 <= n < 8 ==> #[trigger] r[n] == self.spec_corner(n),
    {
        let (a, b) = (self.min, self.max);
        [
            Vec3 { x: a.x, y: a.y, z: a.z },
            Vec3 { x: a.x, y: a.y, z: b.z },
            Vec3 { x: a.x, y: b.y, z: a.z },
            Vec3 { x: a.x, y: b.y, z: b.z },
            Vec3 { x: b.x, y: a.y, z: a.z },
            Vec3 { x: b.x, y: a.y, z: b.z },
            Vec3 { x: b.x, y: b.y, z: a.z },
            Vec3 { x: b.x, y: b.y, z: b.z },
        ]
    }

    /// The box around some points, such as the corners of a box after a
    /// transformation or the corners of a triangle: along each axis the
    /// first least and the first greatest of the coordinates.  There is no
    /// box around no points.
    pub fn enclosing(points: &[Pt3]) -> (r: Option<AABB>)
        ensures
            r is Some <==> points@.len() > 0,
            r matches Some(found) ==> {
                let n = points@.len() as int;
                &&& found.min.x == running_least(along(points@, Axis::X), n)
                &&& found.min.y == running_least(along(points@, Axis::Y), n)
                &&& found.min.z == running_least(along(points@, Axis::Z), n)
                &&& found.max.x == running_greatest(along(points@, Axis::X), n)
                &&& found.max.y == running_greatest(along(points@, Axis::Y), n)
                &&& found.max.z == running_greatest(along(points@, Axis::Z), n)
            },
    {
        if points.len() == 0 {
            return None;
        }
        let mut min = points[0];
        let mut max = points[0];
        let mut i: usize = 1;
        while i < points.len()
            invariant
                1 <= i <= points@.len(),
                min.x == running_least(along(points@, Axis::X), i as int),
                min.y == running_least(along(points@, Axis::Y), i as int),
                min.z == running_least(along(points@, Axis::Z), i as int),
                max.x == running_greatest(along(points@, Axis::X), i as int),
                max.y == running_greatest(along(points@, Axis::Y), i as int),
                max.z == running_greatest(along(points@, Axis::Z), i as int),
            decreases points@.len() - i,
        {
            let c = points[i];
            if c.x.lt(min.x) {
                min.x = c.x;
            }
            if c.y.lt(min.y) {
                min.y = c.y;
            }
            if c.z.lt(min.z) {
                min.z = c.z;
            }
            if c.x.gt(max.x) {
                max.x = c.x;
            }
            if c.y.gt(max.y) {
                max.y = c.y;
            }
            if c.z.gt(max.z) {
                max.z = c.z;
            }
            i = i + 1;
        }
        Some(AABB { min, max })
    }

    /// The box around points that are numbers is well formed and holds
    /// every one of the points.
    pub proof fn lemma_enclosing(points: Seq<Pt3>, found: AABB)
        requires
            points.len() > 0,
            forall|i: int| 0 <= i < points.len() ==> !(#[trigger] points[i]).spec_has_nan(),
            found.min.x == running_least(along(points, Axis::X), points.len() as int),
            found.min.y == running_least(along(points, Axis::Y), points.len() as int),
            found.min.z == running_least(along(points, Axis::Z), points.len() as int),
            found.max.x == running_greatest(along(points, Axis::X), points.len() as int),
            found.max.y == running_greatest(along(points, Axis::Y), points.len() as int),
            found.max.z == running_greatest(along(points, Axis::Z), points.len() as int),
        ensures
            found.wf(),
            forall|i: int|
                0 <= i < points.len() ==> {
                    let p = #[trigger] points[i];
                    &&& found.min.x.spec_le(p.x) && p.x.spec_le(found.max.x)
                    &&& found.min.y.spec_le(p.y) && p.y.spec_le(found.max.y)
                    &&& found.min.z.spec_le(p.z) && p.z.spec_le(found.max.z)
                },
    {
        let n = points.len() as int;
        let xs = along(points, Axis::X);
        let ys = along(points, Axis::Y);
        let zs = along(points, Axis::Z);
        assert forall|i: int| 0 <= i < n implies !(#[trigger] xs[i]).nan() && !ys[i].nan()
            && !zs[i].nan() by {
            assert(!points[i].spec_has_nan());
        }
        lemma_running_least(xs, n);
        lemma_running_least(ys, n);
        lemma_running_least(zs, n);
        lemma_running_greatest(xs, n);
        lemma_running_greatest(ys, n);
        lemma_running_greatest(zs, n);
        assert forall|i: int| 0 <= i < points.len() implies {
            let p = #[trigger] points[i];
            &&& found.min.x.spec_le(p.x) && p.x.spec_le(found.max.x)
            &&& found.min.y.spec_le(p.y) && p.y.spec_le(found.max.y)
            &&& found.min.z.spec_le(p.z) && p.z.spec_le(found.max.z)
        } by {
            assert(xs[i] == points[i].x && ys[i] == points[i].y && zs[i] == points[i].z);
        }
        assert(xs[0] == points[0].x && ys[0] == points[0].y && zs[0] == points[0].z);
    }

    /// The slab test on the crossings of a ray with the three pairs of
    /// planes of a box.
    pub fn check_hit_by(
        x: Crossing,
        y: Crossing,
        z: Crossing,
        tmin: Scalar,
        tmax: Option<Scalar>,
    ) -> (r: bool)
        ensures
            r == AABB::spec_check_hit(x, y, z, tmin, tmax),
    {
        let (l1, h1) = x.narrowed(tmin, tmax);
        if h1.le(l1) {
            return false;
        }
        let (l2, h2) = y.narrowed(l1, Some(h1));
        if h2.le(l2) {
            return false;
        }
        let (l3, h3) = z.narrowed(l2, Some(h2));
        if h3.le(l3) {
            return false;
        }
        true
    }

    /// Where every input is a number, the slab test succeeds exactly when the
    /// latest entry comes strictly before the earliest exit, that is when
    /// some parameter lies after `tmin` and every entry and before `tmax`
    /// and every exit.
    pub proof fn lemma_check_hit_is_overlap(
        x: Crossing,
        y: Crossing,
        z: Crossing,
        tmin: Scalar,
        tmax: Option<Scalar>,
    )
        requires
            x.numeric(),
            y.numeric(),
            z.numeric(),
            !tmin.nan(),
            tmax matches Some(end) ==> !end.nan(),
        ensures
            AABB::spec_check_hit(x, y, z, tmin, tmax) == (AABB::latest_entry(x, y, z, tmin)
                < AABB::earliest_exit(x, y, z, tmax)),
    {
    }

    /// A ray that passes through a box passes through every box around it,
    /// and through it within every wider interval.  Stated of the crossings,
    /// all of them numbers: where each slab of the second box is entered no
    /// later and left no earlier than that of the first, and the interval
    /// begins no later and ends no earlier, a test that succeeds on the first
    /// succeeds on the second.
    pub proof fn lemma_check_hit_monotone(
        x: Crossing,
        y: Crossing,
        z: Crossing,
        tmin: Scalar,
        tmax: Option<Scalar>,
        wide_x: Crossing,
        wide_y: Crossing,
        wide_z: Crossing,
        wide_tmin: Scalar,
        wide_tmax: Option<Scalar>,
    )
        requires
            x.numeric() && y.numeric() && z.numeric(),
            wide_x.numeric() && wide_y.numeric() && wide_z.numeric(),
            !tmin.nan() && !wide_tmin.nan(),
            tmax matches Some(end) ==> !end.nan(),
            wide_tmax matches Some(end) ==> !end.nan() && tmax is Some && tmax->0.key()
                <= end.key(),
            wide_tmin.key() <= tmin.key(),
            wide_x.near().key() <= x.near().key() && x.far().key() <= wide_x.far().key(),
            wide_y.near().key() <= y.near().key() && y.far().key() <= wide_y.far().key(),
            wide_z.near().key() <= z.near().key() && z.far().key() <= wide_z.far().key(),
            AABB::spec_check_hit(x, y, z, tmin, tmax),
        ensures
            AABB::spec_check_hit(wide_x, wide_y, wide_z, wide_tmin, wide_tmax),
    {
        AABB::lemma_check_hit_is_overlap(x, y, z, tmin, tmax);
        AABB::lemma_check_hit_is_overlap(wide_x, wide_y, wide_z, wide_tmin, wide_tmax);
    }

    /// Each bound of the box around two well-formed boxes is the wider of
    /// their two bounds.
    pub proof fn lemma_surrounding_extent(a: AABB, b: AABB)
        requires
            a.wf(),
            b.wf(),
        ensures
            forall|side: int|
                0 <= side < 6 ==> #[trigger] AABB::spec_surrounding(a, b).extent_key(side)
                    == int_min(a.extent_key(side), b.extent_key(side)),
    {
    }

    /// Two well-formed boxes with the same six bounds have the same extent.
    pub proof fn lemma_same_extent(a: AABB, b: AABB)
        requires
            a.wf(),
            b.wf(),
            forall|side: int| 0 <= side < 6 ==> a.extent_key(side) == b.extent_key(side),
        ensures
            a.same_extent(b),
    {
        assert(a.extent_key(0) == b.extent_key(0));
        assert(a.extent_key(1) == b.extent_key(1));
        assert(a.extent_key(2) == b.extent_key(2));
        assert(a.extent_key(3) == b.extent_key(3));
        assert(a.extent_key(4) == b.extent_key(4));
        assert(a.extent_key(5) == b.extent_key(5));
    }

    /// Two well-formed boxes lie within the box around them, which is well
    /// formed, and whose corners do not depend on the order of the two.
    pub proof fn lemma_surrounding(a: AABB, b: AABB)
        requires
            a.wf(),
            b.wf(),
        ensures
            AABB::spec_surrounding(a, b).wf(),
            a.within(AABB::spec_surrounding(a, b)),
            b.within(AABB::spec_surrounding(a, b)),
            AABB::spec_surrounding(a, b).same_extent(AABB::spec_surrounding(b, a)),
    {
    }
}

} // verus!
