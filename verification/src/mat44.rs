//! Four-by-four matrices of affine transformations: what of them needs no
//! arithmetic.
//!
//! The matrices that are built from zeros, ones and given numbers are
//! built here, and so are the choices of an inversion by elimination:
//! which column becomes the pivot, the exchange of two columns, and
//! whether a pivot is too small to divide by.

use vstd::prelude::*;
use crate::scalar::Scalar;
use crate::vec3::Vec3;

verus! {

/// A matrix, row by row.
#[derive(Clone, Copy, Debug, PartialEq)]
pub struct Mat44 {
    pub inner: [[Scalar; 4]; 4],
}

/// Below this magnitude a pivot counts as zero, 1e-6.
pub open spec fn spec_pivot_threshold() -> Scalar {
    Scalar { bits: 0x3eb0_c6f7_a0b5_ed8d }
}

/// The column among `from..n` that holds the entry of the largest
/// magnitude, the first of them: the fold that moves on to each later
/// entry whose magnitude is greater than that of the one held.
pub open spec fn pivot_of(row: Seq<Scalar>, from: int, n: int) -> int
    decreases n - from,
{
    if n <= from + 1 {
        from
    } else {
        let held = pivot_of(row, from, n - 1);
        if row[held].spec_abs().spec_lt(row[n - 1].spec_abs()) {
            n - 1
        } else {
            held
        }
    }
}

/// Among numbers, the pivot is the first entry of the largest magnitude.
pub proof fn lemma_pivot_is_largest(row: Seq<Scalar>, from: int, n: int)
    requires
        0 <= from < n <= row.len(),
        forall|j: int| from <= j < n ==> !(#[trigger] row[j]).nan(),
    ensures
        from <= pivot_of(row, from, n) < n,
        forall|j: int|
            from <= j < n ==> (#[trigger] row[j]).magnitude() <= row[pivot_of(
                row,
                from,
                n,
            )].magnitude(),
        forall|j: int|
            from <= j < pivot_of(row, from, n) ==> (#[trigger] row[j]).magnitude() < row[pivot_of(
                row,
                from,
                n,
            )].magnitude(),
    decreases n - from,
{
    if n > from + 1 {
        lemma_pivot_is_largest(row, from, n - 1);
        let held = pivot_of(row, from, n - 1);
        row[held].lemma_abs();
        row[n - 1].lemma_abs();
        assert forall|j: int| from <= j < n implies (#[trigger] row[j]).magnitude() <= row[pivot_of(
            row,
            from,
            n,
        )].magnitude() by {
            row[j].lemma_abs();
        }
    }
}

impl Mat44 {
    /// The entry in row `i` and column `j`.
    pub open spec fn entry(self, i: int, j: int) -> Scalar {
        self.inner[i][j]
    }

    /// Row `i`.
    pub open spec fn row(self, i: int) -> Seq<Scalar> {
        self.inner[i]@
    }

    /// The matrix that changes nothing.
    pub fn identity() -> (r: Mat44)
        ensures
            forall|i: int, j: int|
                0 <= i < 4 && 0 <= j < 4 ==> #[trigger] r.entry(i, j) == (if i == j {
                    Scalar::spec_one()
                } else {
                    Scalar::spec_zero()
                }),
    {
        let o = Scalar::zero();
        let l = Scalar::one();
        Mat44 { inner: [[l, o, o, o], [o, l, o, o], [o, o, l, o], [o, o, o, l]] }
    }

    /// The matrix that moves every point by `by`.
    pub fn translation(by: Vec3) -> (r: Mat44)
        ensures
            forall|i: int, j: int|
                0 <= i < 4 && 0 <= j < 3 ==> #[trigger] r.entry(i, j) == (if i == j {
                    Scalar::spec_one()
                } else {
                    Scalar::spec_zero()
                }),
            r.entry(0, 3) == by.x,
            r.entry(1, 3) == by.y,
            r.entry(2, 3) == by.z,
            r.entry(3, 3) == Scalar::spec_one(),
    {
        let o = Scalar::zero();
        let l = Scalar::one();
        Mat44 { inner: [[l, o, o, by.x], [o, l, o, by.y], [o, o, l, by.z], [o, o, o, l]] }
    }

    /// The column that an elimination takes as pivot for row `i`: among the
    /// columns from `i` on, the first whose entry in row `i` has the
    /// largest magnitude.
    pub fn pivot_column(&self, i: usize) -> (r: usize)
        requires
            i < 4,
        ensures
            r == pivot_of(self.row(i as int), i as int, 4),
            i <= r < 4,
    {
        let row = self.inner[i];
        let mut ind = i;
        let mut j = i + 1;
        while j < 4
            invariant
                i < 4,
                i < j <= 4,
                i <= ind < j,
                row@ == self.row(i as int),
                ind == pivot_of(row@, i as int, j as int),
            decreases 4 - j,
        {
            if row[j].abs().gt(row[ind].abs()) {
                ind = j;
            }
            j = j + 1;
        }
        ind
    }

    /// Exchanges two columns.
    pub fn swap_columns(&mut self, a: usize, b: usize)
        requires
            a < 4,
            b < 4,
        ensures
            forall|i: int, j: int|
                0 <= i < 4 && 0 <= j < 4 ==> #[trigger] final(self).entry(i, j) == (if j == a {
                    old(self).entry(i, b as int)
                } else if j == b {
                    old(self).entry(i, a as int)
                } else {
                    old(self).entry(i, j)
                }),
    {
        let mut i: usize = 0;
        while i < 4
            invariant
                a < 4,
                b < 4,
                0 <= i <= 4,
                forall|k: int, j: int|
                    0 <= k < i && 0 <= j < 4 ==> #[trigger] self.entry(k, j) == (if j == a {
                        old(self).entry(k, b as int)
                    } else if j == b {
                        old(self).entry(k, a as int)
                    } else {
                        old(self).entry(k, j)
                    }),
                forall|k: int, j: int|
                    i <= k < 4 && 0 <= j < 4 ==> #[trigger] self.entry(k, j) == old(self).entry(
                        k,
                        j,
                    ),
            decreases 4 - i,
        {
            let ghost before = *self;
            let mut row = self.inner[i];
            let ghost given = row;
            let first = row[a];
            let second = row[b];
            row[a] = second;
            row[b] = first;
            self.inner[i] = row;
            proof {
                assert forall|j: int| 0 <= j < 4 implies #[trigger] given@[j] == old(self).entry(
                    i as int,
                    j,
                ) by {
                    assert(before.entry(i as int, j) == old(self).entry(i as int, j));
                }
                assert forall|j: int| 0 <= j < 4 implies #[trigger] row@[j] == (if j == a {
                    given@[b as int]
                } else if j == b {
                    given@[a as int]
                } else {
                    given@[j]
                }) by {}
                assert forall|k: int, j: int| 0 <= k < 4 && 0 <= j < 4 implies #[trigger] self.entry(
                    k,
                    j,
                ) == (if k == i {
                    row@[j]
                } else {
                    before.entry(k, j)
                }) by {
                    if k == i {
                        assert(self.inner@[k] == row);
                    } else {
                        assert(self.inner@[k] == before.inner@[k]);
                    }
                }
                assert forall|k: int, j: int| 0 <= k < i + 1 && 0 <= j < 4 implies #[trigger] self.entry(
                    k,
                    j,
                ) == (if j == a {
                    old(self).entry(k, b as int)
                } else if j == b {
                    old(self).entry(k, a as int)
                } else {
                    old(self).entry(k, j)
                }) by {
                    if k == i {
                        assert(self.entry(k, j) == row@[j]);
                        assert(given@[a as int] == old(self).entry(i as int, a as int));
                        assert(given@[b as int] == old(self).entry(i as int, b as int));
                        assert(given@[j] == old(self).entry(i as int, j));
                    } else {
                        assert(self.entry(k, j) == before.entry(k, j));
                    }
                }
            }
            i = i + 1;
        }
    }

    /// Whether a pivot can be divided by: it is a number whose magnitude
    /// is at least the threshold.  The matrix has no inverse where it is
    /// not.
    pub fn pivot_is_usable(pivot: Scalar) -> (r: bool)
        ensures
            r == spec_pivot_threshold().spec_le(pivot.spec_abs()),
    {
        Scalar { bits: 0x3eb0_c6f7_a0b5_ed8d }.le(pivot.abs())
    }
}

} // verus!
