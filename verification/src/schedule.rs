//! The units of work of a render and their division into batches.
//!
//! A render takes `sample_count` samples of each pixel of an image of
//! `nx` columns and `ny` rows.  A unit of work is one sample of one pixel.
//! The units are numbered sample by sample, within a sample row by row, and
//! within a row column by column, and are handed out in batches of a fixed
//! size.

use vstd::prelude::*;
use vstd::arithmetic::div_mod::{
    lemma_fundamental_div_mod,
    lemma_fundamental_div_mod_converse,
    lemma_mod_bound,
};
use vstd::arithmetic::mul::lemma_mul_inequality;

verus! {

/// The number of units in a batch.
pub const THREAD_CHUNK_SIZE: usize = 20000;

/// One sample of one pixel.
#[derive(Clone, Copy, Debug, PartialEq, Eq, Structural)]
pub struct WorkUnit {
    pub sample: usize,
    pub y: usize,
    pub x: usize,
}

/// The number of the unit `(sample, y, x)`.
pub open spec fn unit_index(sample: int, y: int, x: int, ny: int, nx: int) -> int {
    (sample * ny + y) * nx + x
}

/// The sample of the unit with the given number.
pub open spec fn unit_sample(index: int, ny: int, nx: int) -> int {
    (index / nx) / ny
}

/// The row of the unit with the given number.
pub open spec fn unit_y(index: int, ny: int, nx: int) -> int {
    (index / nx) % ny
}

/// The column of the unit with the given number.
pub open spec fn unit_x(index: int, ny: int, nx: int) -> int {
    index % nx
}

/// The number of batches that `total` units make.
pub open spec fn spec_chunk_count(total: int) -> int {
    if total % (THREAD_CHUNK_SIZE as int) == 0 {
        total / (THREAD_CHUNK_SIZE as int)
    } else {
        total / (THREAD_CHUNK_SIZE as int) + 1
    }
}

/// The number of units in batch `k` of `total` units: a full batch, but
/// for the last, which holds what is left.
pub open spec fn spec_chunk_len(k: int, total: int) -> int {
    if total - k * THREAD_CHUNK_SIZE >= THREAD_CHUNK_SIZE {
        THREAD_CHUNK_SIZE as int
    } else if total - k * THREAD_CHUNK_SIZE >= 0 {
        total - k * THREAD_CHUNK_SIZE
    } else {
        0
    }
}

/// The number of the unit at place `j` of batch `k`.
pub open spec fn chunk_position(k: int, j: int) -> int {
    k * THREAD_CHUNK_SIZE + j
}

/// Every unit has a number, and the number gives the unit back.
pub proof fn lemma_unit_of_index(sample: int, y: int, x: int, ny: int, nx: int)
    requires
        0 <= sample,
        0 <= y < ny,
        0 <= x < nx,
    ensures
        unit_sample(unit_index(sample, y, x, ny, nx), ny, nx) == sample,
        unit_y(unit_index(sample, y, x, ny, nx), ny, nx) == y,
        unit_x(unit_index(sample, y, x, ny, nx), ny, nx) == x,
{
    let row = sample * ny + y;
    let index = row * nx + x;
    lemma_fundamental_div_mod_converse(index, nx, row, x);
    lemma_fundamental_div_mod_converse(row, ny, sample, y);
}

/// Every number stands for a unit of the image, and is the number of that
/// unit.  The unit belongs to one of the first `sample_count` samples
/// exactly when its number is below the number of units.
pub proof fn lemma_index_of_unit(index: int, sample_count: int, ny: int, nx: int)
    requires
        0 <= index,
        0 < ny,
        0 < nx,
        0 <= sample_count,
    ensures
        0 <= unit_sample(index, ny, nx),
        0 <= unit_y(index, ny, nx) < ny,
        0 <= unit_x(index, ny, nx) < nx,
        unit_index(
            unit_sample(index, ny, nx),
            unit_y(index, ny, nx),
            unit_x(index, ny, nx),
            ny,
            nx,
        ) == index,
        unit_sample(index, ny, nx) < sample_count <==> index < sample_count * ny * nx,
{
    let row = index / nx;
    let x = index % nx;
    let sample = row / ny;
    let y = row % ny;
    lemma_fundamental_div_mod(index, nx);
    lemma_fundamental_div_mod(row, ny);
    lemma_mod_bound(index, nx);
    lemma_mod_bound(row, ny);
    assert(0 <= row) by (nonlinear_arith)
        requires
            index == nx * row + x,
            0 <= x < nx,
            0 <= index,
            0 < nx,
    ;
    assert(0 <= sample) by (nonlinear_arith)
        requires
            row == ny * sample + y,
            0 <= y < ny,
            0 <= row,
            0 < ny,
    ;
    assert((sample * ny + y) * nx + x == index) by (nonlinear_arith)
        requires
            index == nx * row + x,
            row == ny * sample + y,
    ;
    if sample < sample_count {
        assert(index < sample_count * ny * nx) by (nonlinear_arith)
            requires
                index == (sample * ny + y) * nx + x,
                0 <= y < ny,
                0 <= x < nx,
                sample + 1 <= sample_count,
        ;
    } else {
        assert(index >= sample_count * ny * nx) by (nonlinear_arith)
            requires
                index == (sample * ny + y) * nx + x,
                0 <= y,
                0 <= x,
                0 < nx,
                0 < ny,
                sample >= sample_count,
        ;
    }
}

/// The batches divide the units: every unit lies in exactly one batch, at
/// one place in it.
pub proof fn lemma_chunks_cover(index: int, total: int)
    requires
        0 <= index < total,
    ensures
        0 <= index / (THREAD_CHUNK_SIZE as int) < spec_chunk_count(total),
        0 <= index % (THREAD_CHUNK_SIZE as int) < spec_chunk_len(
            index / (THREAD_CHUNK_SIZE as int),
            total,
        ),
        chunk_position(
            index / (THREAD_CHUNK_SIZE as int),
            index % (THREAD_CHUNK_SIZE as int),
        ) == index,
        forall|k: int, j: int|
            0 <= j < THREAD_CHUNK_SIZE && #[trigger] chunk_position(k, j) == index ==> k == index
                / (THREAD_CHUNK_SIZE as int) && j == index % (THREAD_CHUNK_SIZE as int),
{
    let c = THREAD_CHUNK_SIZE as int;
    lemma_fundamental_div_mod(index, c);
    lemma_fundamental_div_mod(total, c);
    lemma_mod_bound(index, c);
    lemma_mod_bound(total, c);
    let k = index / c;
    let q = total / c;
    assert(k * c == c * k) by (nonlinear_arith);
    assert(0 <= k) by (nonlinear_arith)
        requires
            index == c * k + index % c,
            0 <= index % c < c,
            0 <= index,
            0 < c,
    ;
    assert(k <= q) by (nonlinear_arith)
        requires
            index == c * k + index % c,
            total == c * q + total % c,
            0 <= index % c < c,
            0 <= total % c < c,
            index < total,
            0 < c,
    ;
    if k == q {
        assert(total % c != 0);
    }
    assert forall|k2: int, j: int| 0 <= j < c && #[trigger] chunk_position(k2, j)
        == index implies k2 == index / c && j == index % c by {
        lemma_fundamental_div_mod_converse(index, c, k2, j);
    }
}

/// The number of units of a render, where it can be counted.
pub fn unit_count(sample_count: usize, ny: usize, nx: usize) -> (r: Option<usize>)
    ensures
        r is Some <==> sample_count * ny * nx <= usize::MAX,
        r matches Some(total) ==> total == sample_count * ny * nx,
{
    match ny.checked_mul(nx) {
        Some(pixels) => {
            assert(sample_count * ny * nx == sample_count * (ny * nx)) by (nonlinear_arith);
            match sample_count.checked_mul(pixels) {
                Some(total) => Some(total),
                None => None,
            }
        },
        None => {
            if sample_count == 0 {
                assert(sample_count * ny * nx == 0) by (nonlinear_arith)
                    requires
                        sample_count == 0,
                ;
                Some(0)
            } else {
                assert(sample_count * ny * nx >= ny * nx) by (nonlinear_arith)
                    requires
                        sample_count >= 1,
                        0 <= ny * nx,
                ;
                None
            }
        },
    }
}

/// The unit with the given number, in an image of `ny` rows and `nx`
/// columns.
pub fn work_unit(index: usize, ny: usize, nx: usize) -> (r: WorkUnit)
    requires
        0 < ny,
        0 < nx,
    ensures
        r.sample == unit_sample(index as int, ny as int, nx as int),
        r.y == unit_y(index as int, ny as int, nx as int),
        r.x == unit_x(index as int, ny as int, nx as int),
{
    let row = index / nx;
    WorkUnit { sample: row / ny, y: row % ny, x: index % nx }
}

/// The number of batches that `total` units make.
pub fn chunk_count(total: usize) -> (r: usize)
    ensures
        r == spec_chunk_count(total as int),
{
    if total % THREAD_CHUNK_SIZE == 0 {
        total / THREAD_CHUNK_SIZE
    } else {
        total / THREAD_CHUNK_SIZE + 1
    }
}

/// The units of batch `k`, in order.
pub fn chunk(k: usize, total: usize, ny: usize, nx: usize) -> (r: Vec<WorkUnit>)
    requires
        0 < ny,
        0 < nx,
        k < spec_chunk_count(total as int),
    ensures
        r@.len() == spec_chunk_len(k as int, total as int),
        forall|j: int|
            0 <= j < r@.len() ==> {
                let index = chunk_position(k as int, j);
                &&& index < total
                &&& (#[trigger] r@[j]).sample == unit_sample(index, ny as int, nx as int)
                &&& r@[j].y == unit_y(index, ny as int, nx as int)
                &&& r@[j].x == unit_x(index, ny as int, nx as int)
            },
{
    proof {
        lemma_fundamental_div_mod(total as int, THREAD_CHUNK_SIZE as int);
        lemma_mod_bound(total as int, THREAD_CHUNK_SIZE as int);
        lemma_mul_inequality(
            k as int,
            (total / THREAD_CHUNK_SIZE) as int,
            THREAD_CHUNK_SIZE as int,
        );
        assert(k * THREAD_CHUNK_SIZE < total) by (nonlinear_arith)
            requires
                total == THREAD_CHUNK_SIZE * (total / THREAD_CHUNK_SIZE) + total
                    % THREAD_CHUNK_SIZE,
                0 <= (total % THREAD_CHUNK_SIZE) as int,
                k < spec_chunk_count(total as int),
                spec_chunk_count(total as int) == (if total % THREAD_CHUNK_SIZE == 0 {
                    (total / THREAD_CHUNK_SIZE) as int
                } else {
                    total / THREAD_CHUNK_SIZE + 1
                }),
                THREAD_CHUNK_SIZE == 20000,
        ;
    }
    let start = k * THREAD_CHUNK_SIZE;
    let len = if total - start >= THREAD_CHUNK_SIZE {
        THREAD_CHUNK_SIZE
    } else {
        total - start
    };
    let mut units: Vec<WorkUnit> = Vec::new();
    let mut j: usize = 0;
    while j < len
        invariant
            0 < ny,
            0 < nx,
            start == k * THREAD_CHUNK_SIZE,
            start + len <= total,
            0 <= j <= len,
            units@.len() == j,
            forall|i: int|
                0 <= i < j ==> {
                    &&& (#[trigger] units@[i]).sample == unit_sample(
                        start + i,
                        ny as int,
                        nx as int,
                    )
                    &&& units@[i].y == unit_y(start + i, ny as int, nx as int)
                    &&& units@[i].x == unit_x(start + i, ny as int, nx as int)
                },
        decreases len - j,
    {
        units.push(work_unit(start + j, ny, nx));
        j = j + 1;
    }
    units
}

/// The row of the picture, counted from the bottom, that row `y` counted
/// from the top is.
pub fn flipped_row(y: usize, ny: usize) -> (r: usize)
    requires
        y < ny,
    ensures
        r == ny - y - 1,
{
    ny - y - 1
}

} // verus!
