//! The samples of a picture as they come in.
//!
//! For each pixel the buffer holds the sum of the samples taken so far and
//! their number.  Samples arrive in any order.  A sample with a NaN among
//! its components is dropped, so that it cannot spoil the average.

use vstd::prelude::*;
use crate::scalar::Scalar;
use crate::vec3::Vec3;

verus! {

/// The running sums and counts of the pixels of a picture, row by row.
#[derive(Debug, Clone)]
pub struct PixelData {
    pub width: usize,
    pub height: usize,
    pub buffer: Vec<(Vec3, usize)>,
}

impl PixelData {
    /// The buffer holds one entry for each pixel.
    pub open spec fn wf(&self) -> bool {
        self.buffer@.len() == self.width * self.height
    }

    /// Where the entry of the pixel in column `x` of row `y` stands.
    pub open spec fn slot(&self, x: usize, y: usize) -> int {
        y * self.width + x
    }

    /// An empty buffer for a picture of the given size.
    pub fn new(width: usize, height: usize) -> (r: PixelData)
        requires
            width * height <= usize::MAX,
        ensures
            r.wf(),
            r.width == width,
            r.height == height,
            forall|i: int|
                0 <= i < r.buffer@.len() ==> #[trigger] r.buffer@[i] == ((
                    Vec3 {
                        x: Scalar::spec_zero(),
                        y: Scalar::spec_zero(),
                        z: Scalar::spec_zero(),
                    },
                    0usize,
                )),
    {
        let total = width * height;
        let mut buffer: Vec<(Vec3, usize)> = Vec::with_capacity(total);
        let mut i: usize = 0;
        while i < total
            invariant
                0 <= i <= total,
                buffer@.len() == i,
                forall|k: int|
                    0 <= k < i ==> #[trigger] buffer@[k] == ((
                        Vec3 {
                            x: Scalar::spec_zero(),
                            y: Scalar::spec_zero(),
                            z: Scalar::spec_zero(),
                        },
                        0usize,
                    )),
            decreases total - i,
        {
            buffer.push((Vec3::zero(), 0usize));
            i = i + 1;
        }
        PixelData { width, height, buffer }
    }

    /// The sum and the number of the samples of a pixel.
    pub fn sample(&self, x: usize, y: usize) -> (r: (Vec3, usize))
        requires
            self.wf(),
            x < self.width,
            y < self.height,
        ensures
            r == self.buffer@[self.slot(x, y)],
    {
        let len = self.buffer.len();
        proof {
            self.lemma_slot(x, y);
        }
        self.buffer[y * self.width + x]
    }

    /// The slot of a pixel of the picture lies in the buffer.
    pub proof fn lemma_slot(&self, x: usize, y: usize)
        requires
            self.wf(),
            x < self.width,
            y < self.height,
        ensures
            0 <= self.slot(x, y) < self.buffer@.len(),
            y * self.width <= self.slot(x, y),
    {
        assert(y * self.width + x < self.width * self.height) by (nonlinear_arith)
            requires
                x < self.width,
                y < self.height,
        ;
        assert(0 <= y * self.width) by (nonlinear_arith);
    }

    /// Takes in one sample of the pixel in column `x` of row `y`.
    ///
    /// A sample with a NaN among its components changes nothing.  Any
    /// other sample raises the pixel's count by one, and the pixel's sum
    /// becomes what `accumulate` makes of the sum so far and the sample.
    pub fn append_pixel<F: Fn(Vec3, Vec3) -> Vec3>(
        &mut self,
        x: usize,
        y: usize,
        color: Vec3,
        accumulate: &F,
    )
        requires
            old(self).wf(),
            x < old(self).width,
            y < old(self).height,
            !color.spec_has_nan() ==> old(self).buffer@[old(self).slot(x, y)].1 < usize::MAX,
            forall|a: Vec3, b: Vec3| #[trigger] accumulate.requires((a, b)),
        ensures
            final(self).wf(),
            final(self).width == old(self).width,
            final(self).height == old(self).height,
            color.spec_has_nan() ==> final(self).buffer@ == old(self).buffer@,
            !color.spec_has_nan() ==> {
                let slot = old(self).slot(x, y);
                let before = old(self).buffer@[slot];
                let after = final(self).buffer@[slot];
                &&& final(self).buffer@ == old(self).buffer@.update(slot, after)
                &&& after.1 == before.1 + 1
                &&& accumulate.ensures((before.0, color), after.0)
            },
    {
        if color.has_nan() {
            return ;
        }
        let len = self.buffer.len();
        proof {
            self.lemma_slot(x, y);
        }
        let slot = y * self.width + x;
        let (current_color, count) = self.buffer[slot];
        let next_color = accumulate(current_color, color);
        self.buffer.set(slot, (next_color, count + 1));
    }
}

} // verus!
