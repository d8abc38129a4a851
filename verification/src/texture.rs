//! Textures: the colour of a surface at its parameters `(u, v)`.

use std::sync::Arc;
use vstd::prelude::*;
use crate::scalar::Scalar;
use crate::vec3::Vec3;

verus! {

/// Something that gives a colour for the parameters of a point of a
/// surface.  `color` names what `value` returns.
pub trait Texture {
    spec fn color(&self, u: Scalar, v: Scalar) -> Vec3;

    fn value(&self, u: Scalar, v: Scalar) -> (r: Vec3)
        ensures
            r == self.color(u, v),
    ;
}

impl<T: Texture + ?Sized> Texture for Arc<T> {
    open spec fn color(&self, u: Scalar, v: Scalar) -> Vec3 {
        (**self).color(u, v)
    }

    fn value(&self, u: Scalar, v: Scalar) -> (r: Vec3) {
        (**self).value(u, v)
    }
}

/// One colour everywhere.
#[derive(Clone, Copy, Debug, PartialEq, Eq, Structural)]
pub struct SolidTexture {
    pub color: Vec3,
}

impl SolidTexture {
    pub fn new(color: Vec3) -> (r: SolidTexture)
        ensures
            r.color == color,
    {
        SolidTexture { color }
    }
}

impl Texture for SolidTexture {
    open spec fn color(&self, u: Scalar, v: Scalar) -> Vec3 {
        self.color
    }

    fn value(&self, u: Scalar, v: Scalar) -> (r: Vec3) {
        self.color
    }
}

/// Two textures in the pattern of a chessboard with `coeff` fields per
/// unit.
pub struct CheckerTexture<E, O> {
    pub coeff: Scalar,
    pub even: E,
    pub odd: O,
}

impl<E: Texture, O: Texture> CheckerTexture<E, O> {
    pub fn new(even: E, odd: O, coeff: Scalar) -> (r: CheckerTexture<E, O>)
        ensures
            r.even == even,
            r.odd == odd,
            r.coeff == coeff,
    {
        CheckerTexture { even, odd, coeff }
    }

    /// The colour at `(u, v)`, given the number whose sign tells the fields
    /// apart, the product of the sines of `coeff * u` and `coeff * v`: the
    /// odd texture where it is negative, the even one elsewhere.
    pub fn value_of_field(&self, product: Scalar, u: Scalar, v: Scalar) -> (r: Vec3)
        ensures
            r == (if product.spec_lt(Scalar::spec_zero()) {
                self.odd.color(u, v)
            } else {
                self.even.color(u, v)
            }),
    {
        if product.lt(Scalar::zero()) {
            self.odd.value(u, v)
        } else {
            self.even.value(u, v)
        }
    }
}

/// Why pixel data could not be made into a texture.
#[derive(Clone, Copy, Debug, PartialEq, Eq, Structural)]
pub enum TextureError {
    /// The pixel data does not have three bytes for each pixel.
    Dimensions,
}

/// A picture with three bytes, red, green and blue, for each pixel, row by
/// row from the top.
#[derive(Debug)]
pub struct ImageTexture {
    pub buffer: Vec<u8>,
    pub width: u32,
    pub height: u32,
}

impl ImageTexture {
    /// The buffer holds three bytes for each pixel.
    pub open spec fn wf(&self) -> bool {
        self.buffer@.len() == 3 * self.width * self.height
    }

    /// Where the three bytes of the pixel in column `x` of row `y` begin.
    pub open spec fn offset(&self, x: u32, y: u32) -> int {
        3 * (y * self.width + x)
    }

    /// The texture over a decoded picture of `width` by `height` pixels,
    /// whose bytes are `buffer`: red, green and blue for each pixel, row by
    /// row from the top.
    ///
    /// Succeeds exactly when `buffer` holds three bytes for each of the
    /// `width * height` pixels, and then holds what it was given.
    pub fn open(width: u32, height: u32, buffer: Vec<u8>) -> (r: Result<ImageTexture, TextureError>)
        ensures
            r is Ok <==> buffer@.len() == 3 * width * height,
            r matches Ok(texture) ==> texture.wf() && texture.buffer@ == buffer@ && texture.width
                == width && texture.height == height,
            r matches Err(e) ==> e == TextureError::Dimensions,
    {
        assert(width * height <= 0xffff_ffff * 0xffff_ffff) by (nonlinear_arith)
            requires
                width <= 0xffff_ffff,
                height <= 0xffff_ffff,
        ;
        let pixels: u64 = (width as u64) * (height as u64);
        assert(3 * width * height == 3 * (width * height)) by (nonlinear_arith);
        let expected: u128 = 3 * (pixels as u128);
        if buffer.len() as u128 == expected {
            Ok(ImageTexture { buffer, width, height })
        } else {
            Err(TextureError::Dimensions)
        }
    }

    /// The red, green and blue of the pixel in column `x` of row `y`.
    pub fn get_pixel(&self, x: u32, y: u32) -> (r: [u8; 3])
        requires
            self.wf(),
            x < self.width,
            y < self.height,
        ensures
            r[0] == self.buffer@[self.offset(x, y)],
            r[1] == self.buffer@[self.offset(x, y) + 1],
            r[2] == self.buffer@[self.offset(x, y) + 2],
    {
        let width = self.width as u64;
        assert(y * self.width + x < self.width * self.height) by (nonlinear_arith)
            requires
                x < self.width,
                y < self.height,
        ;
        assert(self.width * self.height <= 0xffff_ffff * 0xffff_ffff) by (nonlinear_arith)
            requires
                self.width <= 0xffff_ffff,
                self.height <= 0xffff_ffff,
        ;
        assert(y * self.width <= 0xffff_ffff * 0xffff_ffff) by (nonlinear_arith)
            requires
                y <= 0xffff_ffff,
                self.width <= 0xffff_ffff,
        ;
        let pixel: u64 = (y as u64) * width + (x as u64);
        assert(3 * self.width * self.height == 3 * (self.width * self.height))
            by (nonlinear_arith);
        assert(3 * pixel + 2 < self.buffer@.len());
        assert(self.buffer@.len() <= usize::MAX) by {
            assert(self.buffer.len() == self.buffer@.len());
        }
        let start: usize = (3 * pixel) as usize;
        [self.buffer[start], self.buffer[start + 1], self.buffer[start + 2]]
    }
}

} // verus!
