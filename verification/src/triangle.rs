//! Triangles, with a normal for the whole face or one for each corner.

use vstd::prelude::*;
use crate::scalar::{epsilon, is_in_range, spec_epsilon, spec_is_in_range, Scalar};
use crate::vec3::{Pt3, Vec3};

verus! {

/// A place in a texture.
pub type TexCoords = [Scalar; 2];

/// What a triangle is built from: its corners and material, and, if given,
/// a normal and a place in the texture for each corner.
pub struct TriangleBuilder {
    pub points: [Pt3; 3],
    pub normals: Option<[Vec3; 3]>,
    pub texcoords: Option<[TexCoords; 3]>,
    pub material: usize,
}

/// The normal of a triangle: one for the whole face, or one for each corner,
/// to be blended by the barycentric coordinates of a point.
#[derive(Clone, Copy, Debug, PartialEq, Eq, Structural)]
pub enum TriangleNormal {
    Uniform(Vec3),
    Barycentric(Vec3, Vec3, Vec3),
}

/// The texture coordinates of a triangle: the barycentric coordinates of a
/// point themselves, or a place in the texture for each corner, to be
/// blended.
#[derive(Clone, Copy, Debug, PartialEq)]
pub enum TriangleTexCoords {
    NoTexture,
    Barycentric(TexCoords, TexCoords, TexCoords),
}

#[derive(Clone, Copy, Debug)]
pub struct Triangle {
    pub v0: Pt3,
    pub v1: Pt3,
    pub v2: Pt3,
    pub normal: TriangleNormal,
    pub texcoords: TriangleTexCoords,
    pub material: usize,
}

impl TriangleBuilder {
    pub fn new(points: [Pt3; 3], material: usize) -> (r: TriangleBuilder)
        ensures
            r.points == points,
            r.normals is None,
            r.texcoords is None,
            r.material == material,
    {
        TriangleBuilder { points, normals: None, texcoords: None, material }
    }

    pub fn with_normals(self, normals: [Vec3; 3]) -> (r: TriangleBuilder)
        ensures
            r.points == self.points,
            r.normals == Some(normals),
            r.texcoords == self.texcoords,
            r.material == self.material,
    {
        TriangleBuilder {
            points: self.points,
            normals: Some(normals),
            texcoords: self.texcoords,
            material: self.material,
        }
    }

    pub fn with_texcoords(self, texcoords: [TexCoords; 3]) -> (r: TriangleBuilder)
        ensures
            r.points == self.points,
            r.normals == self.normals,
            r.texcoords == Some(texcoords),
            r.material == self.material,
    {
        TriangleBuilder {
            points: self.points,
            normals: self.normals,
            texcoords: Some(texcoords),
            material: self.material,
        }
    }

    /// The triangle.
    ///
    /// With normals given for the corners, it blends these, each brought
    /// to unit length by `normalize`; without, it has the normal that
    /// `face_normal` finds for the three corners.  With texture coordinates
    /// given for the corners, it blends these; without, a point's texture
    /// coordinates are its barycentric ones.
    pub fn build<N: Fn(Vec3) -> Vec3, F: Fn(Pt3, Pt3, Pt3) -> Vec3>(
        self,
        normalize: &N,
        face_normal: &F,
    ) -> (r: Triangle)
        requires
            forall|v: Vec3| #[trigger] normalize.requires((v,)),
            forall|a: Pt3, b: Pt3, c: Pt3| #[trigger] face_normal.requires((a, b, c)),
        ensures
            r.v0 == self.points[0],
            r.v1 == self.points[1],
            r.v2 == self.points[2],
            r.material == self.material,
            match self.normals {
                Some(normals) => {
                    &&& r.normal matches TriangleNormal::Barycentric(a, b, c)
                    &&& normalize.ensures((normals[0],), a)
                    &&& normalize.ensures((normals[1],), b)
                    &&& normalize.ensures((normals[2],), c)
                },
                None => {
                    &&& r.normal matches TriangleNormal::Uniform(n)
                    &&& face_normal.ensures((self.points[0], self.points[1], self.points[2]), n)
                },
            },
            r.texcoords == (match self.texcoords {
                Some(coords) => TriangleTexCoords::Barycentric(coords[0], coords[1], coords[2]),
                None => TriangleTexCoords::NoTexture,
            }),
    {
        let v0 = self.points[0];
        let v1 = self.points[1];
        let v2 = self.points[2];

        let normal = match self.normals {
            Some(normals) => TriangleNormal::Barycentric(
                normalize(normals[0]),
                normalize(normals[1]),
                normalize(normals[2]),
            ),
            None => TriangleNormal::Uniform(face_normal(v0, v1, v2)),
        };

        let texcoords = match self.texcoords {
            Some(coords) => TriangleTexCoords::Barycentric(coords[0], coords[1], coords[2]),
            None => TriangleTexCoords::NoTexture,
        };

        Triangle { v0, v1, v2, normal, texcoords, material: self.material }
    }
}

impl TriangleNormal {
    /// The normal at the point with barycentric coordinates `(u, v)`: the
    /// normal of the face, or what `blend` makes of the normals of the
    /// corners.
    pub fn compute_normal<F: Fn(Vec3, Vec3, Vec3, Scalar, Scalar) -> Vec3>(
        &self,
        u: Scalar,
        v: Scalar,
        blend: &F,
    ) -> (r: Vec3)
        requires
            forall|a: Vec3, b: Vec3, c: Vec3, s: Scalar, t: Scalar| #[trigger]
                blend.requires((a, b, c, s, t)),
        ensures
            match *self {
                TriangleNormal::Uniform(n) => r == n,
                TriangleNormal::Barycentric(a, b, c) => blend.ensures((a, b, c, u, v), r),
            },
    {
        match self {
            TriangleNormal::Uniform(n) => *n,
            TriangleNormal::Barycentric(a, b, c) => blend(*a, *b, *c, u, v),
        }
    }
}

impl TriangleTexCoords {
    /// The texture coordinates of the point with barycentric coordinates
    /// `(u, v)`: these themselves, or what `blend` makes of the texture
    /// coordinates of the corners.
    pub fn compute_uv<F: Fn(TexCoords, TexCoords, TexCoords, Scalar, Scalar) -> (Scalar, Scalar)>(
        &self,
        u: Scalar,
        v: Scalar,
        blend: &F,
    ) -> (r: (Scalar, Scalar))
        requires
            forall|a: TexCoords, b: TexCoords, c: TexCoords, s: Scalar, t: Scalar| #[trigger]
                blend.requires((a, b, c, s, t)),
        ensures
            match *self {
                TriangleTexCoords::NoTexture => r == (u, v),
                TriangleTexCoords::Barycentric(a, b, c) => blend.ensures((a, b, c, u, v), r),
            },
    {
        match self {
            TriangleTexCoords::NoTexture => (u, v),
            TriangleTexCoords::Barycentric(a, b, c) => blend(*a, *b, *c, u, v),
        }
    }
}

impl Triangle {
    /// A triangle is hit where the determinant is a number of a magnitude
    /// of at least epsilon, the barycentric parameters `u` and `v` and
    /// their sum lie in `[0, 1]`, and the parameter of the ray lies in the
    /// interval.  Nothing that is not a number lies in an interval.
    pub open spec fn spec_accepts(
        det: Scalar,
        u: Scalar,
        v: Scalar,
        u_plus_v: Scalar,
        t: Scalar,
        tmin: Scalar,
        tmax: Option<Scalar>,
    ) -> bool {
        &&& spec_epsilon().spec_le(det.spec_abs())
        &&& Scalar::spec_zero().spec_le(u) && u.spec_le(Scalar::spec_one())
        &&& Scalar::spec_zero().spec_le(v) && u_plus_v.spec_le(Scalar::spec_one())
        &&& spec_is_in_range(t, tmin, tmax)
    }

    #[verifier::when_used_as_spec(spec_accepts)]
    pub fn accepts(
        det: Scalar,
        u: Scalar,
        v: Scalar,
        u_plus_v: Scalar,
        t: Scalar,
        tmin: Scalar,
        tmax: Option<Scalar>,
    ) -> (r: bool)
        ensures
            r == Triangle::spec_accepts(det, u, v, u_plus_v, t, tmin, tmax),
            r ==> Scalar::spec_zero().spec_le(u) && Scalar::spec_zero().spec_le(v)
                && u_plus_v.spec_le(Scalar::spec_one()) && spec_is_in_range(t, tmin, tmax),
    {
        if !epsilon().le(det.abs()) {
            return false;
        }
        if !(Scalar::zero().le(u) && u.le(Scalar::one())) {
            return false;
        }
        if !(Scalar::zero().le(v) && u_plus_v.le(Scalar::one())) {
            return false;
        }
        is_in_range(t, tmin, tmax)
    }

    /// The parameters of an accepted triangle hit are barycentric, neither
    /// negative and their sum at most one, and the parameter of the ray is a
    /// number of the interval.
    pub proof fn lemma_barycentric(
        det: Scalar,
        u: Scalar,
        v: Scalar,
        u_plus_v: Scalar,
        t: Scalar,
        tmin: Scalar,
        tmax: Option<Scalar>,
    )
        requires
            Triangle::spec_accepts(det, u, v, u_plus_v, t, tmin, tmax),
        ensures
            Scalar::spec_zero().spec_le(u),
            Scalar::spec_zero().spec_le(v),
            u_plus_v.spec_le(Scalar::spec_one()),
            !u.nan() && !v.nan() && !u_plus_v.nan() && !t.nan(),
            tmin.key() <= t.key(),
            tmax matches Some(end) ==> t.key() < end.key(),
    {
    }
}

} // verus!
