//! Materials: what becomes of a ray at a surface.
//!
//! A material may send the ray on, attenuated, and may emit light of its
//! own.  Here are the materials themselves and what each of them decides;
//! the directions in which they scatter are computed, and drawn at random,
//! by the embedding program.

use vstd::prelude::*;
use crate::hittable::HitRecord;
use crate::ray::Ray;
use crate::scalar::Scalar;
use crate::texture::{SolidTexture, Texture};
use crate::vec3::{Pt3, Vec3};

verus! {

/// What a material makes of a ray: how much of the light that comes back
/// along it is kept, and the ray along which it comes, if any.
#[derive(Clone, Copy, Debug, PartialEq, Eq, Structural)]
pub struct MaterialScatter {
    pub attenuation: Vec3,
    pub scattered: Option<Ray>,
}

/// The behaviour of a surface.
///
/// `emitted` names what `emit` returns.  Nothing is said of `scatter`: a
/// material may draw its answer at random.
pub trait Material {
    /// The light that the material gives off at a point by itself.
    spec fn emitted(&self, u: Scalar, v: Scalar, point: Pt3) -> Vec3;

    /// What the material makes of `ray`, which hit it as `record` says; none
    /// where it absorbs the ray.
    fn scatter(&self, ray: &Ray, record: &HitRecord) -> (r: Option<MaterialScatter>);

    fn emit(&self, u: Scalar, v: Scalar, point: Pt3) -> (r: Vec3)
        ensures
            r == self.emitted(u, v, point),
    ;
}

/// A source of light: it gives off the same light everywhere and scatters
/// nothing.
#[derive(Clone, Copy, Debug, PartialEq, Eq, Structural)]
pub struct Light {
    pub emittance: Vec3,
}

impl Light {
    /// A light that gives off one unit of each colour.
    pub fn white() -> (r: Light)
        ensures
            r.emittance == (Vec3 {
                x: Scalar::spec_one(),
                y: Scalar::spec_one(),
                z: Scalar::spec_one(),
            }),
    {
        Light { emittance: Vec3::all(Scalar::one()) }
    }

    pub fn new(emittance: Vec3) -> (r: Light)
        ensures
            r.emittance == emittance,
    {
        Light { emittance }
    }
}

impl Material for Light {
    open spec fn emitted(&self, u: Scalar, v: Scalar, point: Pt3) -> Vec3 {
        self.emittance
    }

    fn scatter(&self, ray: &Ray, record: &HitRecord) -> (r: Option<MaterialScatter>)
        ensures
            r is None,
    {
        None
    }

    fn emit(&self, u: Scalar, v: Scalar, point: Pt3) -> (r: Vec3) {
        self.emittance
    }
}

/// Whether a diffuse surface scatters over the hemisphere about the normal
/// rather than towards the unit sphere that touches the surface.
pub const HEMISPHERE_MODE: bool = false;

/// A direction drawn from the whole unit sphere, brought to the half that
/// lies about a normal: the sample itself where its dot product with the
/// normal is above zero, else its mirror image.
pub fn random_unit_hemisphere(sample: Vec3, sample_dot_normal: Scalar) -> (r: Vec3)
    ensures
        r == (if Scalar::spec_zero().spec_lt(sample_dot_normal) {
            sample
        } else {
            sample.spec_neg()
        }),
{
    if sample_dot_normal.gt(Scalar::zero()) {
        sample
    } else {
        sample.neg()
    }
}

/// A diffuse surface, coloured by a texture.
#[derive(Debug)]
pub struct Lambertian<T> {
    pub texture: T,
}

impl<T: Texture> Lambertian<T> {
    pub fn new(texture: T) -> (r: Lambertian<T>)
        ensures
            r.texture == texture,
    {
        Lambertian { texture }
    }

    /// How much of the light that comes back is kept: the colour of the
    /// texture where the ray hit.
    pub fn attenuation(&self, record: &HitRecord) -> (r: Vec3)
        ensures
            r == self.texture.color(record.u, record.v),
    {
        self.texture.value(record.u, record.v)
    }
}

impl Lambertian<SolidTexture> {
    pub fn from_solid_color(color: Vec3) -> (r: Lambertian<SolidTexture>)
        ensures
            r.texture.color == color,
    {
        Lambertian { texture: SolidTexture::new(color) }
    }
}

/// A mirror, blurred by `fuzz`.
#[derive(Clone, Copy, Debug, PartialEq, Eq, Structural)]
pub struct Metal {
    pub albedo: Vec3,
    pub fuzz: Scalar,
}

impl Metal {
    /// A metal; without a `fuzz` it is a perfect mirror.
    pub fn new(albedo: Vec3, fuzz: Option<Scalar>) -> (r: Metal)
        ensures
            r.albedo == albedo,
            r.fuzz == (match fuzz {
                Some(given) => given,
                None => Scalar::spec_zero(),
            }),
    {
        let fuzz = match fuzz {
            Some(given) => given,
            None => Scalar::zero(),
        };
        Metal { albedo, fuzz }
    }

    /// A metal scatters the mirrored ray only where it leaves the surface:
    /// where the dot product of the mirrored direction and the normal is
    /// above zero.  Otherwise the ray is absorbed.
    pub open spec fn spec_scatters(reflected_dot_normal: Scalar) -> bool {
        Scalar::spec_zero().spec_lt(reflected_dot_normal)
    }

    #[verifier::when_used_as_spec(spec_scatters)]
    pub fn scatters(reflected_dot_normal: Scalar) -> (r: bool)
        ensures
            r == Metal::spec_scatters(reflected_dot_normal),
    {
        reflected_dot_normal.gt(Scalar::zero())
    }
}

/// A clear material that bends light, such as glass.
#[derive(Clone, Copy, Debug, PartialEq, Eq, Structural)]
pub struct Dielectric {
    pub reflective_index: Scalar,
}

impl Dielectric {
    pub fn new(reflective_index: Scalar) -> (r: Dielectric)
        ensures
            r.reflective_index == reflective_index,
    {
        Dielectric { reflective_index }
    }

    /// How much of the light that comes back is kept: all of it, in every
    /// colour.
    pub fn attenuation() -> (r: Vec3)
        ensures
            r == (Vec3 { x: Scalar::spec_one(), y: Scalar::spec_one(), z: Scalar::spec_one() }),
    {
        Vec3::all(Scalar::one())
    }

    /// The ratio of refractive indices for a ray that crosses the surface:
    /// entering through the front face it is the inverse of the material's
    /// index, leaving through the back face the index itself.
    pub fn refraction_ratio(&self, front_face: bool, inverse_index: Scalar) -> (r: Scalar)
        ensures
            r == (if front_face {
                inverse_index
            } else {
                self.reflective_index
            }),
    {
        if front_face {
            inverse_index
        } else {
            self.reflective_index
        }
    }

    /// A dielectric mirrors the ray where refraction is impossible, that is
    /// where the ratio of the refractive indices times the sine of the
    /// angle of incidence is above one, and otherwise where a uniform draw
    /// falls below the reflectance.  In every other case it refracts.
    pub open spec fn spec_reflects(
        ratio_times_sine: Scalar,
        draw: Scalar,
        reflectance: Scalar,
    ) -> bool {
        Scalar::spec_one().spec_lt(ratio_times_sine) || draw.spec_lt(reflectance)
    }

    #[verifier::when_used_as_spec(spec_reflects)]
    pub fn reflects(ratio_times_sine: Scalar, draw: Scalar, reflectance: Scalar) -> (r: bool)
        ensures
            r == Dielectric::spec_reflects(ratio_times_sine, draw, reflectance),
    {
        ratio_times_sine.gt(Scalar::one()) || draw.lt(reflectance)
    }
}

} // verus!
