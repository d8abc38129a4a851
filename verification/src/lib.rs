//! The decision core of an offline path tracer.
//!
//! Numbers are IEEE-754 binary64 values held by their bit patterns
//! ([`Scalar`]).  The library orders and selects them, builds and walks the
//! bounding-volume hierarchy, and keeps the bookkeeping of a render; the
//! arithmetic on the numbers is the embedding program's.

pub mod aabb;
pub mod bvh;
pub mod closest;
pub mod construct;
pub mod hittable;
pub mod integrator;
pub mod mat44;
pub mod material;
pub mod pixel_data;
pub mod plane;
pub mod ray;
pub mod rect;
pub mod scalar;
pub mod scene_description;
pub mod schedule;
pub mod sort;
pub mod sphere;
pub mod texture;
pub mod triangle;
pub mod vec3;

pub use aabb::{Crossing, AABB};
pub use bvh::{Bvh, BVHNode};
pub use construct::{build_bvh, Scene};
pub use hittable::{FlipFace, HitCheckable, HitRecord, Hittable};
pub use mat44::Mat44;
pub use material::{Dielectric, Lambertian, Light, Material, MaterialScatter, Metal};
pub use pixel_data::PixelData;
pub use plane::Plane;
pub use ray::Ray;
pub use rect::{make_box, AxisRect, XYRect, XZRect, YZRect};
pub use scalar::{epsilon, fmax, fmin, is_in_range, Scalar};
pub use sphere::Sphere;
pub use scene_description::{
    SceneDescriptionBuilder, SceneError, SceneObject, SceneObjectKind, SceneObjectOrIdentifier,
};
pub use texture::{CheckerTexture, ImageTexture, SolidTexture, Texture, TextureError};
pub use triangle::{Triangle, TriangleBuilder, TriangleNormal, TriangleTexCoords};
pub use vec3::{Axis, Pt3, Vec3};
