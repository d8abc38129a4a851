//! Hit records, the contract of everything a ray can hit, and the search
//! for the closest hit in a list.

use vstd::prelude::*;
use crate::aabb::AABB;
use crate::ray::Ray;
use crate::scalar::Scalar;
use crate::vec3::{Pt3, Vec3};

verus! {

/// What is known of one intersection of a ray with a surface.
///
/// `material` is the handle under which the embedding program keeps the
/// surface's material.
#[derive(Clone, Copy, Debug, PartialEq, Eq, Structural)]
pub struct HitRecord {
    pub ray: Ray,
    pub t: Scalar,
    pub p: Pt3,
    pub normal: Vec3,
    pub u: Scalar,
    pub v: Scalar,
    pub front_face: bool,
    pub material: usize,
}

impl HitRecord {
    /// The ray struck the outward side: the ray's direction and the outward
    /// normal have a negative dot product, `facing`.
    pub open spec fn spec_front_face(facing: Scalar) -> bool {
        facing.spec_lt(Scalar::spec_zero())
    }

    /// The normal that is kept: the outward one on the front face, its
    /// negation on the back face.
    pub open spec fn spec_oriented(outward_normal: Vec3, facing: Scalar) -> Vec3 {
        if HitRecord::spec_front_face(facing) {
            outward_normal
        } else {
            outward_normal.spec_neg()
        }
    }

    /// The dot product of the ray's direction with the normal that is kept,
    /// given that negating a vector negates its dot products.
    pub open spec fn spec_facing_kept(facing: Scalar) -> Scalar {
        if HitRecord::spec_front_face(facing) {
            facing
        } else {
            facing.spec_neg()
        }
    }

    /// The record of a hit.  `facing` is the dot product of `ray.direction`
    /// and `outward_normal`; the normal is stored turned against the ray.
    pub fn new(
        ray: Ray,
        t: Scalar,
        p: Pt3,
        outward_normal: Vec3,
        facing: Scalar,
        u: Scalar,
        v: Scalar,
        material: usize,
    ) -> (r: HitRecord)
        ensures
            r == (HitRecord {
                ray,
                t,
                p,
                normal: HitRecord::spec_oriented(outward_normal, facing),
                u,
                v,
                front_face: HitRecord::spec_front_face(facing),
                material,
            }),
    {
        let front_face = facing.lt(Scalar::zero());
        let normal = if front_face {
            outward_normal
        } else {
            outward_normal.neg()
        };
        HitRecord { ray, t, p, normal, u, v, front_face, material }
    }

    /// The hit as it is seen in another frame, into which it was carried:
    /// the ray, the point and the outward normal are those of the new
    /// frame, `facing` is the dot product of the new ray's direction and the
    /// new outward normal, and the normal is stored turned against the new
    /// ray.  The parameter of the ray, the surface parameters and the
    /// material stay.
    pub fn moved(self, ray: Ray, p: Pt3, outward_normal: Vec3, facing: Scalar) -> (r: HitRecord)
        ensures
            r == (HitRecord {
                ray,
                t: self.t,
                p,
                normal: HitRecord::spec_oriented(outward_normal, facing),
                u: self.u,
                v: self.v,
                front_face: HitRecord::spec_front_face(facing),
                material: self.material,
            }),
    {
        HitRecord::new(ray, self.t, p, outward_normal, facing, self.u, self.v, self.material)
    }

    /// The same hit seen from the other side: only the front-face flag
    /// changes.
    pub open spec fn spec_flipped(self) -> HitRecord {
        HitRecord { front_face: !self.front_face, ..self }
    }

    #[verifier::when_used_as_spec(spec_flipped)]
    pub fn flipped(self) -> (r: HitRecord)
        ensures
            r == self.spec_flipped(),
    {
        HitRecord {
            ray: self.ray,
            t: self.t,
            p: self.p,
            normal: self.normal,
            u: self.u,
            v: self.v,
            front_face: !self.front_face,
            material: self.material,
        }
    }

    /// The normal that is kept never points along the ray: whatever number
    /// the dot product with the outward normal is, the dot product with
    /// the kept normal is at most zero.
    pub proof fn lemma_normal_faces_ray(facing: Scalar)
        requires
            !facing.nan(),
        ensures
            HitRecord::spec_facing_kept(facing).spec_le(Scalar::spec_zero()),
    {
        facing.lemma_neg();
        assert(0u64 & 0x7fff_ffff_ffff_ffff == 0) by (bit_vector);
        assert(0u64 & 0x8000_0000_0000_0000 == 0) by (bit_vector);
    }
}

/// Something a ray can hit.
///
/// `hit` and `bounds` name what `is_hit_by` and `bounding_box` return: an
/// implementation answers the same question the same way each time.
pub trait Hittable {
    /// The hit of `ray` on `self` with a parameter in `[tmin, tmax)`, if
    /// there is one.
    spec fn hit(&self, ray: Ray, tmin: Scalar, tmax: Option<Scalar>) -> Option<HitRecord>;

    /// A box around `self`, if `self` has a finite extent.
    spec fn bounds(&self) -> Option<AABB>;

    fn is_hit_by(&self, ray: Ray, tmin: Scalar, tmax: Option<Scalar>) -> (r: Option<HitRecord>)
        ensures
            r == self.hit(ray, tmin, tmax),
    ;

    fn bounding_box(&self) -> (r: Option<AABB>)
        ensures
            r == self.bounds(),
    ;
}

/// Something that can tell whether a ray hits it, without saying where.
pub trait HitCheckable {
    /// Whether `ray` hits `self` with a parameter in `[tmin, tmax)`.
    spec fn check_hit(&self, ray: Ray, tmin: Scalar, tmax: Option<Scalar>) -> bool;

    fn check_hit_by(&self, ray: Ray, tmin: Scalar, tmax: Option<Scalar>) -> (r: bool)
        ensures
            r == self.check_hit(ray, tmin, tmax),
    ;
}

impl<T: Hittable> HitCheckable for T {
    open spec fn check_hit(&self, ray: Ray, tmin: Scalar, tmax: Option<Scalar>) -> bool {
        self.hit(ray, tmin, tmax) is Some
    }

    fn check_hit_by(&self, ray: Ray, tmin: Scalar, tmax: Option<Scalar>) -> (r: bool) {
        self.is_hit_by(ray, tmin, tmax).is_some()
    }
}

/// The end of the interval in which a later surface is still of interest:
/// the parameter of the closest hit so far, or `tmax` before any hit.
pub open spec fn closing_bound(found: Option<HitRecord>, tmax: Option<Scalar>) -> Option<Scalar> {
    match found {
        Some(record) => Some(record.t),
        None => tmax,
    }
}

/// One step of the search: `item` is asked for a hit closer than what was
/// found so far, and replaces it if it has one.
pub open spec fn sweep_step<H: Hittable>(
    item: H,
    found: Option<HitRecord>,
    ray: Ray,
    tmin: Scalar,
    tmax: Option<Scalar>,
) -> Option<HitRecord> {
    match item.hit(ray, tmin, closing_bound(found, tmax)) {
        Some(record) => Some(record),
        None => found,
    }
}

/// The search for the closest hit: the items are asked in order, each with
/// the interval shrunk to the closest hit before it.  `found` is the hit
/// that the search starts with.
pub open spec fn sweep<H: Hittable>(
    items: Seq<H>,
    found: Option<HitRecord>,
    ray: Ray,
    tmin: Scalar,
    tmax: Option<Scalar>,
) -> Option<HitRecord>
    decreases items.len(),
{
    if items.len() == 0 {
        found
    } else {
        sweep_step(items.last(), sweep(items.drop_last(), found, ray, tmin, tmax), ray, tmin, tmax)
    }
}

/// The box around all of `items[0..n]`, if each of them has a box and
/// there is at least one.
pub open spec fn hull<H: Hittable>(items: Seq<H>, n: int) -> Option<AABB>
    decreases n,
{
    if n <= 0 {
        None
    } else if n == 1 {
        items[0].bounds()
    } else {
        match (hull(items, n - 1), items[n - 1].bounds()) {
            (Some(so_far), Some(next)) => Some(AABB::spec_surrounding(so_far, next)),
            _ => None,
        }
    }
}

impl<H: Hittable> Hittable for Vec<H> {
    open spec fn hit(&self, ray: Ray, tmin: Scalar, tmax: Option<Scalar>) -> Option<HitRecord> {
        sweep(self@, None, ray, tmin, tmax)
    }

    open spec fn bounds(&self) -> Option<AABB> {
        hull(self@, self@.len() as int)
    }

    /// The closest hit among the items of the list.
    fn is_hit_by(&self, ray: Ray, tmin: Scalar, tmax: Option<Scalar>) -> (r: Option<HitRecord>) {
        let mut current_closest = tmax;
        let mut final_record: Option<HitRecord> = None;
        let mut i: usize = 0;
        while i < self.len()
            invariant
                0 <= i <= self@.len(),
                final_record == sweep(self@.take(i as int), None, ray, tmin, tmax),
                current_closest == closing_bound(final_record, tmax),
            decreases self@.len() - i,
        {
            assert(self@.take(i + 1).drop_last() =~= self@.take(i as int));
            if let Some(record) = self[i].is_hit_by(ray, tmin, current_closest) {
                current_closest = Some(record.t);
                final_record = Some(record);
            }
            i = i + 1;
        }
        assert(self@.take(i as int) =~= self@);
        final_record
    }

    /// The box around the whole list, if every item has one.
    fn bounding_box(&self) -> (r: Option<AABB>) {
        if self.len() == 0 {
            return None;
        }
        let mut res = match self[0].bounding_box() {
            Some(bb) => bb,
            None => {
                proof {
                    lemma_hull_none(self@, 1, self@.len() as int);
                }
                return None;
            },
        };
        let mut i: usize = 1;
        while i < self.len()
            invariant
                1 <= i <= self@.len(),
                hull(self@, i as int) == Some(res),
            decreases self@.len() - i,
        {
            match self[i].bounding_box() {
                Some(bb) => {
                    res = AABB::surrounding(res, bb);
                },
                None => {
                    proof {
                        lemma_hull_none(self@, i + 1, self@.len() as int);
                    }
                    return None;
                },
            }
            i = i + 1;
        }
        Some(res)
    }
}

/// Once a prefix of a list has no box around it, no longer prefix has.
pub proof fn lemma_hull_none<H: Hittable>(items: Seq<H>, n: int, m: int)
    requires
        1 <= n <= m,
        hull(items, n) is None,
    ensures
        hull(items, m) is None,
    decreases m - n,
{
    if n < m {
        lemma_hull_none(items, n, m - 1);
    }
}

/// A surface seen from its other side: every hit comes back with the
/// front-face flag inverted, and nothing else changes.
pub struct FlipFace<H> {
    pub inner: H,
}

impl<H: Hittable> FlipFace<H> {
    pub fn new(inner: H) -> (r: FlipFace<H>)
        ensures
            r.inner == inner,
    {
        FlipFace { inner }
    }
}

impl<H: Hittable> Hittable for FlipFace<H> {
    open spec fn hit(&self, ray: Ray, tmin: Scalar, tmax: Option<Scalar>) -> Option<HitRecord> {
        match self.inner.hit(ray, tmin, tmax) {
            Some(record) => Some(record.spec_flipped()),
            None => None,
        }
    }

    open spec fn bounds(&self) -> Option<AABB> {
        self.inner.bounds()
    }

    fn is_hit_by(&self, ray: Ray, tmin: Scalar, tmax: Option<Scalar>) -> (r: Option<HitRecord>) {
        match self.inner.is_hit_by(ray, tmin, tmax) {
            Some(record) => Some(record.flipped()),
            None => None,
        }
    }

    fn bounding_box(&self) -> (r: Option<AABB>) {
        self.inner.bounding_box()
    }
}

} // verus!
