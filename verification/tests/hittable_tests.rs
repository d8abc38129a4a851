use raytracer::aabb::AABB;
use raytracer::hittable::{FlipFace, HitCheckable, HitRecord, Hittable};
use raytracer::plane::Plane;
use raytracer::ray::Ray;
use raytracer::scalar::Scalar;
use raytracer::sphere::Sphere;
use raytracer::vec3::Vec3;

fn s(x: f64) -> Scalar {
    Scalar::from_bits(x.to_bits())
}

fn f(x: Scalar) -> f64 {
    f64::from_bits(x.to_bits())
}

fn v(x: f64, y: f64, z: f64) -> Vec3 {
    Vec3::new(s(x), s(y), s(z))
}

fn a3(p: Vec3) -> [f64; 3] {
    [f(p.x), f(p.y), f(p.z)]
}

fn dot(a: [f64; 3], b: [f64; 3]) -> f64 {
    a[0] * b[0] + a[1] * b[1] + a[2] * b[2]
}

fn ray(o: [f64; 3], d: [f64; 3]) -> Ray {
    Ray::new(v(o[0], o[1], o[2]), v(d[0], d[1], d[2]))
}

enum Shape {
    Sphere { center: [f64; 3], radius: f64, material: usize },
    Plane { point: [f64; 3], normal: [f64; 3], material: usize },
}

impl Hittable for Shape {
    fn hit(&self, _: Ray, _: Scalar, _: Option<Scalar>) -> Option<HitRecord> {
        unreachable!()
    }

    fn bounds(&self) -> Option<AABB> {
        unreachable!()
    }

    fn is_hit_by(&self, ray: Ray, tmin: Scalar, tmax: Option<Scalar>) -> Option<HitRecord> {
        let o = a3(ray.origin);
        let d = a3(ray.direction);
        match self {
            Shape::Sphere { center, radius, material } => {
                let oc = [o[0] - center[0], o[1] - center[1], o[2] - center[2]];
                let a = dot(d, d);
                let b = dot(oc, d) * 2.0;
                let c = dot(oc, oc) - radius * radius;
                let discriminant = b * b - 4.0 * a * c;
                let t1 = (-b - discriminant.sqrt()) / (2.0 * a);
                let t2 = (-b + discriminant.sqrt()) / (2.0 * a);
                let t = f(Sphere::root(s(discriminant), s(t1), s(t2), tmin, tmax)?);
                let p = [o[0] + d[0] * t, o[1] + d[1] * t, o[2] + d[2] * t];
                let n = [
                    (p[0] - center[0]) / radius,
                    (p[1] - center[1]) / radius,
                    (p[2] - center[2]) / radius,
                ];
                Some(HitRecord::new(
                    ray,
                    s(t),
                    v(p[0], p[1], p[2]),
                    v(n[0], n[1], n[2]),
                    s(dot(d, n)),
                    s(0.0),
                    s(0.0),
                    *material,
                ))
            }
            Shape::Plane { point, normal, material } => {
                let denominator = dot(d, *normal);
                let to_point = [point[0] - o[0], point[1] - o[1], point[2] - o[2]];
                let t = dot(to_point, *normal) / denominator;
                if !Plane::accepts(s(denominator), s(t), tmin, tmax) {
                    return None;
                }
                let p = [o[0] + d[0] * t, o[1] + d[1] * t, o[2] + d[2] * t];
                Some(HitRecord::new(
                    ray,
                    s(t),
                    v(p[0], p[1], p[2]),
                    v(normal[0], normal[1], normal[2]),
                    s(denominator),
                    s(0.0),
                    s(0.0),
                    *material,
                ))
            }
        }
    }

    fn bounding_box(&self) -> Option<AABB> {
        match self {
            Shape::Sphere { center, radius, .. } => Some(AABB::new(
                v(center[0] - radius, center[1] - radius, center[2] - radius),
                v(center[0] + radius, center[1] + radius, center[2] + radius),
            )),
            Shape::Plane { .. } => None,
        }
    }
}

fn sphere(center: [f64; 3], radius: f64, material: usize) -> Shape {
    Shape::Sphere { center, radius, material }
}

#[test]
fn front_face_keeps_the_outward_normal() {
    let r = ray([0.0, 0.0, 5.0], [0.0, 0.0, -1.0]);
    let n = v(0.0, 0.0, 1.0);
    let rec = HitRecord::new(r, s(4.0), v(0.0, 0.0, 1.0), n, s(-1.0), s(0.25), s(0.5), 3);
    assert!(rec.front_face);
    assert_eq!(rec.normal, n);
    assert_eq!(rec.t, s(4.0));
    assert_eq!(rec.p, v(0.0, 0.0, 1.0));
    assert_eq!(rec.u, s(0.25));
    assert_eq!(rec.v, s(0.5));
    assert_eq!(rec.material, 3);
    assert_eq!(rec.ray, r);
}

#[test]
fn back_face_turns_the_normal_round() {
    let r = ray([0.0, 0.0, 0.0], [0.0, 0.0, -1.0]);
    let n = v(0.0, 0.5, -1.0);
    let rec = HitRecord::new(r, s(1.0), v(0.0, 0.0, -1.0), n, s(1.0), s(0.0), s(0.0), 0);
    assert!(!rec.front_face);
    assert_eq!(rec.normal, v(-0.0, -0.5, 1.0));
}

#[test]
fn grazing_and_nan_count_as_back_face() {
    let r = ray([0.0, 0.0, 0.0], [1.0, 0.0, 0.0]);
    let n = v(0.0, 1.0, 0.0);
    let rec = HitRecord::new(r, s(1.0), v(1.0, 0.0, 0.0), n, s(0.0), s(0.0), s(0.0), 0);
    assert!(!rec.front_face);
    assert_eq!(rec.normal, v(-0.0, -1.0, -0.0));
    let rec = HitRecord::new(r, s(1.0), v(1.0, 0.0, 0.0), n, s(f64::NAN), s(0.0), s(0.0), 0);
    assert!(!rec.front_face);
}

#[test]
fn every_hit_has_a_normal_against_the_ray() {
    let shapes = vec![
        sphere([0.0, 0.0, 0.0], 1.0, 0),
        sphere([0.3, 0.2, -3.0], 0.7, 1),
        Shape::Plane { point: [0.0, -1.0, 0.0], normal: [0.0, 1.0, 0.0], material: 2 },
        Shape::Plane { point: [0.0, 4.0, 0.0], normal: [0.0, 1.0, 0.0], material: 3 },
    ];
    let mut found = 0;
    for i in 0..40 {
        for j in 0..40 {
            let d = [(i as f64 - 20.0) / 20.0, (j as f64 - 20.0) / 20.0, -1.0];
            for origin in [[0.0, 0.0, 5.0], [0.0, 0.0, 0.0], [0.2, 0.1, -3.0]] {
                let r = ray(origin, d);
                for shape in &shapes {
                    if let Some(rec) = shape.is_hit_by(r, s(0.01), None) {
                        assert!(dot(d, a3(rec.normal)) <= 0.0);
                        found += 1;
                    }
                    let flipped = FlipFace::new(sphere([0.0, 0.0, 0.0], 1.0, 0));
                    if let Some(rec) = flipped.is_hit_by(r, s(0.01), None) {
                        assert!(dot(d, a3(rec.normal)) <= 0.0);
                    }
                }
            }
        }
    }
    assert!(found > 1000);
}

#[test]
fn list_returns_the_closest_hit_whatever_the_order() {
    let r = ray([0.0, 0.0, 10.0], [0.0, 0.0, -1.0]);
    let near = || sphere([0.0, 0.0, 4.0], 1.0, 1);
    let middle = || sphere([0.0, 0.0, 0.0], 1.0, 2);
    let far = || sphere([0.0, 0.0, -4.0], 1.0, 3);
    let orders: Vec<Vec<Shape>> = vec![
        vec![near(), middle(), far()],
        vec![far(), middle(), near()],
        vec![middle(), near(), far()],
        vec![middle(), far(), near()],
    ];
    for list in &orders {
        let rec = list.is_hit_by(r, s(0.01), None).unwrap();
        assert_eq!(rec.material, 1);
        assert_eq!(f(rec.t), 5.0);
        assert_eq!(rec.p, v(0.0, 0.0, 5.0));
    }
}

#[test]
fn list_respects_the_interval() {
    let r = ray([0.0, 0.0, 10.0], [0.0, 0.0, -1.0]);
    let list = vec![sphere([0.0, 0.0, 4.0], 1.0, 1), sphere([0.0, 0.0, 0.0], 1.0, 2)];
    // the near sphere spans t in [5, 7], the other [9, 11]
    assert_eq!(list.is_hit_by(r, s(0.01), Some(s(5.0))).map(|h| h.material), None);
    assert_eq!(list.is_hit_by(r, s(0.01), Some(s(5.5))).map(|h| f(h.t)), Some(5.0));
    assert_eq!(list.is_hit_by(r, s(6.0), None).map(|h| f(h.t)), Some(7.0));
    assert_eq!(list.is_hit_by(r, s(7.5), None).map(|h| (h.material, f(h.t))), Some((2, 9.0)));
    assert_eq!(list.is_hit_by(r, s(12.0), None).map(|h| h.material), None);
}

#[test]
fn empty_list_has_no_hit_and_no_box() {
    let list: Vec<Shape> = Vec::new();
    let r = ray([0.0, 0.0, 10.0], [0.0, 0.0, -1.0]);
    assert!(list.is_hit_by(r, s(0.01), None).is_none());
    assert!(list.bounding_box().is_none());
    assert!(!list.check_hit_by(r, s(0.01), None));
}

#[test]
fn list_box_surrounds_all_or_is_none() {
    let list = vec![sphere([0.0, 0.0, 4.0], 1.0, 1), sphere([2.0, -3.0, 0.0], 0.5, 2)];
    let b = list.bounding_box().unwrap();
    assert_eq!(b.min, v(-1.0, -3.5, -0.5));
    assert_eq!(b.max, v(2.5, 1.0, 5.0));
    let list = vec![
        sphere([0.0, 0.0, 4.0], 1.0, 1),
        Shape::Plane { point: [0.0; 3], normal: [0.0, 1.0, 0.0], material: 0 },
    ];
    assert!(list.bounding_box().is_none());
}

#[test]
fn check_hit_by_tells_whether_there_is_a_hit() {
    let ball = sphere([0.0, 0.0, 0.0], 1.0, 0);
    assert!(ball.check_hit_by(ray([0.0, 0.0, 5.0], [0.0, 0.0, -1.0]), s(0.01), None));
    assert!(!ball.check_hit_by(ray([0.0, 3.0, 5.0], [0.0, 0.0, -1.0]), s(0.01), None));
}

#[test]
fn flip_inverts_the_flag_and_nothing_else() {
    let r = ray([0.0, 0.0, 5.0], [0.0, 0.0, -1.0]);
    let plain = sphere([0.0, 0.0, 0.0], 1.0, 7).is_hit_by(r, s(0.01), None).unwrap();
    let flipped = FlipFace::new(sphere([0.0, 0.0, 0.0], 1.0, 7));
    let rec = flipped.is_hit_by(r, s(0.01), None).unwrap();
    assert!(plain.front_face);
    assert!(!rec.front_face);
    assert_eq!(rec.normal, plain.normal);
    assert_eq!(rec.t, plain.t);
    assert_eq!(rec.p, plain.p);
    assert_eq!(rec.material, 7);
    assert_eq!(rec.flipped(), plain);
    assert_eq!(flipped.bounding_box(), Some(AABB::new(v(-1.0, -1.0, -1.0), v(1.0, 1.0, 1.0))));
    assert!(flipped.is_hit_by(ray([0.0, 3.0, 5.0], [0.0, 0.0, -1.0]), s(0.01), None).is_none());
}

#[test]
fn single_sphere_is_hit_at_the_centre_and_missed_far_outside() {
    // camera at (0, 0, 3) looking down -z at a unit sphere at the origin
    let ball = vec![sphere([0.0, 0.0, 0.0], 1.0, 0)];
    let centre = ray([0.0, 0.0, 3.0], [0.0, 0.0, -1.0]);
    let rec = ball.is_hit_by(centre, s(0.01), None);
    assert!(rec.is_some());
    let rec = rec.unwrap();
    assert_eq!(f(rec.t), 2.0);
    assert!(rec.front_face);
    assert_eq!(rec.normal, v(0.0, 0.0, 1.0));
    let outside = ray([0.0, 0.0, 3.0], [5.0, 5.0, -1.0]);
    assert!(ball.is_hit_by(outside, s(0.01), None).is_none());
}

#[test]
fn moved_hit_keeps_distance_parameters_and_material() {
    let r = ray([0.0, 0.0, 5.0], [0.0, 0.0, -1.0]);
    let rec = HitRecord::new(r, s(4.0), v(0.0, 0.0, 1.0), v(0.0, 0.0, 1.0), s(-1.0), s(0.25), s(0.5), 3);
    let world = ray([10.0, 0.0, 5.0], [0.0, 0.0, -2.0]);
    let moved = rec.moved(world, v(10.0, 0.0, 1.0), v(0.0, 0.0, 2.0), s(-4.0));
    assert_eq!(moved.ray, world);
    assert_eq!(moved.p, v(10.0, 0.0, 1.0));
    assert_eq!(moved.normal, v(0.0, 0.0, 2.0));
    assert!(moved.front_face);
    assert_eq!((moved.t, moved.u, moved.v, moved.material), (s(4.0), s(0.25), s(0.5), 3));
    // seen from behind in the new frame, the normal is turned round
    let behind = rec.moved(world, v(10.0, 0.0, 1.0), v(0.0, 0.0, -2.0), s(4.0));
    assert!(!behind.front_face);
    assert_eq!(behind.normal, v(-0.0, -0.0, 2.0));
    assert_eq!((behind.t, behind.u, behind.v, behind.material), (s(4.0), s(0.25), s(0.5), 3));
}
