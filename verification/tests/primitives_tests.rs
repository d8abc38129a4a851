use raytracer::integrator::{
    continuation, min_distance, path_step, survival_probability, PathStep,
};
use raytracer::hittable::HitRecord;
use raytracer::material::{
    random_unit_hemisphere, Dielectric, Lambertian, Light, Material, MaterialScatter, Metal,
    HEMISPHERE_MODE,
};
use raytracer::plane::Plane;
use raytracer::ray::Ray;
use raytracer::rect::rect_accepts;
use raytracer::scalar::{epsilon, Scalar};
use raytracer::sphere::Sphere;
use raytracer::texture::{CheckerTexture, SolidTexture, Texture};
use raytracer::triangle::Triangle;
use raytracer::vec3::{Axis, Vec3};

fn s(x: f64) -> Scalar {
    Scalar::from_bits(x.to_bits())
}

fn f(x: Scalar) -> f64 {
    f64::from_bits(x.to_bits())
}

fn v(x: f64, y: f64, z: f64) -> Vec3 {
    Vec3::new(s(x), s(y), s(z))
}

fn sub(a: [f64; 3], b: [f64; 3]) -> [f64; 3] {
    [a[0] - b[0], a[1] - b[1], a[2] - b[2]]
}

fn dot(a: [f64; 3], b: [f64; 3]) -> f64 {
    a[0] * b[0] + a[1] * b[1] + a[2] * b[2]
}

fn cross(a: [f64; 3], b: [f64; 3]) -> [f64; 3] {
    [a[1] * b[2] - a[2] * b[1], a[2] * b[0] - a[0] * b[2], a[0] * b[1] - a[1] * b[0]]
}

/// The numbers of the Moeller-Trumbore test: determinant, u, v and t.
fn triangle_numbers(
    v0: [f64; 3],
    v1: [f64; 3],
    v2: [f64; 3],
    origin: [f64; 3],
    direction: [f64; 3],
) -> (f64, f64, f64, f64) {
    let v0v1 = sub(v1, v0);
    let v0v2 = sub(v2, v0);
    let pvec = cross(direction, v0v2);
    let det = dot(v0v1, pvec);
    let inv_det = 1.0 / det;
    let tvec = sub(origin, v0);
    let u = dot(tvec, pvec) * inv_det;
    let qvec = cross(tvec, v0v1);
    let v = dot(direction, qvec) * inv_det;
    let t = dot(v0v2, qvec) * inv_det;
    (det, u, v, t)
}

#[test]
fn constants_are_the_numbers_they_stand_for() {
    assert_eq!(epsilon().to_bits(), (f32::EPSILON as f64).to_bits());
    assert_eq!(survival_probability().to_bits(), 0.7f64.to_bits());
    assert_eq!(min_distance().to_bits(), 0.01f64.to_bits());
}

#[test]
fn vector_constructors_and_components() {
    let a = v(1.0, -2.0, 3.5);
    assert_eq!(a.get(Axis::X), s(1.0));
    assert_eq!(a.get(Axis::Y), s(-2.0));
    assert_eq!(a.get(Axis::Z), s(3.5));
    assert_eq!(Vec3::zero(), v(0.0, 0.0, 0.0));
    assert_eq!(Vec3::all(s(0.25)), v(0.25, 0.25, 0.25));
    assert_eq!(a.neg(), v(-1.0, 2.0, -3.5));
    assert!(!a.has_nan());
    assert!(v(0.0, f64::NAN, 0.0).has_nan());
    assert!(v(f64::NAN, 0.0, 0.0).has_nan());
    assert!(v(0.0, 0.0, f64::NAN).has_nan());
    let r = Ray::new(a, v(0.0, 0.0, -1.0));
    assert_eq!(r.origin, a);
    assert_eq!(r.direction, v(0.0, 0.0, -1.0));
}

#[test]
fn triangle_is_hit_inside() {
    let (det, u, v_, t) = triangle_numbers(
        [0.0, 0.0, 0.0],
        [1.0, 0.0, 0.0],
        [0.0, 1.0, 0.0],
        [0.25, 0.25, 1.0],
        [0.0, 0.0, -1.0],
    );
    assert!(Triangle::accepts(s(det), s(u), s(v_), s(u + v_), s(t), s(0.01), None));
    assert!(u >= 0.0 && v_ >= 0.0 && u + v_ <= 1.0);
    assert_eq!((u, v_, t), (0.25, 0.25, 1.0));
}

#[test]
fn triangle_is_missed_outside_and_edge_on() {
    let v0 = [0.0, 0.0, 0.0];
    let v1 = [1.0, 0.0, 0.0];
    let v2 = [0.0, 1.0, 0.0];
    let down = [0.0, 0.0, -1.0];
    for origin in [[0.75, 0.75, 1.0], [-0.1, 0.5, 1.0], [0.5, -0.1, 1.0], [1.5, 0.1, 1.0]] {
        let (det, u, v_, t) = triangle_numbers(v0, v1, v2, origin, down);
        assert!(!Triangle::accepts(s(det), s(u), s(v_), s(u + v_), s(t), s(0.01), None));
    }
    // a ray in the plane of the triangle has a determinant of zero
    let (det, u, v_, t) = triangle_numbers(v0, v1, v2, [-1.0, 0.25, 0.0], [1.0, 0.0, 0.0]);
    assert_eq!(det, 0.0);
    assert!(!Triangle::accepts(s(det), s(u), s(v_), s(u + v_), s(t), s(0.01), None));
    // behind the origin, or beyond tmax
    let (det, u, v_, t) = triangle_numbers(v0, v1, v2, [0.25, 0.25, -1.0], down);
    assert_eq!(t, -1.0);
    assert!(!Triangle::accepts(s(det), s(u), s(v_), s(u + v_), s(t), s(0.01), None));
    let (det, u, v_, t) = triangle_numbers(v0, v1, v2, [0.25, 0.25, 1.0], down);
    assert!(!Triangle::accepts(s(det), s(u), s(v_), s(u + v_), s(t), s(0.01), Some(s(1.0))));
    assert!(Triangle::accepts(s(det), s(u), s(v_), s(u + v_), s(t), s(0.01), Some(s(1.5))));
}

#[test]
fn triangle_accepts_its_corners_and_edges() {
    let e = s(1.0);
    assert!(Triangle::accepts(e, s(0.0), s(0.0), s(0.0), s(1.0), s(0.01), None));
    assert!(Triangle::accepts(e, s(1.0), s(0.0), s(1.0), s(1.0), s(0.01), None));
    assert!(Triangle::accepts(e, s(0.0), s(1.0), s(1.0), s(1.0), s(0.01), None));
    assert!(Triangle::accepts(e, s(0.5), s(0.5), s(1.0), s(1.0), s(0.01), None));
    assert!(!Triangle::accepts(e, s(0.5), s(0.5), s(1.0000000000000002), s(1.0), s(0.01), None));
    assert!(!Triangle::accepts(e, s(-1e-300), s(0.5), s(0.5), s(1.0), s(0.01), None));
    assert!(!Triangle::accepts(e, s(0.5), s(-1e-300), s(0.5), s(1.0), s(0.01), None));
    // the determinant is compared by magnitude, and epsilon itself passes
    assert!(Triangle::accepts(s(-1.0), s(0.2), s(0.2), s(0.4), s(1.0), s(0.01), None));
    assert!(Triangle::accepts(epsilon(), s(0.2), s(0.2), s(0.4), s(1.0), s(0.01), None));
    assert!(!Triangle::accepts(s(1e-8), s(0.2), s(0.2), s(0.4), s(1.0), s(0.01), None));
    assert!(!Triangle::accepts(s(-1e-8), s(0.2), s(0.2), s(0.4), s(1.0), s(0.01), None));
}

#[test]
fn sphere_takes_the_smaller_root_first() {
    assert_eq!(Sphere::root(s(4.0), s(2.0), s(4.0), s(0.01), None), Some(s(2.0)));
    assert_eq!(Sphere::root(s(4.0), s(-1.0), s(1.0), s(0.01), None), Some(s(1.0)));
    assert_eq!(Sphere::root(s(4.0), s(-3.0), s(-1.0), s(0.01), None), None);
    assert_eq!(Sphere::root(s(-0.5), s(2.0), s(4.0), s(0.01), None), None);
    assert_eq!(Sphere::root(s(0.0), s(2.0), s(2.0), s(0.01), None), Some(s(2.0)));
    assert_eq!(Sphere::root(s(4.0), s(2.0), s(4.0), s(0.01), Some(s(3.0))), Some(s(2.0)));
    assert_eq!(Sphere::root(s(4.0), s(2.0), s(4.0), s(0.01), Some(s(2.0))), None);
    assert_eq!(Sphere::root(s(4.0), s(2.0), s(4.0), s(3.0), Some(s(5.0))), Some(s(4.0)));
    assert_eq!(Sphere::root(s(4.0), s(2.0), s(4.0), s(3.0), Some(s(4.0))), None);
    assert_eq!(Sphere::root(s(4.0), s(2.0), s(4.0), s(2.0), None), Some(s(2.0)));
}

#[test]
fn plane_rejects_rays_that_run_along_it() {
    assert!(Plane::accepts(s(-1.0), s(3.0), s(0.01), None));
    assert!(Plane::accepts(s(1.0), s(3.0), s(0.01), None));
    assert!(!Plane::accepts(s(0.0), s(3.0), s(0.01), None));
    assert!(!Plane::accepts(s(1e-8), s(3.0), s(0.01), None));
    assert!(!Plane::accepts(s(-1e-8), s(3.0), s(0.01), None));
    assert!(!Plane::accepts(epsilon(), s(3.0), s(0.01), None));
    assert!(Plane::accepts(s(1.2e-7), s(3.0), s(0.01), None));
    assert!(!Plane::accepts(s(1.0), s(-3.0), s(0.01), None));
    assert!(!Plane::accepts(s(1.0), s(3.0), s(0.01), Some(s(3.0))));
    assert!(Plane::accepts(s(1.0), s(3.0), s(0.01), Some(s(3.5))));
}

#[test]
fn rectangle_includes_its_border() {
    let inside = |a: f64, b: f64| {
        rect_accepts(s(1.0), s(a), s(b), s(0.0), s(2.0), s(-1.0), s(1.0), s(0.01), None)
    };
    assert!(inside(1.0, 0.0));
    assert!(inside(0.0, -1.0));
    assert!(inside(2.0, 1.0));
    assert!(!inside(-0.001, 0.0));
    assert!(!inside(2.001, 0.0));
    assert!(!inside(1.0, -1.001));
    assert!(!inside(1.0, 1.001));
    let at = |t: f64, tmax: Option<f64>| {
        rect_accepts(s(t), s(1.0), s(0.0), s(0.0), s(2.0), s(-1.0), s(1.0), s(0.01), tmax.map(s))
    };
    assert!(at(0.01, None));
    assert!(!at(0.009, None));
    assert!(!at(5.0, Some(5.0)));
    assert!(at(5.0, Some(5.1)));
}

#[test]
fn metal_absorbs_what_would_enter_the_surface() {
    assert!(Metal::scatters(s(0.5)));
    assert!(Metal::scatters(s(1e-300)));
    assert!(!Metal::scatters(s(0.0)));
    assert!(!Metal::scatters(s(-0.5)));
    assert!(!Metal::scatters(s(f64::NAN)));
}

#[test]
fn dielectric_reflects_when_it_must_or_when_the_draw_says_so() {
    // total internal reflection, whatever the draw
    assert!(Dielectric::reflects(s(1.2), s(0.99), s(0.0)));
    assert!(Dielectric::reflects(s(1.0000000000000002), s(0.99), s(0.0)));
    // refraction is possible: the draw decides
    assert!(Dielectric::reflects(s(0.8), s(0.03), s(0.04)));
    assert!(!Dielectric::reflects(s(0.8), s(0.04), s(0.04)));
    assert!(!Dielectric::reflects(s(1.0), s(0.5), s(0.04)));
    assert!(!Dielectric::reflects(s(0.8), s(0.5), s(0.04)));
}

#[test]
fn refraction_ratio_depends_on_the_face() {
    let glass = Dielectric::new(s(1.5));
    assert_eq!(glass.reflective_index, s(1.5));
    assert_eq!(Dielectric::attenuation(), v(1.0, 1.0, 1.0));
    assert_eq!(f(glass.refraction_ratio(true, s(1.0 / 1.5))), 1.0 / 1.5);
    assert_eq!(f(glass.refraction_ratio(false, s(1.0 / 1.5))), 1.5);
}

fn some_record(u: f64, w: f64) -> HitRecord {
    let r = Ray::new(v(0.0, 0.0, 5.0), v(0.0, 0.0, -1.0));
    HitRecord::new(r, s(4.0), v(0.0, 0.0, 1.0), v(0.0, 0.0, 1.0), s(-1.0), s(u), s(w), 0)
}

#[test]
fn light_emits_and_never_scatters() {
    let lamp = Light::new(v(30.0, 21.0, 11.4));
    assert_eq!(lamp.emit(s(0.3), s(0.6), v(1.0, 2.0, 3.0)), v(30.0, 21.0, 11.4));
    assert_eq!(lamp.emit(s(0.0), s(0.0), v(0.0, 0.0, 0.0)), v(30.0, 21.0, 11.4));
    let rec = some_record(0.5, 0.5);
    assert_eq!(lamp.scatter(&rec.ray, &rec), None);
    let white = Light::white();
    assert_eq!(white.emittance, v(1.0, 1.0, 1.0));
    assert_eq!(white.emit(s(0.3), s(0.6), v(1.0, 2.0, 3.0)), v(1.0, 1.0, 1.0));
}

#[test]
fn metal_without_fuzz_is_a_perfect_mirror() {
    let m = Metal::new(v(0.7, 0.6, 0.5), None);
    assert_eq!(m.albedo, v(0.7, 0.6, 0.5));
    assert_eq!(m.fuzz, s(0.0));
    let m = Metal::new(v(0.7, 0.6, 0.5), Some(s(0.25)));
    assert_eq!(m.fuzz, s(0.25));
}

#[test]
fn solid_texture_has_one_colour() {
    let t = SolidTexture::new(v(0.2, 0.3, 0.1));
    assert_eq!(t.value(s(0.0), s(0.0)), v(0.2, 0.3, 0.1));
    assert_eq!(t.value(s(0.9), s(-4.0)), v(0.2, 0.3, 0.1));
    let shared = std::sync::Arc::new(t);
    assert_eq!(shared.value(s(0.5), s(0.5)), v(0.2, 0.3, 0.1));
}

#[test]
fn checker_takes_the_odd_texture_on_negative_fields() {
    let even = SolidTexture::new(v(0.2, 0.3, 0.1));
    let odd = SolidTexture::new(v(0.9, 0.9, 0.9));
    let board = CheckerTexture::new(even, odd, s(10.0));
    assert_eq!(board.coeff, s(10.0));
    assert_eq!(board.value_of_field(s(0.5), s(0.1), s(0.1)), v(0.2, 0.3, 0.1));
    assert_eq!(board.value_of_field(s(-0.5), s(0.1), s(0.1)), v(0.9, 0.9, 0.9));
    assert_eq!(board.value_of_field(s(0.0), s(0.1), s(0.1)), v(0.2, 0.3, 0.1));
    assert_eq!(board.value_of_field(s(-0.0), s(0.1), s(0.1)), v(0.2, 0.3, 0.1));
    assert_eq!(board.value_of_field(s(f64::NAN), s(0.1), s(0.1)), v(0.2, 0.3, 0.1));
}

#[test]
fn diffuse_surface_keeps_the_colour_of_its_texture() {
    let plain = Lambertian::from_solid_color(v(0.4, 0.2, 0.1));
    assert_eq!(plain.texture.color, v(0.4, 0.2, 0.1));
    assert_eq!(plain.attenuation(&some_record(0.3, 0.7)), v(0.4, 0.2, 0.1));
    let textured = Lambertian::new(SolidTexture::new(v(0.5, 0.5, 0.5)));
    assert_eq!(textured.attenuation(&some_record(0.0, 1.0)), v(0.5, 0.5, 0.5));
    assert!(!HEMISPHERE_MODE);
}

#[test]
fn path_goes_on_with_a_draw_below_the_survival_probability() {
    let onward = Ray::new(v(0.0, 0.0, 0.0), v(0.0, 1.0, 0.0));
    let scatter = MaterialScatter { attenuation: v(0.5, 0.5, 0.5), scattered: Some(onward) };
    assert_eq!(continuation(scatter, s(0.0)), Some(onward));
    assert_eq!(continuation(scatter, s(0.69)), Some(onward));
    assert_eq!(continuation(scatter, s(0.7)), None);
    assert_eq!(continuation(scatter, s(0.99)), None);
    let absorbed = MaterialScatter { attenuation: v(0.5, 0.5, 0.5), scattered: None };
    assert_eq!(continuation(absorbed, s(0.0)), None);
    assert_eq!(continuation(absorbed, s(0.9)), None);
}

#[test]
fn survival_is_compensated_in_the_mean() {
    // A path that gathers one unit of light at each of its surfaces, with
    // light divided by the survival probability at each step, has the same
    // mean whatever that probability: here the sum of 0.5^k, which is 2.
    let onward = Ray::new(v(0.0, 0.0, 0.0), v(0.0, 1.0, 0.0));
    let scatter = MaterialScatter { attenuation: v(0.5, 0.5, 0.5), scattered: Some(onward) };
    let q = f(survival_probability());
    let mut state: u64 = 99;
    let mut total = 0.0;
    let paths = 200000;
    for _ in 0..paths {
        let mut throughput = 1.0;
        loop {
            total += throughput;
            state = state.wrapping_mul(6364136223846793005).wrapping_add(1442695040888963407);
            let draw = ((state >> 11) as f64) / ((1u64 << 53) as f64);
            match continuation(scatter, s(draw)) {
                Some(_) => throughput = throughput * 0.5 / q,
                None => break,
            }
        }
    }
    let mean = total / paths as f64;
    assert!((mean - 2.0).abs() < 0.05, "mean {}", mean);
}

#[test]
fn ray_within_the_plane_of_a_rectangle_is_no_hit() {
    // rectangle x in [0, 2], y in [0, 4] at z = 1; ray from (-1, 1, 1) along (1, 0, 0)
    let (o, d) = ([-1.0f64, 1.0, 1.0], [1.0f64, 0.0, 0.0]);
    let t = (1.0 - o[2]) / d[2];
    let a = o[0] + t * d[0];
    let b = o[1] + t * d[1];
    assert!(t.is_nan() && a.is_nan() && b.is_nan());
    assert!(!rect_accepts(s(t), s(a), s(b), s(0.0), s(2.0), s(0.0), s(4.0), s(0.01), None));
    assert!(!rect_accepts(s(t), s(a), s(b), s(0.0), s(2.0), s(0.0), s(4.0), s(0.01), Some(s(9.0))));
    // a ray along the plane, beside it: the crossing lies at infinity
    let t = (1.0 - 2.0) / d[2];
    let a = o[0] + t * d[0];
    let b = o[1] + t * d[1];
    assert!(t.is_infinite());
    assert!(!rect_accepts(s(t), s(a), s(b), s(0.0), s(2.0), s(0.0), s(4.0), s(0.01), None));
}

#[test]
fn rectangle_takes_no_crossing_that_is_not_a_number() {
    let n = f64::NAN;
    let inside = |t: f64, a: f64, b: f64| {
        rect_accepts(s(t), s(a), s(b), s(0.0), s(2.0), s(0.0), s(4.0), s(0.01), None)
    };
    assert!(inside(1.0, 1.0, 1.0));
    assert!(!inside(n, 1.0, 1.0));
    assert!(!inside(1.0, n, 1.0));
    assert!(!inside(1.0, 1.0, n));
    // nor an extent that is not a number
    assert!(!rect_accepts(s(1.0), s(1.0), s(1.0), s(n), s(2.0), s(0.0), s(4.0), s(0.01), None));
    assert!(!rect_accepts(s(1.0), s(1.0), s(1.0), s(0.0), s(2.0), s(0.0), s(n), s(0.01), None));
}

#[test]
fn triangle_takes_no_parameter_that_is_not_a_number() {
    let n = f64::NAN;
    let e = s(1.0);
    assert!(Triangle::accepts(e, s(0.2), s(0.2), s(0.4), s(1.0), s(0.01), None));
    assert!(!Triangle::accepts(s(n), s(0.2), s(0.2), s(0.4), s(1.0), s(0.01), None));
    assert!(!Triangle::accepts(e, s(n), s(0.2), s(0.4), s(1.0), s(0.01), None));
    assert!(!Triangle::accepts(e, s(0.2), s(n), s(0.4), s(1.0), s(0.01), None));
    assert!(!Triangle::accepts(e, s(0.2), s(0.2), s(n), s(1.0), s(0.01), None));
    assert!(!Triangle::accepts(e, s(0.2), s(0.2), s(0.4), s(n), s(0.01), None));
    // a degenerate triangle: every number of the test is a NaN or infinite
    let (det, u, v_, t) = triangle_numbers(
        [0.0, 0.0, 0.0],
        [1.0, 0.0, 0.0],
        [2.0, 0.0, 0.0],
        [0.25, 0.25, 1.0],
        [0.0, 0.0, -1.0],
    );
    assert_eq!(det, 0.0);
    assert!(!Triangle::accepts(s(det), s(u), s(v_), s(u + v_), s(t), s(0.01), None));
}

#[test]
fn sphere_and_plane_take_nothing_that_is_not_a_number() {
    let n = f64::NAN;
    assert_eq!(Sphere::root(s(n), s(2.0), s(4.0), s(0.01), None), None);
    assert_eq!(Sphere::root(s(4.0), s(n), s(4.0), s(0.01), None), Some(s(4.0)));
    assert_eq!(Sphere::root(s(4.0), s(n), s(n), s(0.01), None), None);
    assert_eq!(Sphere::root(s(4.0), s(2.0), s(n), s(3.0), None), None);
    // a ray without a direction: the quadratic has no roots
    let (a, b, c) = (0.0f64, 0.0f64, 3.0f64);
    let discriminant = b * b - 4.0 * a * c;
    let t1 = (-b - discriminant.sqrt()) / (2.0 * a);
    let t2 = (-b + discriminant.sqrt()) / (2.0 * a);
    assert_eq!(Sphere::root(s(discriminant), s(t1), s(t2), s(0.01), None), None);
    assert!(!Plane::accepts(s(n), s(3.0), s(0.01), None));
    assert!(!Plane::accepts(s(1.0), s(n), s(0.01), None));
    assert!(!Plane::accepts(s(0.0), s(f64::INFINITY), s(0.01), None));
}

#[test]
fn path_ends_with_the_background_where_nothing_is_hit() {
    let onward = Ray::new(v(0.0, 0.0, 0.0), v(0.0, 1.0, 0.0));
    let scatter = MaterialScatter { attenuation: v(0.5, 0.5, 0.5), scattered: Some(onward) };
    assert_eq!(path_step(false, None, s(0.0)), PathStep::Background);
    assert_eq!(path_step(false, Some(scatter), s(0.0)), PathStep::Background);
}

#[test]
fn path_ends_with_the_emission_or_goes_on() {
    let onward = Ray::new(v(0.0, 0.0, 0.0), v(0.0, 1.0, 0.0));
    let scatter = MaterialScatter { attenuation: v(0.5, 0.25, 1.0), scattered: Some(onward) };
    let absorbed = MaterialScatter { attenuation: v(0.5, 0.25, 1.0), scattered: None };
    assert_eq!(path_step(true, None, s(0.0)), PathStep::Emission);
    assert_eq!(path_step(true, Some(absorbed), s(0.0)), PathStep::Emission);
    assert_eq!(path_step(true, Some(scatter), s(0.7)), PathStep::Emission);
    assert_eq!(path_step(true, Some(scatter), s(0.99)), PathStep::Emission);
    assert_eq!(path_step(true, Some(scatter), s(f64::NAN)), PathStep::Emission);
    let goes_on = PathStep::Scattered { ray: onward, attenuation: v(0.5, 0.25, 1.0) };
    assert_eq!(path_step(true, Some(scatter), s(0.0)), goes_on);
    assert_eq!(path_step(true, Some(scatter), s(0.6999)), goes_on);
}

#[test]
fn sample_is_mirrored_into_the_half_about_the_normal() {
    let sample = v(0.6, -0.8, 0.0);
    assert_eq!(random_unit_hemisphere(sample, s(0.3)), sample);
    assert_eq!(random_unit_hemisphere(sample, s(1e-300)), sample);
    assert_eq!(random_unit_hemisphere(sample, s(-0.3)), v(-0.6, 0.8, -0.0));
    assert_eq!(random_unit_hemisphere(sample, s(0.0)), v(-0.6, 0.8, -0.0));
}
