// Vector algebra, intersection and shading on concrete values.
// Coordinates are fixed-point: an i64 component holds tenths of a unit,
// so Vector3::new(10, 20, 40) is the point (1, 2, 4).

use raysphere::vec3::Vector3;
use raysphere::geom::{Ray, Sphere, intersect, intersects};
use raysphere::shade::{Pixel, shade};

#[test]
fn point_subtraction() {
    let a = Vector3::new(10, 20, 40);
    let b = Vector3::new(20, 0, 20);
    let actual = a.sub(b);
    let correct = Vector3::new(-10, 20, 20);
    assert_eq!(actual, correct);
}

#[test]
fn point_equality() {
    let a = Vector3::new(10, 20, 40);
    let b = Vector3::new(10, 20, 40);
    assert_eq!(a, b);
}

#[test]
fn point_equality_is_exact() {
    // No tolerance: the smallest representable difference in one
    // component already makes the vectors unequal.
    let a = Vector3::new(10, 20, 41);
    let b = Vector3::new(10, 20, 40);
    assert_ne!(a, b);
    // approx_eq is the separate, named operation for tolerant comparison.
    assert!(a.approx_eq(b, 1));
    assert!(!a.approx_eq(b, 0));
}

#[test]
fn approx_eq_componentwise() {
    let a = Vector3::new(10, 20, 40);
    let b = Vector3::new(12, 19, 40);
    assert!(a.approx_eq(b, 2));
    assert!(!a.approx_eq(b, 1));
}

#[test]
fn vector_add_and_scale() {
    let a = Vector3::new(10, 20, 30);
    let b = Vector3::new(5, 0, -10);
    assert_eq!(a.add(b), Vector3::new(15, 20, 20));
    assert_eq!(a.scale(3), Vector3::new(30, 60, 90));
}

#[test]
fn dot_bilinearity() {
    // dot(a, b + c) == dot(a, b) + dot(a, c), and
    // dot(k * a, b) == k * dot(a, b): exact on these integer components.
    let a = Vector3::new(10, 20, 30);
    let b = Vector3::new(5, 0, -10);
    let c = Vector3::new(1, 2, 3);
    let k: i64 = 7;
    assert_eq!(a.dot(b.add(c)), a.dot(b) + a.dot(c));
    assert_eq!(a.scale(k).dot(b), k * a.dot(b));
}

#[test]
fn magnitude_of_origin_is_zero() {
    assert_eq!(Vector3::origin().magnitude(), 0);
}

#[test]
fn magnitude_values() {
    // (3, 0, 4) has magnitude exactly 5.
    assert_eq!(Vector3::new(30, 0, 40).magnitude(), 50);
    // (1, 1, 0): sqrt(2.00) floors to 1.4.
    assert_eq!(Vector3::new(10, 10, 0).magnitude(), 14);
    assert!(Vector3::new(-10, -20, 5).magnitude() >= 0);
}

#[test]
fn simple_intersection() {
    let sphere = Sphere { c: Vector3::new(0, 0, -80), r: 20 };
    let ray = Ray { e: Vector3::new(0, 0, 0), d: Vector3::new(0, 0, -10) };
    assert_eq!(intersects(&ray, &sphere), true);
}

#[test]
fn intersection_hit_parameter() {
    // Sphere at z = -8 with radius 2, ray along -z from the origin:
    // roots 10 and 6 (units); the smallest non-negative, t = 6.0, comes
    // back.
    let sphere = Sphere { c: Vector3::new(0, 0, -80), r: 20 };
    let ray = Ray { e: Vector3::new(0, 0, 0), d: Vector3::new(0, 0, -10) };
    assert_eq!(intersect(&ray, &sphere), Some(60));
}

#[test]
fn no_intersection() {
    // Sphere wholly behind the camera at z = 8, radius 2: the line meets
    // it, but both roots (-6 and -10) are negative, so there is no hit.
    let sphere = Sphere { c: Vector3::new(0, 0, 80), r: 20 };
    let ray = Ray { e: Vector3::new(0, 0, 0), d: Vector3::new(0, 0, -10) };
    assert_eq!(intersects(&ray, &sphere), false);
    assert_eq!(intersect(&ray, &sphere), None);
}

#[test]
fn no_intersection_small_radius() {
    // Radius small enough (0.1) that the discriminant, 0.04, stays below
    // the tolerance 0.1: no hit from the discriminant test alone.
    let sphere = Sphere { c: Vector3::new(0, 0, 80), r: 1 };
    let ray = Ray { e: Vector3::new(0, 0, 0), d: Vector3::new(0, 0, -10) };
    assert_eq!(intersects(&ray, &sphere), false);
}

#[test]
fn intersection_from_inside() {
    // Ray origin at the sphere's center, radius 10: roots -10 and +10.
    // The smallest non-negative root, the exit point at t = 10.0, comes
    // back — never the hit behind the camera, which has the same
    // magnitude.
    let sphere = Sphere { c: Vector3::new(0, 0, 0), r: 100 };
    let ray = Ray { e: Vector3::new(0, 0, 0), d: Vector3::new(0, 0, -10) };
    assert_eq!(intersect(&ray, &sphere), Some(100));
}

#[test]
fn no_intersection_off_axis() {
    // Sphere well off the ray's line: negative discriminant.
    let sphere = Sphere { c: Vector3::new(30, 0, -80), r: 20 };
    let ray = Ray { e: Vector3::new(0, 0, 0), d: Vector3::new(0, 0, -10) };
    assert_eq!(intersects(&ray, &sphere), false);
}

#[test]
fn tangent_single_root() {
    // A = 0.01, B = -0.4, C = 1.5: discriminant 0.16 - 0.06 = 0.10,
    // exactly the tolerance, so the single-root branch returns
    // t = -B / (2A) = 20.0.
    let sphere = Sphere { c: Vector3::new(-7, -5, -20), r: 18 };
    let ray = Ray { e: Vector3::new(0, 0, 0), d: Vector3::new(0, 0, -1) };
    assert_eq!(intersect(&ray, &sphere), Some(200));
}

#[test]
fn degenerate_direction_no_hit() {
    // A zero direction makes A = B = 0 and the discriminant 0: no hit,
    // and no division by zero.
    let sphere = Sphere { c: Vector3::new(0, 0, -80), r: 20 };
    let ray = Ray { e: Vector3::new(0, 0, 0), d: Vector3::new(0, 0, 0) };
    assert_eq!(intersect(&ray, &sphere), None);
}

#[test]
fn shade_miss_is_background() {
    let sphere = Sphere { c: Vector3::new(0, 0, -4000), r: 1000 };
    assert_eq!(shade(None, &sphere), Pixel { r: 0, g: 0, b: 0 });
}

#[test]
fn shade_behind_camera_is_background() {
    // The intersector never reports a negative parameter, but the shader's
    // own policy for one — handed in directly — is background.
    let sphere = Sphere { c: Vector3::new(0, 0, -4000), r: 1000 };
    assert_eq!(shade(Some(-50), &sphere), Pixel { r: 0, g: 0, b: 0 });
}

#[test]
fn shade_exact_value() {
    // t = 300, |cz| = 400: r = floor(255 * sqrt(300/400)) = 220,
    // g = b = floor(155 * sqrt(300/400)) = 134.
    let sphere = Sphere { c: Vector3::new(0, 0, -4000), r: 1000 };
    assert_eq!(shade(Some(3000), &sphere), Pixel { r: 220, g: 134, b: 134 });
}

#[test]
fn shade_clamps_to_255() {
    // t = 400, |cz| = 1: sqrt(400) = 20, so 255 * 20 and 155 * 20 both
    // exceed the channel range and clamp to 255.
    let sphere = Sphere { c: Vector3::new(0, 0, -10), r: 5 };
    assert_eq!(shade(Some(4000), &sphere), Pixel { r: 255, g: 255, b: 255 });
}

#[test]
fn shade_center_on_camera_plane_saturates() {
    // cz = 0 would divide by zero in the real formula; the explicit
    // decision is full brightness.
    let sphere = Sphere { c: Vector3::new(0, 0, 0), r: 10 };
    assert_eq!(shade(Some(10), &sphere), Pixel { r: 255, g: 255, b: 255 });
}
