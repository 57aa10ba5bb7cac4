//! Ray and sphere, and the discriminant-based intersection test.
//!
//! All quantities are exact integers. With coordinates in tenths of a unit,
//! the quadratic coefficients `A`, `B`, `C` carry a scale of 1/100 and the
//! discriminant `B^2 - 4AC` a scale of 1/10,000, so the tolerance 0.1 against
//! which the discriminant is compared is exactly the integer 1,000 at that
//! scale. The returned parameter `t` is again in tenths.

use vstd::prelude::*;
use crate::vec3::{V3, Vector3, sub_v, dot_v, in_range, lemma_dot_self, lemma_mul_bound};
use crate::vec3::COORD_BOUND;
use crate::math::{is_sqrt, sqrt_floor, lemma_sqrt_floor, lemma_sqrt_unique};
use crate::math::{div_tz, lemma_div_tz_bound, lemma_div_tz_monotone, isqrt_u128, div_trunc_i128};

verus! {

/// Mathematical model of a ray: origin and direction.
pub ghost struct RayV {
    pub e: V3,
    pub d: V3,
}

/// Mathematical model of a sphere: center and radius.
pub ghost struct SphereV {
    pub c: V3,
    pub r: int,
}

/// Origin point `e` plus direction `d`; the ray is `e + t * d` for `t >= 0`.
#[derive(Clone, Copy, Debug)]
pub struct Ray {
    pub e: Vector3,
    pub d: Vector3,
}

/// Center `c` plus radius `r` (radius in tenths of a unit, like coordinates).
#[derive(Clone, Copy, Debug)]
pub struct Sphere {
    pub c: Vector3,
    pub r: i64,
}

impl View for Ray {
    type V = RayV;

    open spec fn view(&self) -> RayV {
        RayV { e: self.e@, d: self.d@ }
    }
}

impl View for Sphere {
    type V = SphereV;

    open spec fn view(&self) -> SphereV {
        SphereV { c: self.c@, r: self.r as int }
    }
}

/// Both of the ray's vectors lie within the coordinate bound.
pub open spec fn ray_in_range(r: RayV) -> bool {
    in_range(r.e) && in_range(r.d)
}

/// Center and radius lie within the coordinate bound.
pub open spec fn sphere_in_range(s: SphereV) -> bool {
    in_range(s.c) && -(COORD_BOUND as int) <= s.r <= COORD_BOUND as int
}

/// Leading quadratic coefficient: `A = dot(d, d)`.
pub open spec fn quad_a(r: RayV, s: SphereV) -> int {
    dot_v(r.d, r.d)
}

/// Linear quadratic coefficient: `B = dot(2 * d, e - c)`.
pub open spec fn quad_b(r: RayV, s: SphereV) -> int {
    2 * dot_v(r.d, sub_v(r.e, s.c))
}

/// Constant quadratic coefficient: `C = dot(e - c, e - c) - r^2`.
pub open spec fn quad_c(r: RayV, s: SphereV) -> int {
    dot_v(sub_v(r.e, s.c), sub_v(r.e, s.c)) - s.r * s.r
}

/// The discriminant `B^2 - 4 * A * C` of the intersection quadratic.
pub open spec fn discriminant(r: RayV, s: SphereV) -> int {
    quad_b(r, s) * quad_b(r, s) - 4 * (quad_a(r, s) * quad_c(r, s))
}

/// The tolerance 0.1, at the discriminant's fixed-point scale of 1/10,000.
pub const DISC_EPS: i128 = 1000;

/// Every `t` the intersection test can return lies within this bound
/// (tenths of a unit), well inside `i64`.
pub const HIT_BOUND: i64 = 400_000_000_000_000;

/// The parameter at which the ray first meets the sphere in front of the
/// camera, or `None`.
///
/// Case analysis on the discriminant `D` against the tolerance: below it
/// (all misses and near-misses) there is no hit; above it the two roots
/// `(-B +- sqrt(D)) / (2A)` are formed with the floor square root and
/// truncating division, and the smallest non-negative root is returned — a
/// root behind the camera (negative `t`) never counts as a hit, so a sphere
/// wholly behind the camera, with both roots negative, yields `None`.
/// Exactly at the tolerance the single root `-B / (2A)` is returned under
/// the same front-of-camera filter. Deliberate policy choice: selecting the
/// root of smaller magnitude instead would report hits behind the camera
/// and, from inside the sphere, could prefer the hit behind to the one in
/// front. Because `t2 <= t1` always (`lemma_hit_roots_ordered`), testing
/// `t2` first does pick the smallest non-negative root.
/// A degenerate direction (`A == 0`) forces `B == 0` and `D == 0`, so it
/// falls into the first case: no hit, and no division by zero.
pub open spec fn hit_param(r: RayV, s: SphereV) -> Option<int> {
    let a = quad_a(r, s);
    let b = quad_b(r, s);
    let d = discriminant(r, s);
    if d < DISC_EPS as int {
        None
    } else if d > DISC_EPS as int {
        let sq = sqrt_floor(d);
        let t1 = div_tz(10 * (-b + sq), 2 * a);
        let t2 = div_tz(10 * (-b - sq), 2 * a);
        if t2 >= 0 {
            Some(t2)
        } else if t1 >= 0 {
            Some(t1)
        } else {
            None
        }
    } else {
        let t = div_tz(10 * -b, 2 * a);
        if t >= 0 {
            Some(t)
        } else {
            None
        }
    }
}

/// In the two-root case the root formed with `-sqrt(D)` never exceeds the
/// root formed with `+sqrt(D)` (the leading coefficient is positive), so
/// `hit_param` tests the smaller root first.
pub proof fn lemma_hit_roots_ordered(r: RayV, s: SphereV)
    requires
        quad_a(r, s) > 0,
        discriminant(r, s) >= 0,
    ensures
        div_tz(10 * (-quad_b(r, s) - sqrt_floor(discriminant(r, s))), 2 * quad_a(r, s))
            <= div_tz(10 * (-quad_b(r, s) + sqrt_floor(discriminant(r, s))), 2 * quad_a(r, s)),
{
    let b = quad_b(r, s);
    let d = discriminant(r, s);
    lemma_sqrt_floor(d);
    let sq = sqrt_floor(d);
    assert(sq >= 0);
    lemma_div_tz_monotone(10 * (-b - sq), 10 * (-b + sq), 2 * quad_a(r, s));
}

/// A reported hit is never behind the camera: whatever `hit_param` returns
/// is non-negative.
pub proof fn lemma_hit_param_front(r: RayV, s: SphereV)
    ensures
        hit_param(r, s) matches Some(t) ==> t >= 0,
{
}

/// The exec-level hit, as a spec value.
pub open spec fn opt_hit(o: Option<i64>) -> Option<int> {
    match o {
        None => None::<int>,
        Some(t) => Some(t as int),
    }
}

/// Where the ray first meets the sphere in front of the camera: `Some(t)`
/// with `t` in tenths of a unit, or `None`. Computes exactly `hit_param`
/// of the models.
pub fn intersect(ray: &Ray, sphere: &Sphere) -> (res: Option<i64>)
    requires
        ray_in_range(ray@),
        sphere_in_range(sphere@),
    ensures
        opt_hit(res) == hit_param(ray@, sphere@),
        res matches Some(t) ==> 0 <= t <= HIT_BOUND,
{
    let dx = ray.d.x as i128;
    let dy = ray.d.y as i128;
    let dz = ray.d.z as i128;
    let ocx = ray.e.x as i128 - sphere.c.x as i128;
    let ocy = ray.e.y as i128 - sphere.c.y as i128;
    let ocz = ray.e.z as i128 - sphere.c.z as i128;
    let rr = sphere.r as i128;
    proof {
        lemma_mul_bound(dx as int, dx as int, 1_000_000, 1_000_000);
        lemma_mul_bound(dy as int, dy as int, 1_000_000, 1_000_000);
        lemma_mul_bound(dz as int, dz as int, 1_000_000, 1_000_000);
        lemma_mul_bound(dx as int, ocx as int, 1_000_000, 2_000_000);
        lemma_mul_bound(dy as int, ocy as int, 1_000_000, 2_000_000);
        lemma_mul_bound(dz as int, ocz as int, 1_000_000, 2_000_000);
        lemma_mul_bound(ocx as int, ocx as int, 2_000_000, 2_000_000);
        lemma_mul_bound(ocy as int, ocy as int, 2_000_000, 2_000_000);
        lemma_mul_bound(ocz as int, ocz as int, 2_000_000, 2_000_000);
        lemma_mul_bound(rr as int, rr as int, 1_000_000, 1_000_000);
    }
    let a = dx * dx + dy * dy + dz * dz;
    let b = 2 * (dx * ocx + dy * ocy + dz * ocz);
    let cc = (ocx * ocx + ocy * ocy + ocz * ocz) - rr * rr;
    proof {
        lemma_mul_bound(b as int, b as int, 12_000_000_000_000, 12_000_000_000_000);
        lemma_mul_bound(a as int, cc as int, 3_000_000_000_000, 13_000_000_000_000);
        assert(a as int == quad_a(ray@, sphere@));
        assert(b as int == quad_b(ray@, sphere@));
        assert(cc as int == quad_c(ray@, sphere@));
    }
    let disc = b * b - 4 * (a * cc);
    proof {
        assert(disc as int == discriminant(ray@, sphere@));
    }
    if disc < DISC_EPS {
        None
    } else {
        proof {
            lemma_dot_self(ray@.d);
            if a == 0 {
                assert(ray@.d.x == 0 && ray@.d.y == 0 && ray@.d.z == 0);
                assert(dx as int * ocx as int == 0 && dy as int * ocy as int == 0
                    && dz as int * ocz as int == 0) by (nonlinear_arith)
                    requires
                        dx as int == 0,
                        dy as int == 0,
                        dz as int == 0,
                ;
                assert(b as int == 0);
                assert(b as int * b as int == 0 && a as int * cc as int == 0)
                    by (nonlinear_arith)
                    requires
                        b as int == 0,
                        a as int == 0,
                ;
                assert(disc as int == 0);
                assert(false);
            }
        }
        let two_a = 2 * a;
        if disc > DISC_EPS {
            let sq_u = isqrt_u128(disc as u128);
            let ghost sf = sqrt_floor(disc as int);
            proof {
                lemma_sqrt_floor(disc as int);
                lemma_sqrt_unique(disc as int, sq_u as int, sf);
                assert(sq_u as int <= 20_000_000_000_000) by (nonlinear_arith)
                    requires
                        sq_u as int >= 0,
                        (sq_u as int) * (sq_u as int)
                            <= 400_000_000_000_000_000_000_000_000int,
                ;
            }
            let sq = sq_u as i128;
            let num1 = 10 * (-b + sq);
            let num2 = 10 * (-b - sq);
            let t1 = div_trunc_i128(num1, two_a);
            let t2 = div_trunc_i128(num2, two_a);
            proof {
                lemma_div_tz_bound(num1 as int, two_a as int);
                lemma_div_tz_bound(num2 as int, two_a as int);
            }
            if t2 >= 0 {
                Some(t2 as i64)
            } else if t1 >= 0 {
                Some(t1 as i64)
            } else {
                None
            }
        } else {
            let num = 10 * -b;
            let t = div_trunc_i128(num, two_a);
            proof {
                lemma_div_tz_bound(num as int, two_a as int);
            }
            if t >= 0 {
                Some(t as i64)
            } else {
                None
            }
        }
    }
}

/// Whether the ray meets the sphere at all, by the same case analysis.
pub fn intersects(ray: &Ray, sphere: &Sphere) -> (res: bool)
    requires
        ray_in_range(ray@),
        sphere_in_range(sphere@),
    ensures
        res == (hit_param(ray@, sphere@) is Some),
{
    intersect(ray, sphere).is_some()
}

} // verus!
