//! The 3-component vector type and its algebra.
//!
//! A component stores tenths of a scene unit, so `Vector3 { x: 10, y: 20,
//! z: 40 }` is the point (1, 2, 4). Equality is exact component comparison —
//! no tolerance is applied anywhere; `approx_eq` is the separate, named
//! operation for comparisons within a tolerance.

use vstd::prelude::*;
use crate::math::{is_sqrt, iabs, isqrt_u128};

verus! {

/// Mathematical model of a vector: three unbounded integers.
pub ghost struct V3 {
    pub x: int,
    pub y: int,
    pub z: int,
}

/// A point or direction; the two are used interchangeably.
/// Components are fixed-point: an `i64` holding tenths of a unit.
#[derive(Clone, Copy, Debug, PartialEq, Eq, Structural)]
pub struct Vector3 {
    pub x: i64,
    pub y: i64,
    pub z: i64,
}

impl View for Vector3 {
    type V = V3;

    open spec fn view(&self) -> V3 {
        V3 { x: self.x as int, y: self.y as int, z: self.z as int }
    }
}

/// Component-wise sum.
pub open spec fn add_v(a: V3, b: V3) -> V3 {
    V3 { x: a.x + b.x, y: a.y + b.y, z: a.z + b.z }
}

/// Component-wise difference.
pub open spec fn sub_v(a: V3, b: V3) -> V3 {
    V3 { x: a.x - b.x, y: a.y - b.y, z: a.z - b.z }
}

/// Every component scaled by `k`.
pub open spec fn scale_v(a: V3, k: int) -> V3 {
    V3 { x: k * a.x, y: k * a.y, z: k * a.z }
}

/// Dot product.
pub open spec fn dot_v(a: V3, b: V3) -> int {
    a.x * b.x + a.y * b.y + a.z * b.z
}

/// Components small enough that every intermediate of the intersection
/// test fits its machine integer: at most 100,000 units either way.
pub const COORD_BOUND: i64 = 1_000_000;

/// The vector's components all lie within `COORD_BOUND`.
pub open spec fn in_range(v: V3) -> bool {
    &&& -(COORD_BOUND as int) <= v.x <= COORD_BOUND as int
    &&& -(COORD_BOUND as int) <= v.y <= COORD_BOUND as int
    &&& -(COORD_BOUND as int) <= v.z <= COORD_BOUND as int
}

/// Dot product distributes over vector addition on the right:
/// `dot(a, b + c) == dot(a, b) + dot(a, c)`.
pub proof fn lemma_dot_right_add(a: V3, b: V3, c: V3)
    ensures
        dot_v(a, add_v(b, c)) == dot_v(a, b) + dot_v(a, c),
{
    assert(a.x * (b.x + c.x) == a.x * b.x + a.x * c.x) by (nonlinear_arith);
    assert(a.y * (b.y + c.y) == a.y * b.y + a.y * c.y) by (nonlinear_arith);
    assert(a.z * (b.z + c.z) == a.z * b.z + a.z * c.z) by (nonlinear_arith);
}

/// Scalars move out of a dot product: `dot(k * a, b) == k * dot(a, b)`.
pub proof fn lemma_dot_scale_left(a: V3, b: V3, k: int)
    ensures
        dot_v(scale_v(a, k), b) == k * dot_v(a, b),
{
    assert((k * a.x) * b.x == k * (a.x * b.x)) by (nonlinear_arith);
    assert((k * a.y) * b.y == k * (a.y * b.y)) by (nonlinear_arith);
    assert((k * a.z) * b.z == k * (a.z * b.z)) by (nonlinear_arith);
    let p = a.x * b.x;
    let q = a.y * b.y;
    let s = a.z * b.z;
    assert(k * (p + q + s) == k * p + k * q + k * s) by (nonlinear_arith);
}

/// A vector dotted with itself is nonnegative, and zero only for the
/// zero vector.
pub proof fn lemma_dot_self(v: V3)
    ensures
        dot_v(v, v) >= 0,
        dot_v(v, v) == 0 ==> v.x == 0 && v.y == 0 && v.z == 0,
{
    assert(v.x * v.x >= 0 && (v.x * v.x == 0 ==> v.x == 0)) by (nonlinear_arith);
    assert(v.y * v.y >= 0 && (v.y * v.y == 0 ==> v.y == 0)) by (nonlinear_arith);
    assert(v.z * v.z >= 0 && (v.z * v.z == 0 ==> v.z == 0)) by (nonlinear_arith);
}

/// Products of bounded factors are bounded: used to discharge overflow
/// obligations throughout the geometry.
pub proof fn lemma_mul_bound(x: int, y: int, mx: int, my: int)
    requires
        -mx <= x <= mx,
        -my <= y <= my,
        0 <= mx,
        0 <= my,
    ensures
        -(mx * my) <= x * y <= mx * my,
{
    assert(-(mx * my) <= x * y <= mx * my) by (nonlinear_arith)
        requires
            -mx <= x <= mx,
            -my <= y <= my,
            0 <= mx,
            0 <= my,
    ;
}

impl Vector3 {
    /// The vector with the given fixed-point components (tenths of a unit).
    pub fn new(x: i64, y: i64, z: i64) -> (v: Vector3)
        ensures
            v@ == (V3 { x: x as int, y: y as int, z: z as int }),
    {
        Vector3 { x, y, z }
    }

    /// The zero vector.
    pub fn origin() -> (v: Vector3)
        ensures
            v@ == (V3 { x: 0, y: 0, z: 0 }),
    {
        Vector3 { x: 0, y: 0, z: 0 }
    }

    /// Component-wise sum.
    pub fn add(self, other: Vector3) -> (r: Vector3)
        requires
            i64::MIN <= self@.x + other@.x <= i64::MAX,
            i64::MIN <= self@.y + other@.y <= i64::MAX,
            i64::MIN <= self@.z + other@.z <= i64::MAX,
        ensures
            r@ == add_v(self@, other@),
    {
        Vector3 { x: self.x + other.x, y: self.y + other.y, z: self.z + other.z }
    }

    /// Component-wise difference.
    pub fn sub(self, other: Vector3) -> (r: Vector3)
        requires
            i64::MIN <= self@.x - other@.x <= i64::MAX,
            i64::MIN <= self@.y - other@.y <= i64::MAX,
            i64::MIN <= self@.z - other@.z <= i64::MAX,
        ensures
            r@ == sub_v(self@, other@),
    {
        Vector3 { x: self.x - other.x, y: self.y - other.y, z: self.z - other.z }
    }

    /// Every component scaled by `k`.
    pub fn scale(self, k: i64) -> (r: Vector3)
        requires
            i64::MIN <= k * self@.x <= i64::MAX,
            i64::MIN <= k * self@.y <= i64::MAX,
            i64::MIN <= k * self@.z <= i64::MAX,
        ensures
            r@ == scale_v(self@, k as int),
    {
        Vector3 { x: k * self.x, y: k * self.y, z: k * self.z }
    }

    /// Dot product.
    pub fn dot(self, other: Vector3) -> (r: i64)
        requires
            in_range(self@),
            in_range(other@),
        ensures
            r as int == dot_v(self@, other@),
    {
        proof {
            lemma_mul_bound(self@.x, other@.x, COORD_BOUND as int, COORD_BOUND as int);
            lemma_mul_bound(self@.y, other@.y, COORD_BOUND as int, COORD_BOUND as int);
            lemma_mul_bound(self@.z, other@.z, COORD_BOUND as int, COORD_BOUND as int);
        }
        self.x * other.x + self.y * other.y + self.z * other.z
    }

    /// Fixed-point magnitude: the floor of the real `sqrt(dot(v, v))`,
    /// again in tenths of a unit. Never negative.
    pub fn magnitude(self) -> (r: i64)
        requires
            in_range(self@),
        ensures
            r >= 0,
            is_sqrt(dot_v(self@, self@), r as int),
    {
        proof {
            lemma_dot_self(self@);
            lemma_mul_bound(self@.x, self@.x, COORD_BOUND as int, COORD_BOUND as int);
            lemma_mul_bound(self@.y, self@.y, COORD_BOUND as int, COORD_BOUND as int);
            lemma_mul_bound(self@.z, self@.z, COORD_BOUND as int, COORD_BOUND as int);
        }
        let d = self.dot(self);
        let r = isqrt_u128(d as u128);
        proof {
            assert((r as int) * (r as int) <= 3_000_000_000_000);
            assert(r as int <= 2_000_000) by (nonlinear_arith)
                requires
                    r as int >= 0,
                    (r as int) * (r as int) <= 3_000_000_000_000,
            ;
        }
        r as i64
    }

    /// Comparison within a tolerance, component-wise: true when every
    /// component of `self` is within `tol` of the matching component of
    /// `other`. The separate named operation for callers that need a
    /// tolerance; `==` itself stays exact.
    pub fn approx_eq(self, other: Vector3, tol: i64) -> (r: bool)
        requires
            tol >= 0,
            in_range(self@),
            in_range(other@),
            -(COORD_BOUND as int) <= tol as int <= COORD_BOUND as int,
        ensures
            r == (iabs(self@.x - other@.x) <= tol
                && iabs(self@.y - other@.y) <= tol
                && iabs(self@.z - other@.z) <= tol),
    {
        let dx = self.x - other.x;
        let dy = self.y - other.y;
        let dz = self.z - other.z;
        let ax = if dx < 0 { -dx } else { dx };
        let ay = if dy < 0 { -dy } else { dy };
        let az = if dz < 0 { -dz } else { dz };
        ax <= tol && ay <= tol && az <= tol
    }
}

} // verus!
