//! Shading: a hit distance becomes a grayscale-with-red-bias pixel.
//!
//! A hit at parameter `t` is shaded as `k * sqrt(t / |cz|)` per channel,
//! where `cz` is the sphere center's z coordinate, `k` is 255 for red and
//! 155 for green and blue, and the value is truncated to an integer and
//! clamped to `[0, 255]`. With `t` and `cz` both in tenths of a unit their
//! quotient is the real ratio, and the floor of `k * sqrt(t / |cz|)` is
//! computed exactly as `isqrt(k^2 * t * |cz|) / |cz|`. Two explicit choices
//! where the real formula is undefined or out of range: a hit behind the
//! camera (`t < 0`) shades as background, and a sphere centered on the
//! camera plane (`cz == 0`) saturates every channel.

use vstd::prelude::*;
use crate::math::{sqrt_floor, lemma_sqrt_floor, lemma_sqrt_unique, iabs, isqrt_u128};
use crate::vec3::{lemma_mul_bound, COORD_BOUND};
use crate::geom::{Sphere, SphereV, sphere_in_range, opt_hit, HIT_BOUND};

verus! {

/// One image cell: red, green and blue in `[0, 255]`.
/// The default, background value is black, `{0, 0, 0}`.
#[derive(Clone, Copy, Debug, PartialEq, Eq, Structural)]
pub struct Pixel {
    pub r: u8,
    pub g: u8,
    pub b: u8,
}

/// Value of one channel with scale `k`: the floor of `k * sqrt(t / |cz|)`,
/// clamped to `[0, 255]`; 0 for a parameter behind the camera, saturated
/// for `cz == 0`.
pub open spec fn channel_v(k: int, t: int, cz: int) -> int {
    let c = iabs(cz);
    if t <= 0 {
        0
    } else if c == 0 {
        255
    } else {
        let q = sqrt_floor(k * k * t * c) / c;
        if q > 255 {
            255
        } else {
            q
        }
    }
}

/// The full pixel for a hit (or its absence), as `(r, g, b)`.
pub open spec fn shade_v(hit: Option<int>, s: SphereV) -> (int, int, int) {
    match hit {
        None => (0, 0, 0),
        Some(t) => (
            channel_v(255, t, s.c.z),
            channel_v(155, t, s.c.z),
            channel_v(155, t, s.c.z),
        ),
    }
}

fn channel(k: u64, t: i64, cz: i64) -> (v: u8)
    requires
        1 <= k <= 255,
        -HIT_BOUND <= t <= HIT_BOUND,
        -(COORD_BOUND as int) <= cz as int <= COORD_BOUND as int,
    ensures
        v as int == channel_v(k as int, t as int, cz as int),
{
    if t <= 0 {
        return 0;
    }
    let c: u128 = if cz < 0 { (-cz) as u128 } else { cz as u128 };
    if c == 0 {
        return 255;
    }
    proof {
        lemma_mul_bound(k as int, k as int, 255, 255);
    }
    let kk: u128 = (k as u128) * (k as u128);
    proof {
        lemma_mul_bound(kk as int, t as int, 65_025, HIT_BOUND as int);
    }
    let p1: u128 = kk * (t as u128);
    proof {
        lemma_mul_bound(p1 as int, c as int, 27_000_000_000_000_000_000, COORD_BOUND as int);
    }
    let p2: u128 = p1 * c;
    let s = isqrt_u128(p2);
    let ghost sf = sqrt_floor(p2 as int);
    proof {
        lemma_sqrt_floor(p2 as int);
        lemma_sqrt_unique(p2 as int, s as int, sf);
    }
    let q = s / c;
    if q > 255 {
        255
    } else {
        q as u8
    }
}

/// The pixel for an intersection outcome: background black for a miss,
/// the channel formula above for a hit.
pub fn shade(hit: Option<i64>, sphere: &Sphere) -> (p: Pixel)
    requires
        sphere_in_range(sphere@),
        hit matches Some(t) ==> -HIT_BOUND <= t <= HIT_BOUND,
    ensures
        (p.r as int, p.g as int, p.b as int) == shade_v(opt_hit(hit), sphere@),
{
    match hit {
        None => Pixel { r: 0, g: 0, b: 0 },
        Some(t) => Pixel {
            r: channel(255, t, sphere.c.z),
            g: channel(155, t, sphere.c.z),
            b: channel(155, t, sphere.c.z),
        },
    }
}

} // verus!
