//! The renderer: one ray per grid cell, orthographic along -z.
//!
//! The grid is `height` rows by `width` columns. The ray for cell `(x, y)`
//! starts at `(x - width/2, y - height/2, 0)` on the camera plane — in
//! fixed-point tenths, `(10x - 5*width, 10y - 5*height, 0)`, exact also for
//! odd sides — and points along `(0, 0, -1)`. Each ray is intersected with
//! the scene's one sphere and the outcome shaded into the pixel buffer.

use vstd::prelude::*;
use crate::vec3::{V3, Vector3};
use crate::geom::{Ray, RayV, Sphere, SphereV, sphere_in_range, hit_param, intersect};
use crate::shade::{Pixel, shade_v, shade};

verus! {

/// The finished picture: `height` rows of `width` pixels, row-major.
pub struct Image {
    pub width: usize,
    pub height: usize,
    pub rows: Vec<Vec<Pixel>>,
}

/// Largest accepted grid side: keeps every pixel-plane coordinate within
/// the geometry's coordinate bound.
pub const MAX_DIM: usize = 100_000;

/// The ray cast for grid cell `(x, y)`: per-pixel origin on the camera
/// plane, fixed direction `(0, 0, -1)` (tenths: -10).
pub open spec fn ray_at(width: int, height: int, x: int, y: int) -> RayV {
    RayV {
        e: V3 { x: 10 * x - 5 * width, y: 10 * y - 5 * height, z: 0 },
        d: V3 { x: 0, y: 0, z: -10 },
    }
}

/// A pixel's channels as plain integers.
pub open spec fn pixel_v(p: Pixel) -> (int, int, int) {
    (p.r as int, p.g as int, p.b as int)
}

/// What cell `(x, y)` of a `width x height` render of sphere `s` holds:
/// its ray, intersected, shaded.
pub open spec fn pixel_at(width: int, height: int, s: SphereV, x: int, y: int) -> (
    int,
    int,
    int,
) {
    shade_v(hit_param(ray_at(width, height, x, y), s), s)
}

/// A well-formed image: exactly `height` rows of `width` pixels each.
pub open spec fn image_wf(img: Image) -> bool {
    &&& img.rows@.len() == img.height
    &&& forall|y: int| 0 <= y < img.height ==> (#[trigger] img.rows@[y])@.len() == img.width
}

/// Renders the scene: every cell of the returned image is exactly its ray's
/// shaded intersection outcome.
pub fn render_image(width: usize, height: usize, sphere: &Sphere) -> (img: Image)
    requires
        width <= MAX_DIM,
        height <= MAX_DIM,
        sphere_in_range(sphere@),
    ensures
        img.width == width,
        img.height == height,
        image_wf(img),
        forall|y: int, x: int|
            0 <= y < height && 0 <= x < width ==> pixel_v(#[trigger] img.rows@[y]@[x])
                == pixel_at(width as int, height as int, sphere@, x, y),
{
    let mut rows: Vec<Vec<Pixel>> = Vec::new();
    let mut y: usize = 0;
    while y < height
        invariant
            y <= height,
            rows@.len() == y,
            width <= MAX_DIM,
            height <= MAX_DIM,
            sphere_in_range(sphere@),
            forall|yy: int| 0 <= yy < y ==> (#[trigger] rows@[yy])@.len() == width,
            forall|yy: int, xx: int|
                0 <= yy < y && 0 <= xx < width ==> pixel_v(#[trigger] rows@[yy]@[xx])
                    == pixel_at(width as int, height as int, sphere@, xx, yy),
        decreases height - y,
    {
        let mut row: Vec<Pixel> = Vec::new();
        let mut x: usize = 0;
        while x < width
            invariant
                x <= width,
                row@.len() == x,
                y < height,
                width <= MAX_DIM,
                height <= MAX_DIM,
                sphere_in_range(sphere@),
                forall|xx: int|
                    0 <= xx < x ==> pixel_v(#[trigger] row@[xx])
                        == pixel_at(width as int, height as int, sphere@, xx, y as int),
            decreases width - x,
        {
            let ox: i64 = 10 * (x as i64) - 5 * (width as i64);
            let oy: i64 = 10 * (y as i64) - 5 * (height as i64);
            let ray = Ray { e: Vector3 { x: ox, y: oy, z: 0 }, d: Vector3 { x: 0, y: 0, z: -10 } };
            proof {
                assert(ray@ == ray_at(width as int, height as int, x as int, y as int));
            }
            let hit = intersect(&ray, sphere);
            let p = shade(hit, sphere);
            row.push(p);
            x += 1;
        }
        rows.push(row);
        y += 1;
    }
    Image { width, height, rows }
}

} // verus!
