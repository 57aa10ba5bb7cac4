// End-to-end renders of small grids.

use raysphere::vec3::Vector3;
use raysphere::geom::Sphere;
use raysphere::shade::Pixel;
use raysphere::render::render_image;

#[test]
fn render_single_pixel() {
    // A 1x1 grid over the reference scene: sphere center (0, 0, -400),
    // radius 100. The one ray starts at (-0.5, -0.5, 0), hits near
    // t = 300, and shades to the exact triple (220, 134, 134) — not
    // background.
    let sphere = Sphere { c: Vector3::new(0, 0, -4000), r: 1000 };
    let img = render_image(1, 1, &sphere);
    assert_eq!(img.width, 1);
    assert_eq!(img.height, 1);
    assert_eq!(img.rows.len(), 1);
    assert_eq!(img.rows[0].len(), 1);
    let p = img.rows[0][0];
    assert!(p.r != 0 || p.g != 0 || p.b != 0);
    assert_eq!(p, Pixel { r: 220, g: 134, b: 134 });
}

#[test]
fn render_background_only() {
    // The sphere sits 10,000 units off to the side, out of every ray's
    // path: the whole image is background black.
    let sphere = Sphere { c: Vector3::new(100_000, 0, -4000), r: 1000 };
    let img = render_image(2, 2, &sphere);
    assert_eq!(img.rows.len(), 2);
    for row in &img.rows {
        assert_eq!(row.len(), 2);
        for p in row {
            assert_eq!(*p, Pixel { r: 0, g: 0, b: 0 });
        }
    }
}

#[test]
fn render_reference_scene_center() {
    // In the full 300x300 reference render the central rays hit the
    // sphere head-on; the cell nearest the axis shades like the 1x1
    // render above.
    let sphere = Sphere { c: Vector3::new(0, 0, -4000), r: 1000 };
    let img = render_image(300, 300, &sphere);
    assert_eq!(img.rows.len(), 300);
    let p = img.rows[150][150];
    assert_eq!(p, Pixel { r: 220, g: 134, b: 134 });
    // A corner ray misses: background.
    let q = img.rows[0][0];
    assert_eq!(q, Pixel { r: 0, g: 0, b: 0 });
}

#[test]
fn render_zero_size() {
    let sphere = Sphere { c: Vector3::new(0, 0, -4000), r: 1000 };
    let img = render_image(0, 0, &sphere);
    assert_eq!(img.rows.len(), 0);
    assert_eq!(img.width, 0);
    assert_eq!(img.height, 0);
}
