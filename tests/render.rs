use smatrix::camera::{Camera, FrameBuffer};
use smatrix::geometry::Point3;
use smatrix::scene::{Color, SceneBuffer, Triangle};

const BG: [u8; 4] = [0, 0, 0, 255];

fn camera() -> Camera {
    Camera::new(10_000, 1000, -5000, -10_000)
}

fn pixel(f: &FrameBuffer, x: usize, y: usize) -> [u8; 4] {
    let i = 4 * (y * f.width as usize + x);
    [f.display[i], f.display[i + 1], f.display[i + 2], f.display[i + 3]]
}

fn painted(f: &FrameBuffer) -> usize {
    f.display.chunks(4).filter(|p| *p != BG).count()
}

fn sample_triangle(dz: i64) -> Triangle {
    Triangle::new(
        Point3::new(1000, 2000, -9500 + dz),
        Point3::new(2000, 2500, -7500 + dz),
        Point3::new(1900, -2000, -5500 + dz),
    )
}

#[test]
fn empty_scene_is_background() {
    let f = camera().render(320, 240, &SceneBuffer::new());
    assert_eq!(f.display.len(), 320 * 240 * 4);
    assert!(f.display.chunks(4).all(|p| p == BG));
}

#[test]
fn triangle_in_range_is_drawn() {
    let mut scene = SceneBuffer::new();
    scene.add_object(sample_triangle(0));
    assert_eq!(scene.len(), 1);
    let f = camera().render(320, 240, &scene);
    assert_eq!(f.display.len(), 307_200);
    assert!(painted(&f) > 0);
    assert_eq!(pixel(&f, 0, 0), BG);
}

#[test]
fn triangle_in_front_of_near_plane_is_not_drawn() {
    let mut scene = SceneBuffer::new();
    scene.add_object(Triangle::new(
        Point3::new(1000, 2000, 0),
        Point3::new(2000, 2500, 0),
        Point3::new(1900, -2000, 0),
    ));
    let f = camera().render(320, 240, &scene);
    let empty = camera().render(320, 240, &SceneBuffer::new());
    assert_eq!(f.display, empty.display);
}

#[test]
fn triangle_beyond_far_plane_is_not_drawn() {
    let mut scene = SceneBuffer::new();
    scene.add_object(sample_triangle(-20_000));
    let f = camera().render(320, 240, &scene);
    assert_eq!(painted(&f), 0);
}

#[test]
fn triangle_crossing_near_plane_is_clipped_not_dropped() {
    let mut scene = SceneBuffer::new();
    scene.add_object(sample_triangle(3000));
    let f = camera().render(320, 240, &scene);
    assert!(painted(&f) > 0);
}

#[test]
fn later_triangle_wins() {
    let red = Color { r: 255, g: 0, b: 0, a: 255 };
    let green = Color { r: 0, g: 255, b: 0, a: 255 };
    let big = |c: Color| {
        Triangle::with_color(
            Point3::new(-5000, -5000, -6000),
            Point3::new(5000, -5000, -6000),
            Point3::new(0, 5000, -6000),
            c,
        )
    };
    let small = Triangle::with_color(
        Point3::new(-500, -500, -7000),
        Point3::new(500, -500, -7000),
        Point3::new(0, 500, -7000),
        green,
    );
    let mut scene = SceneBuffer::new();
    scene.add_object(big(red));
    scene.add_object(small);
    let f = camera().render(320, 240, &scene);
    assert_eq!(pixel(&f, 160, 120), [0, 255, 0, 255]);
    assert_eq!(pixel(&f, 160, 200), [255, 0, 0, 255]);

    let mut reversed = SceneBuffer::new();
    reversed.add_object(small);
    reversed.add_object(big(red));
    let g = camera().render(320, 240, &reversed);
    assert_eq!(pixel(&g, 160, 120), [255, 0, 0, 255]);
}

#[test]
fn degenerate_triangle_paints_nothing() {
    let mut scene = SceneBuffer::new();
    scene.add_object(Triangle::new(
        Point3::new(0, 0, -6000),
        Point3::new(1000, 1000, -6000),
        Point3::new(2000, 2000, -6000),
    ));
    let f = camera().render(320, 240, &scene);
    assert_eq!(painted(&f), 0);
}

#[test]
fn winding_does_not_matter() {
    let a = Point3::new(1000, 2000, -9500);
    let b = Point3::new(2000, 2500, -7500);
    let c = Point3::new(1900, -2000, -5500);
    let mut one = SceneBuffer::new();
    one.add_object(Triangle::new(a, b, c));
    let mut other = SceneBuffer::new();
    other.add_object(Triangle::new(a, c, b));
    assert_eq!(camera().render(320, 240, &one).display, camera().render(320, 240, &other).display);
}

#[test]
fn shared_edge_pixels_keep_one_owner() {
    let p = |x: i64, y: i64| Point3::new(x, y, -5000);
    let white = Color { r: 255, g: 255, b: 255, a: 255 };
    let blue = Color { r: 0, g: 0, b: 255, a: 255 };
    let mut whole = SceneBuffer::new();
    whole.add_object(Triangle::with_color(p(-2000, -2000), p(2000, -2000), p(2000, 2000), white));
    whole.add_object(Triangle::with_color(p(-2000, -2000), p(2000, 2000), p(-2000, 2000), white));
    let mut halves = SceneBuffer::new();
    halves.add_object(Triangle::with_color(p(-2000, -2000), p(2000, -2000), p(2000, 2000), white));
    halves.add_object(Triangle::with_color(p(-2000, -2000), p(2000, 2000), p(-2000, 2000), blue));
    let w = camera().render(64, 64, &whole);
    let h = camera().render(64, 64, &halves);
    assert_eq!(painted(&w), painted(&h));
}

#[test]
fn small_triangle_covers_exact_pixels() {
    let mut scene = SceneBuffer::new();
    scene.add_object(Triangle::new(
        Point3::new(-300, -300, -6000),
        Point3::new(300, -300, -6000),
        Point3::new(0, 300, -6000),
    ));
    let f = camera().render(32, 32, &scene);
    let expected = [(15, 15), (16, 15), (15, 16), (16, 16), (14, 17), (15, 17), (16, 17), (17, 17)];
    for y in 0..32 {
        for x in 0..32 {
            let want = if expected.contains(&(x, y)) { [255, 255, 255, 255] } else { BG };
            assert_eq!(pixel(&f, x, y), want, "pixel {} {}", x, y);
        }
    }
}

#[test]
fn zero_sized_frame_is_empty() {
    let mut scene = SceneBuffer::new();
    scene.add_object(sample_triangle(0));
    assert!(camera().render(0, 240, &scene).display.is_empty());
    assert!(camera().render(320, 0, &scene).display.is_empty());
}

#[test]
fn triangle_crossing_far_plane_is_clipped() {
    let whole = {
        let mut s = SceneBuffer::new();
        s.add_object(Triangle::new(
            Point3::new(-3000, -3000, -6000),
            Point3::new(3000, -3000, -6000),
            Point3::new(0, 3000, -9000),
        ));
        camera().render(64, 64, &s)
    };
    let crossing = {
        let mut s = SceneBuffer::new();
        s.add_object(Triangle::new(
            Point3::new(-3000, -3000, -6000),
            Point3::new(3000, -3000, -6000),
            Point3::new(0, 3000, -14_000),
        ));
        camera().render(64, 64, &s)
    };
    assert!(painted(&whole) > 0);
    assert!(painted(&crossing) > 0);
    assert!(painted(&crossing) < 64 * 64);
}

#[test]
fn full_screen_triangle_paints_every_pixel() {
    let mut scene = SceneBuffer::new();
    scene.add_object(Triangle::new(
        Point3::new(-100_000, -100_000, -6000),
        Point3::new(100_000, -100_000, -6000),
        Point3::new(0, 100_000, -6000),
    ));
    let f = camera().render(40, 30, &scene);
    assert_eq!(painted(&f), 40 * 30);
}
