use smatrix::camera::FrameBuffer;
use smatrix::geometry::Point3;
use smatrix::rotation::ROTATION_ONE;
use smatrix::scene::Triangle;
use smatrix::world::{World, BOX_SIZE, HEIGHT, WIDTH};

fn painted(f: &FrameBuffer) -> usize {
    f.display.chunks(4).filter(|p| *p != [0, 0, 0, 255]).count()
}

fn sample_triangle() -> Triangle {
    Triangle::new(
        Point3::new(1000, 2000, -9500),
        Point3::new(2000, 2500, -7500),
        Point3::new(1900, -2000, -5500),
    )
}

#[test]
fn world_starts_with_the_sample_scene() {
    let w = World::new();
    assert_eq!((w.box_x, w.box_y, w.velocity_x, w.velocity_y), (24, 16, 1, 1));
    assert_eq!(w.buffer.len(), 1);
    assert_eq!(w.buffer.objects[0], sample_triangle());
    let f = w.camera.render(320, 240, &w.buffer);
    assert!(painted(&f) > 0);
}

#[test]
fn world_box_bounces_inside_frame() {
    let mut w = World::new();
    for _ in 0..2000 {
        w.update();
        assert!(w.box_x >= 0 && w.box_x + BOX_SIZE <= WIDTH as i16 + 1);
        assert!(w.box_y >= 0 && w.box_y + BOX_SIZE <= HEIGHT as i16 + 1);
    }
    let mut v = World::new();
    v.box_x = 257;
    v.velocity_x = 1;
    v.update();
    assert_eq!((v.box_x, v.velocity_x), (256, -1));
}

#[test]
fn world_frames_turn_the_triangle() {
    let w = World::new();
    let still = w.frame(ROTATION_ONE, 0).unwrap();
    let direct = w.camera.render(320, 240, &w.buffer);
    assert_eq!(still.display, direct.display);
    for step in 0..64 {
        let t = step as f64 * 0.1;
        let c = (t.cos() * ROTATION_ONE as f64).round() as i64;
        let s = (t.sin() * ROTATION_ONE as f64).round() as i64;
        let f = w.frame(c, s).unwrap();
        assert_eq!(f.display.len(), 307_200);
    }
    let quarter = World::turned_scene(0, ROTATION_ONE).unwrap();
    let t = quarter.objects[0];
    assert_eq!(t.b, sample_triangle().b);
    assert_eq!(t.a, Point3::new(0, 2000, -6500));
}
