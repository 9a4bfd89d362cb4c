use vstd::prelude::*;
use crate::camera::{Camera, FrameBuffer, scene_in_limit};
use crate::clip::{point_in_limit, COORD_LIMIT};
use crate::geometry::{column, Point3, Vec3};
use crate::matrix::{grid_mul, grid_product_fits, translation_grid, Matrix, MatrixError};
use crate::rotation::{axis_root, rodrigues_grid, unit_component, ROTATION_ONE};
use crate::scene::{white, SceneBuffer, Triangle};

verus! {

pub const WIDTH: u32 = 320;

pub const HEIGHT: u32 = 240;

pub const BOX_SIZE: i16 = 64;

/// The state of the demo scene: a box that bounces inside the frame, and a
/// triangle that turns about its middle vertex.
#[derive(Debug)]
pub struct World {
    pub box_x: i16,
    pub box_y: i16,
    pub velocity_x: i16,
    pub velocity_y: i16,
    pub camera: Camera,
    pub buffer: SceneBuffer,
}

/// One axis of the bounce: the velocity turns around at either wall, then the
/// position moves by it.
pub open spec fn bounce(pos: int, vel: int, limit: int) -> (int, int) {
    let v = if pos <= 0 || pos + BOX_SIZE > limit {
        -vel
    } else {
        vel
    };
    (pos + v, v)
}

/// A position and velocity that `bounce` keeps inside `[0, limit - BOX_SIZE + 1]`.
pub open spec fn bounce_ok(pos: int, vel: int, limit: int) -> bool {
    &&& 0 <= pos <= limit - BOX_SIZE + 1
    &&& (vel == 1 || vel == -1)
    &&& pos == 0 ==> vel == -1
    &&& pos == limit - BOX_SIZE + 1 ==> vel == 1
}

/// The corners of the turning triangle, in thousandths.
pub open spec fn corners() -> Seq<Point3> {
    seq![
        Point3 { x: 1000, y: 2000, z: -9500i64 },
        Point3 { x: 2000, y: 2500, z: -7500i64 },
        Point3 { x: 1900, y: -2000i64, z: -5500i64 },
    ]
}

/// Numerators of the rotation about the vertical axis.
pub open spec fn spin_grid(cos: int, sin: int) -> Seq<Seq<int>> {
    let root = axis_root(0, 1, 0);
    rodrigues_grid(unit_component(0, root), unit_component(1, root), unit_component(0, root), cos, sin)
}

/// Numerators of the rotation followed by the move back from the origin.
pub open spec fn spin_back_grid(cos: int, sin: int) -> Seq<Seq<int>> {
    grid_mul(translation_grid(2000, 2500, -7500), spin_grid(cos, sin), 4, 4, 4)
}

/// Numerators of the turn about the vertical axis through the middle corner:
/// move that corner to the origin, rotate, move back.
pub open spec fn turn_grid(cos: int, sin: int) -> Seq<Seq<int>> {
    grid_mul(spin_back_grid(cos, sin), translation_grid(-2000, -2500, 7500), 4, 4, 4)
}

/// Whether turning `p` stays within 64 bits and lands within `COORD_LIMIT`.
pub open spec fn turn_point_ok(p: Point3, cos: int, sin: int) -> bool {
    &&& grid_product_fits(turn_grid(cos, sin), column(p.x as int, p.y as int, p.z as int), 4, 4, 1, turn_den(), 1)
    &&& point_in_limit(turned(p, cos, sin))
}

/// Whether every step of turning the triangle stays within 64 bits and
/// every turned corner within `COORD_LIMIT`.
pub open spec fn turn_ok(cos: int, sin: int) -> bool {
    &&& grid_product_fits(translation_grid(2000, 2500, -7500), spin_grid(cos, sin), 4, 4, 4, 1, turn_den())
    &&& grid_product_fits(spin_back_grid(cos, sin), translation_grid(-2000, -2500, 7500), 4, 4, 4, turn_den(), 1)
    &&& turn_point_ok(corners()[0], cos, sin)
    &&& turn_point_ok(corners()[1], cos, sin)
    &&& turn_point_ok(corners()[2], cos, sin)
}

pub open spec fn turn_den() -> int {
    ROTATION_ONE * ROTATION_ONE * ROTATION_ONE
}

/// A corner after the turn, rounded down to whole thousandths.
pub open spec fn turned(p: Point3, cos: int, sin: int) -> Point3 {
    let g = grid_mul(turn_grid(cos, sin), column(p.x as int, p.y as int, p.z as int), 4, 4, 1);
    Point3 {
        x: (g[0][0] / turn_den()) as i64,
        y: (g[1][0] / turn_den()) as i64,
        z: (g[2][0] / turn_den()) as i64,
    }
}

pub open spec fn turned_triangle(cos: int, sin: int) -> Triangle {
    Triangle {
        a: turned(corners()[0], cos, sin),
        b: turned(corners()[1], cos, sin),
        c: turned(corners()[2], cos, sin),
        color: white(),
    }
}

impl World {
    pub open spec fn wf(&self) -> bool {
        &&& bounce_ok(self.box_x as int, self.velocity_x as int, WIDTH as int)
        &&& bounce_ok(self.box_y as int, self.velocity_y as int, HEIGHT as int)
        &&& self.camera.wf()
    }

    /// The box near the top-left corner, moving down and right, and a camera
    /// of focal length 10 and depth range `[-10, -5]`, all in thousandths.
    pub fn new() -> (r: World)
        ensures
            r.wf(),
            r.box_x == 24 && r.box_y == 16,
            r.velocity_x == 1 && r.velocity_y == 1,
            r.camera == Camera::new_spec(10_000, 1000, -5000i64, -10_000i64),
            r.buffer@ == seq![Triangle { a: corners()[0], b: corners()[1], c: corners()[2], color: white() }],
    {
        let mut buffer = SceneBuffer::new();
        buffer.add_object(
            Triangle::new(Point3::new(1000, 2000, -9500), Point3::new(2000, 2500, -7500), Point3::new(1900, -2000, -5500)),
        );
        World {
            box_x: 24,
            box_y: 16,
            velocity_x: 1,
            velocity_y: 1,
            camera: Camera::new(10_000, 1000, -5000, -10_000),
            buffer,
        }
    }

    /// Moves the box one step, turning it around at the frame's edges.
    pub fn update(&mut self)
        requires
            old(self).wf(),
        ensures
            final(self).wf(),
            (final(self).box_x as int, final(self).velocity_x as int) == bounce(
                old(self).box_x as int,
                old(self).velocity_x as int,
                WIDTH as int,
            ),
            (final(self).box_y as int, final(self).velocity_y as int) == bounce(
                old(self).box_y as int,
                old(self).velocity_y as int,
                HEIGHT as int,
            ),
            final(self).camera == old(self).camera,
            final(self).buffer@ == old(self).buffer@,
    {
        if self.box_x <= 0 || self.box_x + BOX_SIZE > WIDTH as i16 {
            self.velocity_x = -self.velocity_x;
        }
        if self.box_y <= 0 || self.box_y + BOX_SIZE > HEIGHT as i16 {
            self.velocity_y = -self.velocity_y;
        }
        self.box_x += self.velocity_x;
        self.box_y += self.velocity_y;
    }

    /// The triangle turned about the vertical axis through its middle corner,
    /// by the angle whose cosine and sine are `cos / ROTATION_ONE` and
    /// `sin / ROTATION_ONE`.
    ///
    /// Fails with `OverflowError` exactly where the arithmetic leaves 64 bits
    /// or a turned corner leaves `COORD_LIMIT`.
    pub fn turned_scene(cos: i64, sin: i64) -> (r: Result<SceneBuffer, MatrixError>)
        requires
            -ROTATION_ONE <= cos <= ROTATION_ONE,
            -ROTATION_ONE <= sin <= ROTATION_ONE,
        ensures
            r is Ok <==> turn_ok(cos as int, sin as int),
            r is Ok ==> r->Ok_0@ == seq![turned_triangle(cos as int, sin as int)],
            r is Ok ==> scene_in_limit(r->Ok_0@),
            r is Err ==> r == Err::<SceneBuffer, MatrixError>(MatrixError::OverflowError),
    {
        let to_origin = Matrix::move_matrix(-2000, -2500, 7500);
        let rot = match Vec3::new(0, 1, 0).to_rotation_matrix(cos, sin) {
            Ok(m) => m,
            Err(_) => return Err(MatrixError::OverflowError),
        };
        let back = Matrix::move_matrix(2000, 2500, -7500);
        assert(rot.grid() == spin_grid(cos as int, sin as int));
        let spun = Matrix::mul(&back, &rot)?;
        assert(spun.grid() == spin_back_grid(cos as int, sin as int));
        let m = Matrix::mul(&spun, &to_origin)?;
        assert(m.grid() == turn_grid(cos as int, sin as int));
        assert(m.den == turn_den()) by (nonlinear_arith)
            requires
                m.den == 1 * (ROTATION_ONE * ROTATION_ONE * ROTATION_ONE) * 1,
        ;
        let a = Self::turn_point(&m, Point3::new(1000, 2000, -9500), cos, sin)?;
        let b = Self::turn_point(&m, Point3::new(2000, 2500, -7500), cos, sin)?;
        let c = Self::turn_point(&m, Point3::new(1900, -2000, -5500), cos, sin)?;
        let mut scene = SceneBuffer::new();
        scene.add_object(Triangle::new(a, b, c));
        assert(turn_ok(cos as int, sin as int));
        assert(scene@ =~= seq![turned_triangle(cos as int, sin as int)]);
        Ok(scene)
    }

    fn turn_point(m: &Matrix, p: Point3, cos: i64, sin: i64) -> (r: Result<Point3, MatrixError>)
        requires
            m.wf(),
            m.rows == 4,
            m.cols == 4,
            m.grid() == turn_grid(cos as int, sin as int),
            m.den == turn_den(),
        ensures
            r is Ok <==> turn_point_ok(p, cos as int, sin as int),
            r is Ok ==> r->Ok_0 == turned(p, cos as int, sin as int) && point_in_limit(r->Ok_0),
            r is Err ==> r == Err::<Point3, MatrixError>(MatrixError::OverflowError),
    {
        let col = p.to_matrix();
        let moved = match Matrix::mul(m, &col) {
            Ok(v) => v,
            Err(_) => return Err(MatrixError::OverflowError),
        };
        assert(moved.grid() == grid_mul(turn_grid(cos as int, sin as int), column(p.x as int, p.y as int, p.z as int), 4, 4, 1));
        let q = match Point3::from_matrix(&moved) {
            Ok(v) => v,
            Err(_) => return Err(MatrixError::OverflowError),
        };
        if q.x < -COORD_LIMIT || q.x > COORD_LIMIT || q.y < -COORD_LIMIT || q.y > COORD_LIMIT || q.z < -COORD_LIMIT
            || q.z > COORD_LIMIT {
            return Err(MatrixError::OverflowError);
        }
        Ok(q)
    }

    /// Renders the triangle, turned as `turned_scene` says, into a
    /// `WIDTH x HEIGHT` frame.
    pub fn frame(&self, cos: i64, sin: i64) -> (r: Result<FrameBuffer, MatrixError>)
        requires
            self.wf(),
            -ROTATION_ONE <= cos <= ROTATION_ONE,
            -ROTATION_ONE <= sin <= ROTATION_ONE,
        ensures
            r is Ok ==> self.camera.frame_matches(
                WIDTH as int,
                HEIGHT as int,
                seq![turned_triangle(cos as int, sin as int)],
                r->Ok_0.display@,
            ),
            r is Ok <==> turn_ok(cos as int, sin as int),
            r is Err ==> r == Err::<FrameBuffer, MatrixError>(MatrixError::OverflowError),
    {
        let scene = Self::turned_scene(cos, sin)?;
        Ok(self.camera.render(WIDTH, HEIGHT, &scene))
    }
}

} // verus!
