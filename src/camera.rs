use vstd::prelude::*;
use crate::arith::floor_div;
use crate::clip::{
    all_in_limit, clip_against, clip_polygon, lemma_clip_depths, lemma_clip_keeps_inside, point_in_limit,
    COORD_LIMIT,
};
use crate::geometry::Point3;
use crate::scene::{Color, SceneBuffer, Triangle};

verus! {

/// Largest frame width or height `render` accepts.
pub const SIZE_LIMIT: u32 = 4096;

/// The aspect ratio is given in thousandths: this value stands for 1.
pub const ASPECT_ONE: i64 = 1000;

/// Subpixel steps per pixel in projected coordinates.
pub const SUBPIXELS: i64 = 16;

/// Projected coordinates saturate at this magnitude, in subpixels.
pub const SCREEN_LIMIT: i64 = 0x100_0000_0000;

/// A projected vertex, in subpixels from the frame's top-left corner.
#[derive(Debug, Clone, Copy, PartialEq, Eq, Structural)]
pub struct ScreenPoint {
    pub x: i64,
    pub y: i64,
}

/// A pinhole camera at the origin looking along the negative depth axis.
///
/// The visible window lies at the focal distance and spans `2 * |near|`
/// units across, so the frame's edges are where `focal_length * x / -z`
/// reaches `±|near|` (and likewise for `y`, scaled by the aspect ratio).
#[derive(Debug, Clone, Copy, PartialEq, Eq, Structural)]
pub struct Camera {
    pub focal_length: i64,
    /// Width over height, in thousandths.
    pub aspect_ratio: i64,
    pub near: i64,
    pub far: i64,
}

/// A frame of RGBA8 pixels, row by row from the top.
#[derive(Debug)]
pub struct FrameBuffer {
    pub width: u32,
    pub height: u32,
    pub display: Vec<u8>,
}

/// Opaque black, the color of every pixel that no triangle covers.
pub open spec fn background() -> Color {
    Color { r: 0, g: 0, b: 0, a: 255 }
}

pub open spec fn channel(c: Color, i: int) -> u8 {
    if i == 0 {
        c.r
    } else if i == 1 {
        c.g
    } else if i == 2 {
        c.b
    } else {
        c.a
    }
}

pub open spec fn saturate(v: int) -> int {
    if v > SCREEN_LIMIT {
        SCREEN_LIMIT as int
    } else if v < -SCREEN_LIMIT {
        -SCREEN_LIMIT
    } else {
        v
    }
}

impl Camera {
    pub open spec fn wf(&self) -> bool {
        &&& 1 <= self.focal_length <= COORD_LIMIT
        &&& 1 <= self.aspect_ratio <= COORD_LIMIT
        &&& -COORD_LIMIT <= self.near < 0
        &&& -COORD_LIMIT <= self.far <= self.near
    }

    pub open spec fn new_spec(focal_length: i64, aspect_ratio: i64, near: i64, far: i64) -> Camera {
        Camera { focal_length, aspect_ratio, near, far }
    }

    pub fn new(focal_length: i64, aspect_ratio: i64, near: i64, far: i64) -> (r: Camera)
        ensures
            r == Camera::new_spec(focal_length, aspect_ratio, near, far),
    {
        Camera { focal_length, aspect_ratio, near, far }
    }

    /// Whether a depth lies in the view range `[far, near]`.
    pub open spec fn in_range(&self, z: int) -> bool {
        self.far <= z <= self.near
    }

    /// A triangle with no vertex in the view range is not drawn at all.
    pub open spec fn skips(&self, t: Triangle) -> bool {
        !self.in_range(t.a.z as int) && !self.in_range(t.b.z as int) && !self.in_range(t.c.z as int)
    }

    /// The triangle cut down to the depth range, as a polygon.
    pub open spec fn clipped(&self, t: Triangle) -> Seq<Point3> {
        clip_polygon(clip_polygon(seq![t.a, t.b, t.c], self.near as int, true), self.far as int, false)
    }

    /// Pinhole projection of a point of depth below zero, then the viewport
    /// transform into subpixels, with the frame's center at normalized `(0, 0)`.
    pub open spec fn project(&self, w: int, h: int, v: Point3) -> ScreenPoint {
        let n = -self.near;
        let d = -v.z;
        let f = self.focal_length as int;
        let a = self.aspect_ratio as int;
        ScreenPoint {
            x: saturate((w * SUBPIXELS * (n * d + f * v.x)) / (2 * n * d)) as i64,
            y: saturate((h * SUBPIXELS * (n * d * a - f * v.y * ASPECT_ONE)) / (2 * n * d * a)) as i64,
        }
    }

    /// The projected outline of a triangle; empty for a skipped triangle.
    pub open spec fn outline(&self, w: int, h: int, t: Triangle) -> Seq<ScreenPoint> {
        if self.skips(t) {
            Seq::empty()
        } else {
            self.clipped(t).map_values(|v: Point3| self.project(w, h, v))
        }
    }

    /// Whether the triangle paints pixel `(px, py)` of a `w x h` frame.
    pub open spec fn covers(&self, w: int, h: int, t: Triangle, px: int, py: int) -> bool {
        let o = self.outline(w, h, t);
        fan_covers(o, sample(px, py), o.len() as int)
    }

    /// The color of pixel `(px, py)` after the first `k` triangles are drawn.
    pub open spec fn pixel_color(&self, w: int, h: int, tris: Seq<Triangle>, k: nat, px: int, py: int) -> Color
        decreases k,
    {
        if k == 0 {
            background()
        } else if self.covers(w, h, tris[k - 1], px, py) {
            tris[k - 1].color
        } else {
            self.pixel_color(w, h, tris, (k - 1) as nat, px, py)
        }
    }

    /// The frame after drawing all of `tris`: four bytes per pixel, rows from the top.
    pub open spec fn frame_matches(&self, w: int, h: int, tris: Seq<Triangle>, bytes: Seq<u8>) -> bool {
        &&& bytes.len() == w * h * 4
        &&& forall|px: int, py: int, c: int|
            0 <= px < w && 0 <= py < h && 0 <= c < 4 ==> #[trigger] bytes[4 * (py * w + px) + c]
                == channel(self.pixel_color(w, h, tris, tris.len(), px, py), c)
    }
}

/// The center of pixel `(px, py)`, in subpixels.
pub open spec fn sample(px: int, py: int) -> ScreenPoint {
    ScreenPoint { x: (px * SUBPIXELS + SUBPIXELS / 2) as i64, y: (py * SUBPIXELS + SUBPIXELS / 2) as i64 }
}

/// Twice the signed area of `a, b, s`; positive when `s` is to the right of
/// `a -> b` with the y axis pointing down.
pub open spec fn edge(a: ScreenPoint, b: ScreenPoint, s: ScreenPoint) -> int {
    (b.x - a.x) * (s.y - a.y) - (b.y - a.y) * (s.x - a.x)
}

/// The tie-break for points exactly on an edge: an edge that goes up, or
/// goes right along a row, owns them (the top-left rule).
pub open spec fn top_left(a: ScreenPoint, b: ScreenPoint) -> bool {
    b.y < a.y || (b.y == a.y && b.x > a.x)
}

pub open spec fn edge_admits(a: ScreenPoint, b: ScreenPoint, s: ScreenPoint) -> bool {
    edge(a, b, s) > 0 || (edge(a, b, s) == 0 && top_left(a, b))
}

/// Whether `s` is inside triangle `a, b, c`, of either winding; a
/// degenerate triangle contains nothing.
pub open spec fn inside(a: ScreenPoint, b: ScreenPoint, c: ScreenPoint, s: ScreenPoint) -> bool {
    let area = edge(a, b, c);
    if area > 0 {
        edge_admits(a, b, s) && edge_admits(b, c, s) && edge_admits(c, a, s)
    } else if area < 0 {
        edge_admits(a, c, s) && edge_admits(c, b, s) && edge_admits(b, a, s)
    } else {
        false
    }
}

/// Whether `s` is inside one of the fan triangles `(o[0], o[j - 1], o[j])`, `2 <= j < k`.
pub open spec fn fan_covers(o: Seq<ScreenPoint>, s: ScreenPoint, k: int) -> bool
    decreases k,
{
    if k < 3 {
        false
    } else {
        fan_covers(o, s, k - 1) || inside(o[0], o[k - 2], o[k - 1], s)
    }
}

pub open spec fn screen_bounded(p: ScreenPoint) -> bool {
    -SCREEN_LIMIT <= p.x <= SCREEN_LIMIT && -SCREEN_LIMIT <= p.y <= SCREEN_LIMIT
}

fn saturate_exec(v: i128) -> (r: i64)
    ensures
        r == saturate(v as int),
{
    if v > SCREEN_LIMIT as i128 {
        SCREEN_LIMIT
    } else if v < -(SCREEN_LIMIT as i128) {
        -SCREEN_LIMIT
    } else {
        v as i64
    }
}

fn edge_exec(a: ScreenPoint, b: ScreenPoint, s: ScreenPoint) -> (r: i128)
    requires
        screen_bounded(a),
        screen_bounded(b),
        screen_bounded(s),
    ensures
        r == edge(a, b, s),
{
    let (ax, ay) = (a.x as i128, a.y as i128);
    let (bx, by) = (b.x as i128, b.y as i128);
    let (sx, sy) = (s.x as i128, s.y as i128);
    proof {
        assert(-0x10_0000_0000_0000_0000_0000 <= (bx - ax) * (sy - ay) <= 0x10_0000_0000_0000_0000_0000)
            by (nonlinear_arith)
            requires
                -0x200_0000_0000 <= bx - ax <= 0x200_0000_0000,
                -0x200_0000_0000 <= sy - ay <= 0x200_0000_0000,
        ;
        assert(-0x10_0000_0000_0000_0000_0000 <= (by - ay) * (sx - ax) <= 0x10_0000_0000_0000_0000_0000)
            by (nonlinear_arith)
            requires
                -0x200_0000_0000 <= by - ay <= 0x200_0000_0000,
                -0x200_0000_0000 <= sx - ax <= 0x200_0000_0000,
        ;
    }
    (bx - ax) * (sy - ay) - (by - ay) * (sx - ax)
}

fn edge_admits_exec(a: ScreenPoint, b: ScreenPoint, s: ScreenPoint) -> (r: bool)
    requires
        screen_bounded(a),
        screen_bounded(b),
        screen_bounded(s),
    ensures
        r == edge_admits(a, b, s),
{
    let e = edge_exec(a, b, s);
    e > 0 || (e == 0 && (b.y < a.y || (b.y == a.y && b.x > a.x)))
}

fn inside_exec(a: ScreenPoint, b: ScreenPoint, c: ScreenPoint, s: ScreenPoint) -> (r: bool)
    requires
        screen_bounded(a),
        screen_bounded(b),
        screen_bounded(c),
        screen_bounded(s),
    ensures
        r == inside(a, b, c, s),
{
    let area = edge_exec(a, b, c);
    if area > 0 {
        edge_admits_exec(a, b, s) && edge_admits_exec(b, c, s) && edge_admits_exec(c, a, s)
    } else if area < 0 {
        edge_admits_exec(a, c, s) && edge_admits_exec(c, b, s) && edge_admits_exec(b, a, s)
    } else {
        false
    }
}

fn fan_covers_exec(o: &Vec<ScreenPoint>, s: ScreenPoint) -> (r: bool)
    requires
        forall|i: int| 0 <= i < o@.len() ==> screen_bounded(#[trigger] o@[i]),
        screen_bounded(s),
    ensures
        r == fan_covers(o@, s, o@.len() as int),
{
    let mut j: usize = 2;
    let mut hit = false;
    if o.len() < 3 {
        return false;
    }
    while j < o.len()
        invariant
            2 <= j <= o@.len(),
            forall|i: int| 0 <= i < o@.len() ==> screen_bounded(#[trigger] o@[i]),
            screen_bounded(s),
            hit == fan_covers(o@, s, j as int),
        decreases o@.len() - j,
    {
        if inside_exec(o[0], o[j - 1], o[j], s) {
            hit = true;
        }
        j += 1;
    }
    hit
}

impl Camera {
    /// Projects a point whose depth is within `[far, near]`.
    fn project_exec(&self, w: u32, h: u32, v: Point3) -> (r: ScreenPoint)
        requires
            self.wf(),
            w <= SIZE_LIMIT,
            h <= SIZE_LIMIT,
            point_in_limit(v),
            v.z <= self.near,
        ensures
            r == self.project(w as int, h as int, v),
            screen_bounded(r),
    {
        let n = -(self.near as i128);
        let d = -(v.z as i128);
        let f = self.focal_length as i128;
        let a = self.aspect_ratio as i128;
        let wi = w as i128;
        let hi = h as i128;
        let x = v.x as i128;
        let y = v.y as i128;
        proof {
            assert(1 <= n * d <= 0x100_0000_0000) by (nonlinear_arith)
                requires
                    1 <= n <= 0x10_0000,
                    n <= d <= 0x10_0000,
            ;
            assert(-0x100_0000_0000 <= f * x <= 0x100_0000_0000) by (nonlinear_arith)
                requires
                    1 <= f <= 0x10_0000,
                    -0x10_0000 <= x <= 0x10_0000,
            ;
            assert(1 <= n * d * a <= 0x1000_0000_0000_0000) by (nonlinear_arith)
                requires
                    1 <= n * d <= 0x100_0000_0000,
                    1 <= a <= 0x10_0000,
            ;
            assert(-0x40_0000_0000_0000 <= f * y * 1000 <= 0x40_0000_0000_0000) by (nonlinear_arith)
                requires
                    1 <= f <= 0x10_0000,
                    -0x10_0000 <= y <= 0x10_0000,
            ;
            assert(-0x1_0000_0000_0000_0000 <= wi * 16 * (n * d + f * x) <= 0x1_0000_0000_0000_0000)
                by (nonlinear_arith)
                requires
                    0 <= wi <= 4096,
                    -0x200_0000_0000 <= n * d + f * x <= 0x200_0000_0000,
            ;
            assert(-0x1_0000_0000_0000_0000_0000 <= hi * 16 * (n * d * a - f * y * 1000) <= 0x1_0000_0000_0000_0000_0000)
                by (nonlinear_arith)
                requires
                    0 <= hi <= 4096,
                    -0x2000_0000_0000_0000 <= n * d * a - f * y * 1000 <= 0x2000_0000_0000_0000,
            ;
            assert(2 * n * d == 2 * (n * d)) by (nonlinear_arith);
            assert(2 * n * d * a == 2 * (n * d * a)) by (nonlinear_arith);
        }
        let qx = floor_div(wi * (SUBPIXELS as i128) * (n * d + f * x), 2 * n * d);
        let qy = floor_div(hi * (SUBPIXELS as i128) * (n * d * a - f * y * (ASPECT_ONE as i128)), 2 * n * d * a);
        ScreenPoint { x: saturate_exec(qx), y: saturate_exec(qy) }
    }

    /// The projected outline of one triangle.
    fn outline_exec(&self, w: u32, h: u32, t: Triangle) -> (r: Vec<ScreenPoint>)
        requires
            self.wf(),
            w <= SIZE_LIMIT,
            h <= SIZE_LIMIT,
            point_in_limit(t.a),
            point_in_limit(t.b),
            point_in_limit(t.c),
        ensures
            r@ == self.outline(w as int, h as int, t),
            forall|i: int| 0 <= i < r@.len() ==> screen_bounded(#[trigger] r@[i]),
    {
        let in_a = self.far <= t.a.z && t.a.z <= self.near;
        let in_b = self.far <= t.b.z && t.b.z <= self.near;
        let in_c = self.far <= t.c.z && t.c.z <= self.near;
        if !in_a && !in_b && !in_c {
            let r: Vec<ScreenPoint> = Vec::new();
            assert(r@ =~= self.outline(w as int, h as int, t));
            return r;
        }
        let tri = vec![t.a, t.b, t.c];
        assert(tri@ == seq![t.a, t.b, t.c]);
        let near_side = clip_against(&tri, self.near, true);
        let poly = clip_against(&near_side, self.far, false);
        proof {
            lemma_clip_depths(tri@, self.near as int, true, -COORD_LIMIT as int, COORD_LIMIT as int, 3);
            lemma_clip_depths(near_side@, self.far as int, false, -COORD_LIMIT as int, self.near as int, near_side@.len());
        }
        let ghost clipped = self.clipped(t);
        assert(poly@ == clipped);
        let mut out: Vec<ScreenPoint> = Vec::new();
        let mut i: usize = 0;
        while i < poly.len()
            invariant
                self.wf(),
                w <= SIZE_LIMIT,
                h <= SIZE_LIMIT,
                i <= poly@.len(),
                poly@ == clipped,
                all_in_limit(poly@),
                forall|j: int| 0 <= j < poly@.len() ==> (#[trigger] poly@[j]).z <= self.near,
                out@.len() == i,
                forall|j: int| 0 <= j < i ==> out@[j] == self.project(w as int, h as int, #[trigger] poly@[j]),
                forall|j: int| 0 <= j < i ==> screen_bounded(#[trigger] out@[j]),
            decreases poly@.len() - i,
        {
            assert(point_in_limit(poly@[i as int]));
            out.push(self.project_exec(w, h, poly[i]));
            i += 1;
        }
        assert(out@ =~= clipped.map_values(|v: Point3| self.project(w as int, h as int, v)));
        out
    }
}

/// Every vertex of every triangle is within `COORD_LIMIT`.
pub open spec fn scene_in_limit(tris: Seq<Triangle>) -> bool {
    forall|i: int|
        0 <= i < tris.len() ==> {
            let t = #[trigger] tris[i];
            point_in_limit(t.a) && point_in_limit(t.b) && point_in_limit(t.c)
        }
}

proof fn lemma_earlier_row(px2: int, py2: int, py: int, w: int)
    requires
        0 <= px2 < w,
        0 <= py2 < py,
    ensures
        py2 * w + px2 < py * w,
{
    assert(py2 * w + w <= py * w) by (nonlinear_arith)
        requires
            py2 < py,
            w >= 0,
    ;
}

impl Camera {
    /// Renders the scene into a fresh `width x height` RGBA8 frame.
    ///
    /// Every pixel starts as the background; the triangles are then drawn in
    /// scene order, each painting the pixels whose centers its projected,
    /// depth-clipped outline covers, so later triangles win where they overlap.
    pub fn render(&self, width: u32, height: u32, buffer: &SceneBuffer) -> (r: FrameBuffer)
        requires
            self.wf(),
            width <= SIZE_LIMIT,
            height <= SIZE_LIMIT,
            scene_in_limit(buffer@),
        ensures
            r.width == width,
            r.height == height,
            self.frame_matches(width as int, height as int, buffer@, r.display@),
    {
        let tris = &buffer.objects;
        let ghost ts = buffer@;
        let ghost wi = width as int;
        let ghost hi = height as int;
        let mut outlines: Vec<Vec<ScreenPoint>> = Vec::new();
        let mut k: usize = 0;
        while k < tris.len()
            invariant
                self.wf(),
                width <= SIZE_LIMIT,
                height <= SIZE_LIMIT,
                ts == tris@,
                wi == width,
                hi == height,
                scene_in_limit(ts),
                k <= ts.len(),
                outlines@.len() == k,
                forall|q: int| 0 <= q < k ==> (#[trigger] outlines@[q])@ == self.outline(wi, hi, ts[q]),
                forall|q: int, i: int|
                    0 <= q < k && 0 <= i < outlines@[q]@.len() ==> screen_bounded(#[trigger] outlines@[q]@[i]),
            decreases ts.len() - k,
        {
            assert(point_in_limit(ts[k as int].a));
            let o = self.outline_exec(width, height, tris[k]);
            outlines.push(o);
            k += 1;
        }
        let mut display: Vec<u8> = Vec::new();
        let mut py: u32 = 0;
        while py < height
            invariant
                self.wf(),
                width <= SIZE_LIMIT,
                height <= SIZE_LIMIT,
                ts == tris@,
                wi == width,
                hi == height,
                py <= height,
                outlines@.len() == ts.len(),
                forall|q: int| 0 <= q < ts.len() ==> (#[trigger] outlines@[q])@ == self.outline(wi, hi, ts[q]),
                forall|q: int, i: int|
                    0 <= q < ts.len() && 0 <= i < outlines@[q]@.len() ==> screen_bounded(#[trigger] outlines@[q]@[i]),
                display@.len() == 4 * (py * wi),
                forall|px2: int, py2: int, c: int|
                    0 <= px2 < wi && 0 <= py2 < py && 0 <= c < 4 ==> #[trigger] display@[4 * (py2 * wi + px2) + c]
                        == channel(self.pixel_color(wi, hi, ts, ts.len(), px2, py2), c),
            decreases height - py,
        {
            let mut px: u32 = 0;
            while px < width
                invariant
                    self.wf(),
                    width <= SIZE_LIMIT,
                    height <= SIZE_LIMIT,
                    ts == tris@,
                    wi == width,
                    hi == height,
                    py < height,
                    px <= width,
                    outlines@.len() == ts.len(),
                    forall|q: int| 0 <= q < ts.len() ==> (#[trigger] outlines@[q])@ == self.outline(wi, hi, ts[q]),
                    forall|q: int, i: int|
                        0 <= q < ts.len() && 0 <= i < outlines@[q]@.len() ==> screen_bounded(#[trigger] outlines@[q]@[i]),
                    display@.len() == 4 * (py * wi + px),
                    forall|px2: int, py2: int, c: int|
                        ((0 <= px2 < wi && 0 <= py2 < py) || (0 <= px2 < px && py2 == py)) && 0 <= c < 4
                            ==> #[trigger] display@[4 * (py2 * wi + px2) + c]
                            == channel(self.pixel_color(wi, hi, ts, ts.len(), px2, py2), c),
                decreases width - px,
            {
                let s = ScreenPoint { x: px as i64 * SUBPIXELS + SUBPIXELS / 2, y: py as i64 * SUBPIXELS + SUBPIXELS / 2 };
                assert(s == sample(px as int, py as int));
                let mut color = Color { r: 0, g: 0, b: 0, a: 255 };
                let mut k: usize = 0;
                while k < tris.len()
                    invariant
                        ts == tris@,
                        k <= ts.len(),
                        s == sample(px as int, py as int),
                        screen_bounded(s),
                        outlines@.len() == ts.len(),
                        forall|q: int| 0 <= q < ts.len() ==> (#[trigger] outlines@[q])@ == self.outline(wi, hi, ts[q]),
                        forall|q: int, i: int|
                            0 <= q < ts.len() && 0 <= i < outlines@[q]@.len() ==> screen_bounded(#[trigger] outlines@[q]@[i]),
                        color == self.pixel_color(wi, hi, ts, k as nat, px as int, py as int),
                    decreases ts.len() - k,
                {
                    assert(forall|i: int| 0 <= i < outlines@[k as int]@.len() ==> screen_bounded(#[trigger] outlines@[k as int]@[i]));
                    if fan_covers_exec(&outlines[k], s) {
                        color = tris[k].color;
                    }
                    k += 1;
                }
                let ghost before = display@;
                display.push(color.r);
                display.push(color.g);
                display.push(color.b);
                display.push(color.a);
                proof {
                    let base = 4 * (py * wi + px);
                    assert forall|px2: int, py2: int, c: int|
                        ((0 <= px2 < wi && 0 <= py2 < py) || (0 <= px2 < px + 1 && py2 == py)) && 0 <= c < 4
                            implies #[trigger] display@[4 * (py2 * wi + px2) + c]
                            == channel(self.pixel_color(wi, hi, ts, ts.len(), px2, py2), c) by {
                        if py2 == py && px2 == px {
                            assert(display@[4 * (py2 * wi + px2) + c] == display@[base + c]);
                        } else {
                            if py2 < py {
                                lemma_earlier_row(px2, py2, py as int, wi);
                            }
                            assert(4 * (py2 * wi + px2) + c < base);
                            assert(display@[4 * (py2 * wi + px2) + c] == before[4 * (py2 * wi + px2) + c]);
                        }
                    }
                }
                px += 1;
            }
            proof {
                assert((py + 1) * wi == py * wi + wi) by (nonlinear_arith);
            }
            py += 1;
        }
        proof {
            assert(4 * (hi * wi) == wi * hi * 4) by (nonlinear_arith);
        }
        FrameBuffer { width, height, display }
    }
}

/// A frame rendered from an empty scene is the background at every pixel.
pub proof fn lemma_empty_scene_is_background(cam: Camera, w: int, h: int, bytes: Seq<u8>)
    requires
        cam.frame_matches(w, h, Seq::<Triangle>::empty(), bytes),
    ensures
        bytes.len() == w * h * 4,
        forall|px: int, py: int, c: int|
            0 <= px < w && 0 <= py < h && 0 <= c < 4 ==> #[trigger] bytes[4 * (py * w + px) + c]
                == channel(background(), c),
{
    assert forall|px: int, py: int, c: int|
        0 <= px < w && 0 <= py < h && 0 <= c < 4 implies #[trigger] bytes[4 * (py * w + px) + c]
            == channel(background(), c) by {
        assert(cam.pixel_color(w, h, Seq::<Triangle>::empty(), 0, px, py) == background());
    }
}

proof fn lemma_prefix_color(cam: Camera, w: int, h: int, tris: Seq<Triangle>, t: Triangle, k: nat, px: int, py: int)
    requires
        k <= tris.len(),
    ensures
        cam.pixel_color(w, h, tris.push(t), k, px, py) == cam.pixel_color(w, h, tris, k, px, py),
    decreases k,
{
    if k > 0 {
        assert(tris.push(t)[k - 1] == tris[k - 1]);
        lemma_prefix_color(cam, w, h, tris, t, (k - 1) as nat, px, py);
    }
}

/// A triangle with every vertex outside the depth range `[far, near]` covers
/// no pixel, so drawing it after any scene changes no pixel.
pub proof fn lemma_out_of_range_paints_nothing(cam: Camera, w: int, h: int, tris: Seq<Triangle>, t: Triangle, px: int, py: int)
    requires
        !cam.in_range(t.a.z as int),
        !cam.in_range(t.b.z as int),
        !cam.in_range(t.c.z as int),
    ensures
        !cam.covers(w, h, t, px, py),
        cam.pixel_color(w, h, tris.push(t), tris.len() + 1, px, py) == cam.pixel_color(w, h, tris, tris.len(), px, py),
{
    assert(cam.outline(w, h, t) == Seq::<ScreenPoint>::empty());
    assert(tris.push(t)[tris.len() as int] == t);
    lemma_prefix_color(cam, w, h, tris, t, tris.len(), px, py);
}

/// Where two triangles drawn in the order `t1, t2` both cover a pixel, the
/// pixel shows the color of `t2`.
pub proof fn lemma_later_draw_wins(cam: Camera, w: int, h: int, t1: Triangle, t2: Triangle, px: int, py: int)
    requires
        cam.covers(w, h, t1, px, py),
        cam.covers(w, h, t2, px, py),
    ensures
        cam.pixel_color(w, h, seq![t1, t2], 2, px, py) == t2.color,
{
    assert(seq![t1, t2][1] == t2);
}

/// A triangle whose vertices all lie in the depth range `[far, near]` is
/// drawn whole: its outline is its three projected vertices, unclipped.
pub proof fn lemma_in_range_drawn_whole(cam: Camera, w: int, h: int, t: Triangle)
    requires
        cam.in_range(t.a.z as int),
        cam.in_range(t.b.z as int),
        cam.in_range(t.c.z as int),
    ensures
        !cam.skips(t),
        cam.clipped(t) == seq![t.a, t.b, t.c],
        cam.outline(w, h, t) == seq![cam.project(w, h, t.a), cam.project(w, h, t.b), cam.project(w, h, t.c)],
{
    let tri = seq![t.a, t.b, t.c];
    assert(forall|i: int| 0 <= i < 3 ==> #[trigger] tri[i] == t.a || tri[i] == t.b || tri[i] == t.c);
    lemma_clip_keeps_inside(tri, cam.near as int, true);
    lemma_clip_keeps_inside(tri, cam.far as int, false);
    assert(cam.outline(w, h, t) =~= seq![cam.project(w, h, t.a), cam.project(w, h, t.b), cam.project(w, h, t.c)]);
}

/// No point is admitted by an edge in both directions, so two triangles that
/// share an edge, one on each side, never both cover a point on it.
pub proof fn lemma_shared_edge_owned_once(a: ScreenPoint, b: ScreenPoint, s: ScreenPoint)
    requires
        a != b,
    ensures
        !(edge_admits(a, b, s) && edge_admits(b, a, s)),
{
    let (ax, ay, bx, by, sx, sy) = (a.x as int, a.y as int, b.x as int, b.y as int, s.x as int, s.y as int);
    assert(edge(b, a, s) == -edge(a, b, s)) by (nonlinear_arith)
        requires
            edge(a, b, s) == (bx - ax) * (sy - ay) - (by - ay) * (sx - ax),
            edge(b, a, s) == (ax - bx) * (sy - by) - (ay - by) * (sx - bx),
    ;
}

} // verus!
