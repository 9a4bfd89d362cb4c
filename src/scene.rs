use vstd::prelude::*;
use crate::geometry::Point3;

verus! {

/// An RGBA8 color.
#[derive(Debug, Clone, Copy, PartialEq, Eq, Structural)]
pub struct Color {
    pub r: u8,
    pub g: u8,
    pub b: u8,
    pub a: u8,
}

/// Opaque white, the fill of a triangle made without a color.
pub open spec fn white() -> Color {
    Color { r: 255, g: 255, b: 255, a: 255 }
}

/// A triangle with its three vertices in order and a flat fill color.
#[derive(Debug, Clone, Copy, PartialEq, Eq, Structural)]
pub struct Triangle {
    pub a: Point3,
    pub b: Point3,
    pub c: Point3,
    pub color: Color,
}

impl Triangle {
    /// A triangle filled with opaque white.
    pub fn new(a: Point3, b: Point3, c: Point3) -> (r: Triangle)
        ensures
            r == (Triangle { a, b, c, color: white() }),
    {
        Triangle { a, b, c, color: Color { r: 255, g: 255, b: 255, a: 255 } }
    }

    pub fn with_color(a: Point3, b: Point3, c: Point3, color: Color) -> (r: Triangle)
        ensures
            r == (Triangle { a, b, c, color }),
    {
        Triangle { a, b, c, color }
    }
}

/// The triangles of a scene, in drawing order.
#[derive(Debug)]
pub struct SceneBuffer {
    pub objects: Vec<Triangle>,
}

impl SceneBuffer {
    pub open spec fn view(&self) -> Seq<Triangle> {
        self.objects@
    }

    pub fn new() -> (r: SceneBuffer)
        ensures
            r@ == Seq::<Triangle>::empty(),
    {
        SceneBuffer { objects: Vec::new() }
    }

    /// Appends a triangle; it is drawn after every triangle already there.
    pub fn add_object(&mut self, t: Triangle)
        ensures
            final(self)@ == old(self)@.push(t),
    {
        self.objects.push(t);
    }

    pub fn len(&self) -> (r: usize)
        ensures
            r == self@.len(),
    {
        self.objects.len()
    }
}

} // verus!
