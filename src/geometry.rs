use vstd::prelude::*;
use crate::arith::floor_div;
use crate::matrix::{
    grid_mul, has_shape, identity_grid, lemma_identity_left, row_col, translation_grid, Matrix,
    MatrixError,
};

verus! {

/// A position in space, in integer units.
#[derive(Debug, Clone, Copy, PartialEq, Eq, Structural)]
pub struct Point3 {
    pub x: i64,
    pub y: i64,
    pub z: i64,
}

/// A direction in space, in integer units.
#[derive(Debug, Clone, Copy, PartialEq, Eq, Structural)]
pub struct Vec3 {
    pub x: i64,
    pub y: i64,
    pub z: i64,
}

/// The homogeneous column `[x, y, z, 1]`.
pub open spec fn column(x: int, y: int, z: int) -> Seq<Seq<int>> {
    seq![seq![x], seq![y], seq![z], seq![1int]]
}

impl Point3 {
    pub fn new(x: i64, y: i64, z: i64) -> (r: Point3)
        ensures
            r == (Point3 { x, y, z }),
    {
        Point3 { x, y, z }
    }

    pub open spec fn homogeneous(&self) -> Seq<Seq<int>> {
        column(self.x as int, self.y as int, self.z as int)
    }

    /// The 4x1 homogeneous column of this point, with denominator 1.
    pub fn to_matrix(&self) -> (r: Matrix)
        ensures
            r.wf(),
            r.rows == 4,
            r.cols == 1,
            r.den == 1,
            r.grid() == self.homogeneous(),
    {
        let data = vec![vec![self.x], vec![self.y], vec![self.z], vec![1i64]];
        let r = Matrix { rows: 4, cols: 1, den: 1, data };
        assert(r.grid() =~~= self.homogeneous());
        r
    }

    /// Reads the first column's rows 0 to 2, divided by the matrix's
    /// denominator and rounded down; any further row is ignored.
    ///
    /// Fails with `ShapeError` exactly when the matrix has fewer than three
    /// rows or no column.
    pub fn from_matrix(m: &Matrix) -> (r: Result<Point3, MatrixError>)
        requires
            m.wf(),
        ensures
            (m.rows < 3 || m.cols < 1) <==> r == Err::<Point3, MatrixError>(MatrixError::ShapeError),
            (m.rows < 3 || m.cols < 1) <==> r is Err,
            r is Ok ==> ({
                let p = r->Ok_0;
                &&& p.x == m.grid()[0][0] / (m.den as int)
                &&& p.y == m.grid()[1][0] / (m.den as int)
                &&& p.z == m.grid()[2][0] / (m.den as int)
            }),
    {
        if m.rows < 3 || m.cols < 1 {
            return Err(MatrixError::ShapeError);
        }
        let x = Self::read_scaled(m.data[0][0], m.den);
        let y = Self::read_scaled(m.data[1][0], m.den);
        let z = Self::read_scaled(m.data[2][0], m.den);
        Ok(Point3 { x, y, z })
    }

    fn read_scaled(v: i64, den: i64) -> (r: i64)
        requires
            den > 0,
        ensures
            r == v as int / den as int,
    {
        let q = floor_div(v as i128, den as i128);
        proof {
            let vi = v as int;
            let di = den as int;
            vstd::arithmetic::div_mod::lemma_fundamental_div_mod(vi, di);
            assert(i64::MIN <= vi / di <= i64::MAX) by (nonlinear_arith)
                requires
                    (vi / di) * di <= vi < (vi / di) * di + di,
                    di >= 1,
                    i64::MIN <= vi <= i64::MAX,
            ;
        }
        q as i64
    }
}

/// The identity leaves every homogeneous point unchanged.
pub proof fn lemma_identity_keeps_point(p: Point3)
    ensures
        grid_mul(identity_grid(4), p.homogeneous(), 4, 4, 1) == p.homogeneous(),
{
    assert(has_shape(p.homogeneous(), 4, 1));
    lemma_identity_left(p.homogeneous(), 4, 1);
}

/// The translation by `(dx, dy, dz)` takes the point `(x, y, z)` exactly to
/// `(x + dx, y + dy, z + dz)`.
pub proof fn lemma_move_point(p: Point3, dx: int, dy: int, dz: int)
    ensures
        grid_mul(translation_grid(dx, dy, dz), p.homogeneous(), 4, 4, 1) == column(
            p.x + dx,
            p.y + dy,
            p.z + dz,
        ),
{
    let t = translation_grid(dx, dy, dz);
    let h = p.homogeneous();
    let r = grid_mul(t, h, 4, 4, 1);
    let e = column(p.x + dx, p.y + dy, p.z + dz);
    reveal_with_fuel(row_col, 5);
    assert forall|i: int| 0 <= i < 4 implies #[trigger] r[i] =~= e[i] by {
        reveal_with_fuel(row_col, 5);
        assert(r[i].len() == 1);
        let (a0, a1, a2, a3) = (t[i][0], t[i][1], t[i][2], t[i][3]);
        let (x, y, z) = (p.x as int, p.y as int, p.z as int);
        assert(h[0][0] == x && h[1][0] == y && h[2][0] == z && h[3][0] == 1);
        assert(r[i][0] == a0 * x + a1 * y + a2 * z + a3 * 1);
        assert(r[i][0] == e[i][0]) by (nonlinear_arith)
            requires
                r[i][0] == a0 * x + a1 * y + a2 * z + a3 * 1,
                i == 0 ==> a0 == 1 && a1 == 0 && a2 == 0 && a3 == dx && e[i][0] == x + dx,
                i == 1 ==> a0 == 0 && a1 == 1 && a2 == 0 && a3 == dy && e[i][0] == y + dy,
                i == 2 ==> a0 == 0 && a1 == 0 && a2 == 1 && a3 == dz && e[i][0] == z + dz,
                i == 3 ==> a0 == 0 && a1 == 0 && a2 == 0 && a3 == 1 && e[i][0] == 1,
                0 <= i < 4,
        ;
    }
    assert(r =~= e);
}

} // verus!
