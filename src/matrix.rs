use vstd::prelude::*;

verus! {

/// Smallest value an `i64` entry can hold, as a mathematical integer.
pub open spec fn i64_min() -> int {
    -0x8000_0000_0000_0000
}

/// Largest value an `i64` entry can hold, as a mathematical integer.
pub open spec fn i64_max() -> int {
    0x7fff_ffff_ffff_ffff
}

pub open spec fn fits_i64(v: int) -> bool {
    i64_min() <= v <= i64_max()
}

/// Sum of the first `n` products of row `i` of `a` with column `j` of `b`.
pub open spec fn row_col(a: Seq<Seq<int>>, b: Seq<Seq<int>>, i: int, j: int, n: nat) -> int
    decreases n,
{
    if n == 0 {
        0
    } else {
        row_col(a, b, i, j, (n - 1) as nat) + a[i][n - 1] * b[n - 1][j]
    }
}

/// The `rows x cols` product of `a` and `b`, whose shared dimension is `n`.
pub open spec fn grid_mul(a: Seq<Seq<int>>, b: Seq<Seq<int>>, rows: nat, n: nat, cols: nat) -> Seq<
    Seq<int>,
> {
    Seq::new(rows, |i: int| Seq::new(cols, |j: int| row_col(a, b, i, j, n)))
}

/// `g` has `rows` rows of `cols` entries each.
pub open spec fn has_shape(g: Seq<Seq<int>>, rows: nat, cols: nat) -> bool {
    g.len() == rows && forall|i: int| 0 <= i < rows ==> #[trigger] g[i].len() == cols
}

/// Every partial sum of the `rows x cols` product of `a` and `b` (shared
/// dimension `n`), and the product of the denominators, fit in 64 bits.
pub open spec fn grid_product_fits(a: Seq<Seq<int>>, b: Seq<Seq<int>>, rows: nat, n: nat, cols: nat, da: int, db: int) -> bool {
    &&& fits_i64(da * db)
    &&& forall|i: int, j: int, k: nat|
        0 <= i < rows && 0 <= j < cols && k <= n ==> fits_i64(#[trigger] row_col(a, b, i, j, k))
}

pub open spec fn identity_grid(n: nat) -> Seq<Seq<int>> {
    Seq::new(n, |i: int| Seq::new(n, |j: int| if i == j { 1int } else { 0int }))
}

/// Errors of the matrix layer.
#[derive(Debug, Clone, Copy, PartialEq, Eq, Structural)]
pub enum MatrixError {
    /// The operands' shapes do not allow the operation.
    ShapeError,
    /// A result entry or a scale does not fit in 64 bits.
    OverflowError,
    /// A rotation was asked for about a zero-length axis.
    DegenerateAxisError,
}

/// A matrix of rational entries: entry `(i, j)` is `data[i][j] / den`.
///
/// All entries share one positive denominator, so translations (whose
/// denominator is 1) compose exactly with fixed-point rotations.
#[derive(Debug)]
pub struct Matrix {
    pub rows: usize,
    pub cols: usize,
    pub den: i64,
    pub data: Vec<Vec<i64>>,
}

impl Matrix {
    /// The numerators as a grid of mathematical integers.
    pub open spec fn grid(&self) -> Seq<Seq<int>> {
        Seq::new(self.data@.len(), |i: int| Seq::new(self.data@[i]@.len(), |j: int| self.data@[i]@[j] as int))
    }

    pub open spec fn wf(&self) -> bool {
        &&& self.den > 0
        &&& self.data@.len() == self.rows
        &&& forall|i: int| 0 <= i < self.rows ==> (#[trigger] self.data@[i])@.len() == self.cols
    }

    /// Numerators of the product `a * b` (shapes permitting).
    pub open spec fn product_grid(a: &Matrix, b: &Matrix) -> Seq<Seq<int>> {
        grid_mul(a.grid(), b.grid(), a.rows as nat, a.cols as nat, b.cols as nat)
    }

    /// Every partial sum met while computing `a * b`, and its denominator, fit in 64 bits.
    pub open spec fn product_fits(a: &Matrix, b: &Matrix) -> bool {
        grid_product_fits(a.grid(), b.grid(), a.rows as nat, a.cols as nat, b.cols as nat, a.den as int, b.den as int)
    }

    /// The `n x n` identity.
    pub fn identity(n: usize) -> (r: Matrix)
        ensures
            r.wf(),
            r.rows == n,
            r.cols == n,
            r.den == 1,
            r.grid() == identity_grid(n as nat),
    {
        let mut data: Vec<Vec<i64>> = Vec::new();
        let mut i: usize = 0;
        while i < n
            invariant
                i <= n,
                data@.len() == i,
                forall|a: int| 0 <= a < i ==> (#[trigger] data@[a])@.len() == n,
                forall|a: int, b: int|
                    0 <= a < i && 0 <= b < n ==> data@[a]@[b] == (if a == b { 1i64 } else { 0i64 }),
            decreases n - i,
        {
            let mut row: Vec<i64> = Vec::new();
            let mut j: usize = 0;
            while j < n
                invariant
                    j <= n,
                    row@.len() == j,
                    forall|b: int| 0 <= b < j ==> row@[b] == (if i == b { 1i64 } else { 0i64 }),
                decreases n - j,
            {
                if i == j {
                    row.push(1);
                } else {
                    row.push(0);
                }
                j += 1;
            }
            data.push(row);
            i += 1;
        }
        let r = Matrix { rows: n, cols: n, den: 1, data };
        assert(r.grid() =~~= identity_grid(n as nat));
        r
    }

    /// The 4x4 homogeneous translation by `(dx, dy, dz)`.
    pub fn move_matrix(dx: i64, dy: i64, dz: i64) -> (r: Matrix)
        ensures
            r.wf(),
            r.rows == 4,
            r.cols == 4,
            r.den == 1,
            r.grid() == translation_grid(dx as int, dy as int, dz as int),
    {
        let data = vec![
            vec![1i64, 0, 0, dx],
            vec![0i64, 1, 0, dy],
            vec![0i64, 0, 1, dz],
            vec![0i64, 0, 0, 1],
        ];
        let r = Matrix { rows: 4, cols: 4, den: 1, data };
        assert(r.grid() =~~= translation_grid(dx as int, dy as int, dz as int));
        r
    }

    /// Composes two transforms: `a * b` applies `b` first, then `a`.
    ///
    /// Fails with `ShapeError` exactly when `a.cols != b.rows`, and otherwise
    /// with `OverflowError` exactly when some partial sum or the denominator
    /// leaves the 64-bit range. The operands are left untouched.
    pub fn mul(a: &Matrix, b: &Matrix) -> (r: Result<Matrix, MatrixError>)
        requires
            a.wf(),
            b.wf(),
        ensures
            a.cols != b.rows ==> r == Err::<Matrix, MatrixError>(MatrixError::ShapeError),
            a.cols == b.rows ==> (r is Ok <==> Matrix::product_fits(a, b)),
            a.cols == b.rows && !Matrix::product_fits(a, b) ==> r == Err::<Matrix, MatrixError>(
                MatrixError::OverflowError,
            ),
            r is Ok ==> ({
                let m = r->Ok_0;
                &&& m.wf()
                &&& m.rows == a.rows
                &&& m.cols == b.cols
                &&& m.den == a.den * b.den
                &&& m.grid() == Matrix::product_grid(a, b)
            }),
    {
        if a.cols != b.rows {
            return Err(MatrixError::ShapeError);
        }
        let n = a.cols;
        proof {
            lemma_i64_product_bound(a.den, b.den);
            assert(a.den * b.den > 0) by (nonlinear_arith)
                requires
                    a.den > 0,
                    b.den > 0,
            ;
        }
        let den_wide = a.den as i128 * b.den as i128;
        if den_wide < i64::MIN as i128 || den_wide > i64::MAX as i128 {
            return Err(MatrixError::OverflowError);
        }
        let ghost ga = a.grid();
        let ghost gb = b.grid();
        let mut data: Vec<Vec<i64>> = Vec::new();
        let mut i: usize = 0;
        while i < a.rows
            invariant
                a.wf(),
                b.wf(),
                n == a.cols,
                n == b.rows,
                ga == a.grid(),
                gb == b.grid(),
                i <= a.rows,
                data@.len() == i,
                forall|x: int| 0 <= x < i ==> (#[trigger] data@[x])@.len() == b.cols,
                forall|x: int, y: int|
                    0 <= x < i && 0 <= y < b.cols ==> data@[x]@[y] == row_col(ga, gb, x, y, n as nat),
                forall|x: int, y: int, k: nat|
                    0 <= x < i && 0 <= y < b.cols && k <= n ==> fits_i64(
                        #[trigger] row_col(ga, gb, x, y, k),
                    ),
            decreases a.rows - i,
        {
            let mut row: Vec<i64> = Vec::new();
            let mut j: usize = 0;
            while j < b.cols
                invariant
                    a.wf(),
                    b.wf(),
                    n == a.cols,
                    n == b.rows,
                    ga == a.grid(),
                    gb == b.grid(),
                    i < a.rows,
                    j <= b.cols,
                    row@.len() == j,
                    forall|y: int| 0 <= y < j ==> row@[y] == row_col(ga, gb, i as int, y, n as nat),
                    forall|x: int, y: int, k: nat|
                        0 <= x < i && 0 <= y < b.cols && k <= n ==> fits_i64(
                            #[trigger] row_col(ga, gb, x, y, k),
                        ),
                    forall|y: int, k: nat|
                        0 <= y < j && k <= n ==> fits_i64(
                            #[trigger] row_col(ga, gb, i as int, y, k),
                        ),
                decreases b.cols - j,
            {
                let mut acc: i128 = 0;
                let mut k: usize = 0;
                while k < n
                    invariant
                        a.wf(),
                        b.wf(),
                        n == a.cols,
                        n == b.rows,
                        ga == a.grid(),
                        gb == b.grid(),
                        i < a.rows,
                        j < b.cols,
                        k <= n,
                        acc == row_col(ga, gb, i as int, j as int, k as nat),
                        forall|q: nat| q <= k ==> fits_i64(
                            #[trigger] row_col(ga, gb, i as int, j as int, q),
                        ),
                    decreases n - k,
                {
                    let x = a.data[i][k];
                    let y = b.data[k][j];
                    assert(ga[i as int][k as int] == x as int);
                    assert(gb[k as int][j as int] == y as int);
                    proof {
                        lemma_i64_product_bound(x, y);
                    }
                    let term = x as i128 * y as i128;
                    acc = acc + term;
                    k += 1;
                    if acc < i64::MIN as i128 || acc > i64::MAX as i128 {
                        assert(!fits_i64(row_col(a.grid(), b.grid(), i as int, j as int, k as nat)));
                        return Err(MatrixError::OverflowError);
                    }
                }
                row.push(acc as i64);
                j += 1;
            }
            data.push(row);
            i += 1;
        }
        let m = Matrix { rows: a.rows, cols: b.cols, den: den_wide as i64, data };
        assert forall|x: int| 0 <= x < a.rows implies #[trigger] m.grid()[x] =~= Matrix::product_grid(a, b)[x] by {
            assert(m.data@[x]@.len() == b.cols);
        }
        assert(m.grid() =~= Matrix::product_grid(a, b));
        Ok(m)
    }
}

proof fn lemma_i64_product_bound(x: i64, y: i64)
    ensures
        -0x4000_0000_0000_0000_0000_0000_0000_0000 <= (x as int) * (y as int) <= 0x4000_0000_0000_0000_0000_0000_0000_0000,
{
    assert(-0x4000_0000_0000_0000_0000_0000_0000_0000 <= (x as int) * (y as int) <= 0x4000_0000_0000_0000_0000_0000_0000_0000)
        by (nonlinear_arith)
        requires
            -0x8000_0000_0000_0000 <= x <= 0x7fff_ffff_ffff_ffff,
            -0x8000_0000_0000_0000 <= y <= 0x7fff_ffff_ffff_ffff,
    ;
}

/// Numerators of the 4x4 homogeneous translation by `(dx, dy, dz)`.
pub open spec fn translation_grid(dx: int, dy: int, dz: int) -> Seq<Seq<int>> {
    seq![seq![1int, 0, 0, dx], seq![0int, 1, 0, dy], seq![0int, 0, 1, dz], seq![0int, 0, 0, 1]]
}

/// Sum over `k < p` of `(row i of a) . (column k of b)` times `c[k][j]`, where
/// each inner product runs over the first `n` terms.
pub open spec fn left_nested(a: Seq<Seq<int>>, b: Seq<Seq<int>>, c: Seq<Seq<int>>, i: int, j: int, n: nat, p: nat) -> int
    decreases p,
{
    if p == 0 {
        0
    } else {
        left_nested(a, b, c, i, j, n, (p - 1) as nat) + row_col(a, b, i, p - 1, n) * c[p - 1][j]
    }
}

/// Sum over `l < n` of `a[i][l]` times `(row l of b) . (column j of c)` over `p` terms.
pub open spec fn right_nested(a: Seq<Seq<int>>, b: Seq<Seq<int>>, c: Seq<Seq<int>>, i: int, j: int, n: nat, p: nat) -> int
    decreases n,
{
    if n == 0 {
        0
    } else {
        right_nested(a, b, c, i, j, (n - 1) as nat, p) + a[i][n - 1] * row_col(b, c, n - 1, j, p)
    }
}

proof fn lemma_left_step(a: Seq<Seq<int>>, b: Seq<Seq<int>>, c: Seq<Seq<int>>, i: int, j: int, n: nat, p: nat)
    ensures
        left_nested(a, b, c, i, j, n + 1, p) == left_nested(a, b, c, i, j, n, p) + a[i][n as int] * row_col(b, c, n as int, j, p),
    decreases p,
{
    if p > 0 {
        lemma_left_step(a, b, c, i, j, n, (p - 1) as nat);
        let x = row_col(a, b, i, p - 1, n);
        let y = a[i][n as int];
        let z = b[n as int][p - 1];
        let w = c[p - 1][j];
        assert((x + y * z) * w == x * w + y * (z * w)) by (nonlinear_arith);
        assert(row_col(a, b, i, p - 1, n + 1) == x + y * z);
        let rr = row_col(b, c, n as int, j, (p - 1) as nat);
        assert(row_col(b, c, n as int, j, p) == rr + z * w);
        assert(y * (rr + z * w) == y * rr + y * (z * w)) by (nonlinear_arith);
    }
}

proof fn lemma_nested_swap(a: Seq<Seq<int>>, b: Seq<Seq<int>>, c: Seq<Seq<int>>, i: int, j: int, n: nat, p: nat)
    ensures
        left_nested(a, b, c, i, j, n, p) == right_nested(a, b, c, i, j, n, p),
    decreases n,
{
    if n == 0 {
        lemma_left_zero(a, b, c, i, j, p);
    } else {
        lemma_nested_swap(a, b, c, i, j, (n - 1) as nat, p);
        lemma_left_step(a, b, c, i, j, (n - 1) as nat, p);
    }
}

proof fn lemma_left_zero(a: Seq<Seq<int>>, b: Seq<Seq<int>>, c: Seq<Seq<int>>, i: int, j: int, p: nat)
    ensures
        left_nested(a, b, c, i, j, 0, p) == 0,
    decreases p,
{
    if p > 0 {
        lemma_left_zero(a, b, c, i, j, (p - 1) as nat);
    }
}

/// An entry of `(a * b) * c`, summed up to `q` terms, is a left-nested sum.
proof fn lemma_left_entry(a: Seq<Seq<int>>, b: Seq<Seq<int>>, c: Seq<Seq<int>>, m: nat, n: nat, p: nat, i: int, j: int, q: nat)
    requires
        0 <= i < m,
        q <= p,
    ensures
        row_col(grid_mul(a, b, m, n, p), c, i, j, q) == left_nested(a, b, c, i, j, n, q),
    decreases q,
{
    if q > 0 {
        lemma_left_entry(a, b, c, m, n, p, i, j, (q - 1) as nat);
    }
}

/// An entry of `a * (b * c)`, summed up to `r` terms, is a right-nested sum.
proof fn lemma_right_entry(a: Seq<Seq<int>>, b: Seq<Seq<int>>, c: Seq<Seq<int>>, n: nat, p: nat, q: nat, i: int, j: int, r: nat)
    requires
        0 <= j < q,
        r <= n,
    ensures
        row_col(a, grid_mul(b, c, n, p, q), i, j, r) == right_nested(a, b, c, i, j, r, p),
    decreases r,
{
    if r > 0 {
        lemma_right_entry(a, b, c, n, p, q, i, j, (r - 1) as nat);
    }
}

/// Matrix multiplication is associative: for an `m x n` grid `a`, an `n x p`
/// grid `b` and a `p x q` grid `c`, `(a * b) * c` and `a * (b * c)` are equal,
/// and so are their denominators.
pub proof fn lemma_mul_associative(a: Seq<Seq<int>>, b: Seq<Seq<int>>, c: Seq<Seq<int>>, m: nat, n: nat, p: nat, q: nat, da: int, db: int, dc: int)
    ensures
        grid_mul(grid_mul(a, b, m, n, p), c, m, p, q) == grid_mul(a, grid_mul(b, c, n, p, q), m, n, q),
        (da * db) * dc == da * (db * dc),
{
    assert((da * db) * dc == da * (db * dc)) by (nonlinear_arith);
    let l = grid_mul(grid_mul(a, b, m, n, p), c, m, p, q);
    let r = grid_mul(a, grid_mul(b, c, n, p, q), m, n, q);
    assert forall|i: int| 0 <= i < m implies #[trigger] l[i] =~= r[i] by {
        assert forall|j: int| 0 <= j < q implies #[trigger] l[i][j] == r[i][j] by {
            lemma_left_entry(a, b, c, m, n, p, i, j, p);
            lemma_right_entry(a, b, c, n, p, q, i, j, n);
            lemma_nested_swap(a, b, c, i, j, n, p);
        }
    }
    assert(l =~= r);
}

/// Multiplying by the identity on the left leaves any `n x cols` grid unchanged.
pub proof fn lemma_identity_left(g: Seq<Seq<int>>, n: nat, cols: nat)
    requires
        has_shape(g, n, cols),
    ensures
        grid_mul(identity_grid(n), g, n, n, cols) == g,
{
    let r = grid_mul(identity_grid(n), g, n, n, cols);
    assert forall|i: int| 0 <= i < n implies #[trigger] r[i] =~= g[i] by {
        assert forall|j: int| 0 <= j < cols implies #[trigger] r[i][j] == g[i][j] by {
            lemma_identity_sum(g, n, i, j, n);
        }
    }
    assert(r =~= g);
}

proof fn lemma_identity_sum(g: Seq<Seq<int>>, n: nat, i: int, j: int, k: nat)
    requires
        0 <= i < n,
        k <= n,
    ensures
        row_col(identity_grid(n), g, i, j, k) == if i < k { g[i][j] } else { 0 },
    decreases k,
{
    if k > 0 {
        lemma_identity_sum(g, n, i, j, (k - 1) as nat);
    }
}

} // verus!
