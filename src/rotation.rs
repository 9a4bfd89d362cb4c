use vstd::prelude::*;
use crate::arith::floor_div;
use crate::clip::in_limit;
use crate::geometry::Vec3;
use crate::matrix::{Matrix, MatrixError};

verus! {

/// Fixed-point scale of a rotation's cosine and sine, and of a unit axis.
pub const ROTATION_ONE: i64 = 4096;

/// The largest `r` with `r * r <= n`.
pub open spec fn floor_sqrt(n: nat) -> nat
    decreases n,
{
    if n == 0 {
        0
    } else {
        let r = floor_sqrt((n - 1) as nat);
        if (r + 1) * (r + 1) <= n {
            r + 1
        } else {
            r
        }
    }
}

proof fn lemma_floor_sqrt_bounds(n: nat)
    ensures
        floor_sqrt(n) * floor_sqrt(n) <= n < (floor_sqrt(n) + 1) * (floor_sqrt(n) + 1),
    decreases n,
{
    let q = floor_sqrt(n);
    if n == 0 {
        assert(q == 0);
        assert(q * q <= n < (q + 1) * (q + 1)) by (nonlinear_arith)
            requires
                q == 0,
                n == 0,
        ;
    } else {
        let m = (n - 1) as nat;
        lemma_floor_sqrt_bounds(m);
        let r = floor_sqrt(m);
        assert(r * r <= m < (r + 1) * (r + 1));
        if (r + 1) * (r + 1) <= n {
            assert(q == r + 1);
        } else {
            assert(q == r);
        }
        assert(q * q <= n < (q + 1) * (q + 1)) by (nonlinear_arith)
            requires
                r * r <= m,
                m < (r + 1) * (r + 1),
                m + 1 == n,
                (r + 1) * (r + 1) <= n ==> q == r + 1,
                !((r + 1) * (r + 1) <= n) ==> q == r,
        ;
    }
}

pub proof fn lemma_floor_sqrt_unique(n: nat, r: nat)
    requires
        r * r <= n < (r + 1) * (r + 1),
    ensures
        r == floor_sqrt(n),
{
    lemma_floor_sqrt_bounds(n);
    let s = floor_sqrt(n);
    if r < s {
        assert((r + 1) * (r + 1) <= s * s) by (nonlinear_arith)
            requires
                r + 1 <= s,
        ;
    } else if s < r {
        assert((s + 1) * (s + 1) <= r * r) by (nonlinear_arith)
            requires
                s + 1 <= r,
        ;
    }
}

fn isqrt(n: u128) -> (r: u128)
    requires
        n < 0x4_0000_0000_0000_0000,
    ensures
        r == floor_sqrt(n as nat),
        r <= 0x2_0000_0000,
{
    let mut lo: u128 = 0;
    let mut hi: u128 = 0x2_0000_0000;
    assert(hi * hi == 0x4_0000_0000_0000_0000) by (nonlinear_arith)
        requires
            hi == 0x2_0000_0000,
    ;
    while hi - lo > 1
        invariant
            lo < hi <= 0x2_0000_0000,
            lo * lo <= n,
            n < hi * hi,
        decreases hi - lo,
    {
        let mid = lo + (hi - lo) / 2;
        assert(mid * mid <= 0x4_0000_0000_0000_0000) by (nonlinear_arith)
            requires
                mid <= 0x2_0000_0000,
        ;
        if mid * mid <= n {
            lo = mid;
        } else {
            hi = mid;
        }
    }
    proof {
        lemma_floor_sqrt_unique(n as nat, lo as nat);
    }
    lo
}

/// One component of the axis scaled to length `ROTATION_ONE`: `v * ONE^2 / root`
/// rounded down, where `root` is the floor square root of `|axis|^2 * ONE^2`.
pub open spec fn unit_component(v: int, root: int) -> int {
    (v * ROTATION_ONE * ROTATION_ONE) / root
}

pub open spec fn axis_root(x: int, y: int, z: int) -> int {
    floor_sqrt(((x * x + y * y + z * z) * ROTATION_ONE * ROTATION_ONE) as nat) as int
}

/// Numerators, over `ROTATION_ONE^3`, of the homogeneous Rodrigues rotation
/// about the unit axis `k` with cosine `c` and sine `s` (all in units of
/// `ROTATION_ONE`): `c I + s [k]x + (1 - c) k k^T`, with no translation.
pub open spec fn rodrigues_grid(kx: int, ky: int, kz: int, c: int, s: int) -> Seq<Seq<int>> {
    let one = ROTATION_ONE as int;
    let d = c * one * one;
    let o = one - c;
    seq![
        seq![d + o * kx * kx, -s * one * kz + o * kx * ky, s * one * ky + o * kx * kz, 0int],
        seq![s * one * kz + o * ky * kx, d + o * ky * ky, -s * one * kx + o * ky * kz, 0int],
        seq![-s * one * ky + o * kz * kx, s * one * kx + o * kz * ky, d + o * kz * kz, 0int],
        seq![0int, 0int, 0int, one * one * one],
    ]
}

proof fn lemma_component_bound(v: int, n2: int, root: int)
    requires
        v * v <= n2,
        root * root <= n2 * ROTATION_ONE * ROTATION_ONE < (root + 1) * (root + 1),
        root >= 1,
        n2 >= 1,
    ensures
        -ROTATION_ONE <= unit_component(v, root) <= ROTATION_ONE,
{
    let one = ROTATION_ONE as int;
    let av = if v >= 0 { v } else { -v };
    assert(av * av == v * v) by (nonlinear_arith)
        requires
            av == v || av == -v,
    ;
    assert(av * one <= root) by (nonlinear_arith)
        requires
            av * av <= n2,
            n2 * one * one < (root + 1) * (root + 1),
            av >= 0,
            root >= 0,
            one > 0,
    ;
    assert(-(root * one) <= v * one * one <= root * one) by (nonlinear_arith)
        requires
            av * one <= root,
            av == v || av == -v,
            av >= 0,
            one > 0,
    ;
    vstd::arithmetic::div_mod::lemma_div_is_ordered(-(root * one), v * one * one, root);
    vstd::arithmetic::div_mod::lemma_div_is_ordered(v * one * one, root * one, root);
    vstd::arithmetic::div_mod::lemma_div_multiples_vanish(one, root);
    vstd::arithmetic::div_mod::lemma_div_multiples_vanish(-one, root);
    assert(root * one == one * root && -(root * one) == root * -one) by (nonlinear_arith);
}

impl Vec3 {
    pub fn new(x: i64, y: i64, z: i64) -> (r: Vec3)
        ensures
            r == (Vec3 { x, y, z }),
    {
        Vec3 { x, y, z }
    }

    /// The homogeneous rotation about this vector's direction, by the angle
    /// whose cosine and sine are `cos / ROTATION_ONE` and `sin / ROTATION_ONE`.
    ///
    /// The axis is first scaled to length `ROTATION_ONE` (rounded down); the
    /// result has denominator `ROTATION_ONE^3`. Fails with
    /// `DegenerateAxisError` exactly when the vector is zero.
    pub fn to_rotation_matrix(&self, cos: i64, sin: i64) -> (r: Result<Matrix, MatrixError>)
        requires
            in_limit(self.x as int),
            in_limit(self.y as int),
            in_limit(self.z as int),
            -ROTATION_ONE <= cos <= ROTATION_ONE,
            -ROTATION_ONE <= sin <= ROTATION_ONE,
        ensures
            (self.x == 0 && self.y == 0 && self.z == 0) <==> r == Err::<Matrix, MatrixError>(
                MatrixError::DegenerateAxisError,
            ),
            (self.x == 0 && self.y == 0 && self.z == 0) <==> r is Err,
            r is Ok ==> ({
                let m = r->Ok_0;
                let root = axis_root(self.x as int, self.y as int, self.z as int);
                &&& m.wf()
                &&& m.rows == 4
                &&& m.cols == 4
                &&& m.den == ROTATION_ONE * ROTATION_ONE * ROTATION_ONE
                &&& m.grid() == rodrigues_grid(
                    unit_component(self.x as int, root),
                    unit_component(self.y as int, root),
                    unit_component(self.z as int, root),
                    cos as int,
                    sin as int,
                )
            }),
    {
        if self.x == 0 && self.y == 0 && self.z == 0 {
            return Err(MatrixError::DegenerateAxisError);
        }
        let (x, y, z) = (self.x as i128, self.y as i128, self.z as i128);
        let one: i128 = ROTATION_ONE as i128;
        proof {
            assert(0 <= x * x <= 0x100_0000_0000) by (nonlinear_arith)
                requires
                    -0x10_0000 <= x <= 0x10_0000,
            ;
            assert(0 <= y * y <= 0x100_0000_0000) by (nonlinear_arith)
                requires
                    -0x10_0000 <= y <= 0x10_0000,
            ;
            assert(0 <= z * z <= 0x100_0000_0000) by (nonlinear_arith)
                requires
                    -0x10_0000 <= z <= 0x10_0000,
            ;
            assert(x * x + y * y + z * z >= 1) by (nonlinear_arith)
                requires
                    x != 0 || y != 0 || z != 0,
            ;
        }
        let n2 = x * x + y * y + z * z;
        let scaled = n2 * one * one;
        let root = isqrt(scaled as u128) as i128;
        proof {
            lemma_floor_sqrt_bounds(scaled as nat);
            assert(root >= 1) by (nonlinear_arith)
                requires
                    scaled >= 1,
                    scaled < (root + 1) * (root + 1),
                    root >= 0,
            ;
            assert(x * x <= n2 && y * y <= n2 && z * z <= n2);
            lemma_component_bound(x as int, n2 as int, root as int);
            lemma_component_bound(y as int, n2 as int, root as int);
            lemma_component_bound(z as int, n2 as int, root as int);
            assert(-0x1000_0000_0000 <= x * one * one <= 0x1000_0000_0000) by (nonlinear_arith)
                requires -0x10_0000 <= x <= 0x10_0000, one == 4096;
            assert(-0x1000_0000_0000 <= y * one * one <= 0x1000_0000_0000) by (nonlinear_arith)
                requires -0x10_0000 <= y <= 0x10_0000, one == 4096;
            assert(-0x1000_0000_0000 <= z * one * one <= 0x1000_0000_0000) by (nonlinear_arith)
                requires -0x10_0000 <= z <= 0x10_0000, one == 4096;
        }
        let kx = floor_div(x * one * one, root);
        let ky = floor_div(y * one * one, root);
        let kz = floor_div(z * one * one, root);
        let c = cos as i128;
        let s = sin as i128;
        proof {
            assert(x * one * one == x * ROTATION_ONE * ROTATION_ONE);
            assert(y * one * one == y * ROTATION_ONE * ROTATION_ONE);
            assert(z * one * one == z * ROTATION_ONE * ROTATION_ONE);
            assert(-4096 <= kx <= 4096 && -4096 <= ky <= 4096 && -4096 <= kz <= 4096);
        }
        let ns = -s;
        let o = one - c;
        proof {
            lemma_rodrigues_bounds(one as int, c as int, s as int, ns as int, o as int);
        }
        let d = c * one * one;
        let e00 = (d + o * kx * kx) as i64;
        let e01 = (ns * one * kz + o * kx * ky) as i64;
        let e02 = (s * one * ky + o * kx * kz) as i64;
        let e10 = (s * one * kz + o * ky * kx) as i64;
        let e11 = (d + o * ky * ky) as i64;
        let e12 = (ns * one * kx + o * ky * kz) as i64;
        let e20 = (ns * one * ky + o * kz * kx) as i64;
        let e21 = (s * one * kx + o * kz * ky) as i64;
        let e22 = (d + o * kz * kz) as i64;
        let cube = (one * one * one) as i64;
        let data = vec![
            vec![e00, e01, e02, 0i64],
            vec![e10, e11, e12, 0i64],
            vec![e20, e21, e22, 0i64],
            vec![0i64, 0i64, 0i64, cube],
        ];
        let m = Matrix { rows: 4, cols: 4, den: cube, data };
        assert(m.grid() =~~= rodrigues_grid(kx as int, ky as int, kz as int, c as int, s as int));
        Ok(m)
    }
}

/// Every term of a Rodrigues grid with components of magnitude at most
/// `one` stays below `2^40`.
proof fn lemma_rodrigues_bounds(one: int, c: int, s: int, ns: int, o: int)
    requires
        one == 4096,
        -4096 <= c <= 4096,
        -4096 <= s <= 4096,
        ns == -s,
        o == one - c,
    ensures
        forall|a: int, b: int|
            -4096 <= a <= 4096 && -4096 <= b <= 4096 ==> -0x80_0000_0000 <= #[trigger] (o * a * b)
                <= 0x80_0000_0000,
        forall|a: int| -4096 <= a <= 4096 ==> -0x80_0000_0000 <= #[trigger] (s * one * a) <= 0x80_0000_0000,
        forall|a: int| -4096 <= a <= 4096 ==> -0x80_0000_0000 <= #[trigger] (ns * one * a) <= 0x80_0000_0000,
        -0x80_0000_0000 <= c * one * one <= 0x80_0000_0000,
        forall|a: int| -4096 <= a <= 4096 ==> -0x400_0000 <= #[trigger] (o * a) <= 0x400_0000,
        -0x100_0000 <= s * one <= 0x100_0000,
        -0x100_0000 <= ns * one <= 0x100_0000,
        -0x100_0000 <= c * one <= 0x100_0000,
{
    assert forall|a: int| -4096 <= a <= 4096 implies -0x400_0000 <= #[trigger] (o * a) <= 0x400_0000 by {
        assert(-0x400_0000 <= o * a <= 0x400_0000) by (nonlinear_arith)
            requires -4096 <= a <= 4096, 0 <= o <= 8192;
    }
    assert(-0x100_0000 <= s * one <= 0x100_0000) by (nonlinear_arith)
        requires -4096 <= s <= 4096, one == 4096;
    assert(-0x100_0000 <= ns * one <= 0x100_0000) by (nonlinear_arith)
        requires -4096 <= ns <= 4096, one == 4096;
    assert(-0x100_0000 <= c * one <= 0x100_0000) by (nonlinear_arith)
        requires -4096 <= c <= 4096, one == 4096;
    assert forall|a: int, b: int| -4096 <= a <= 4096 && -4096 <= b <= 4096 implies -0x80_0000_0000 <= #[trigger] (o * a * b) <= 0x80_0000_0000 by {
        assert(-0x80_0000_0000 <= o * a * b <= 0x80_0000_0000) by (nonlinear_arith)
            requires -4096 <= a <= 4096, -4096 <= b <= 4096, 0 <= o <= 8192;
    }
    assert forall|a: int| -4096 <= a <= 4096 implies -0x80_0000_0000 <= #[trigger] (s * one * a) <= 0x80_0000_0000 by {
        assert(-0x80_0000_0000 <= s * one * a <= 0x80_0000_0000) by (nonlinear_arith)
            requires -4096 <= a <= 4096, -4096 <= s <= 4096, one == 4096;
    }
    assert forall|a: int| -4096 <= a <= 4096 implies -0x80_0000_0000 <= #[trigger] (ns * one * a) <= 0x80_0000_0000 by {
        assert(-0x80_0000_0000 <= ns * one * a <= 0x80_0000_0000) by (nonlinear_arith)
            requires -4096 <= a <= 4096, -4096 <= ns <= 4096, one == 4096;
    }
    assert(-0x80_0000_0000 <= c * one * one <= 0x80_0000_0000) by (nonlinear_arith)
        requires -4096 <= c <= 4096, one == 4096;
}

} // verus!
