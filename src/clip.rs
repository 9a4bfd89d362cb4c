use vstd::prelude::*;
use crate::arith::floor_div;
use crate::geometry::Point3;

verus! {

/// Largest magnitude of a coordinate or camera distance the pipeline accepts.
pub const COORD_LIMIT: i64 = 0x10_0000;

pub open spec fn in_limit(v: int) -> bool {
    -COORD_LIMIT <= v <= COORD_LIMIT
}

pub open spec fn point_in_limit(p: Point3) -> bool {
    in_limit(p.x as int) && in_limit(p.y as int) && in_limit(p.z as int)
}

pub open spec fn all_in_limit(s: Seq<Point3>) -> bool {
    forall|i: int| 0 <= i < s.len() ==> point_in_limit(#[trigger] s[i])
}

/// Whether `v` is on the kept side of the plane `z == plane`: at or below it
/// when `below`, else at or above it.
pub open spec fn keeps(v: Point3, plane: int, below: bool) -> bool {
    if below {
        v.z <= plane
    } else {
        v.z >= plane
    }
}

/// `span * t / dz` rounded down, for a nonzero `dz`.
pub open spec fn lerp(span: int, t: int, dz: int) -> int {
    if dz > 0 {
        (span * t) / dz
    } else {
        (span * -t) / -dz
    }
}

/// Where the segment from `p` to `q` meets the plane `z == plane`, with the
/// other coordinates interpolated linearly and rounded down.
pub open spec fn cut(p: Point3, q: Point3, plane: int) -> Point3 {
    Point3 {
        x: (p.x + lerp(q.x - p.x, plane - p.z, q.z - p.z)) as i64,
        y: (p.y + lerp(q.y - p.y, plane - p.z, q.z - p.z)) as i64,
        z: plane as i64,
    }
}

/// What the edge from `p` to `q` contributes to the clipped polygon.
pub open spec fn clip_edge(p: Point3, q: Point3, plane: int, below: bool) -> Seq<Point3> {
    if keeps(p, plane, below) {
        if keeps(q, plane, below) {
            seq![p]
        } else {
            seq![p, cut(p, q, plane)]
        }
    } else if keeps(q, plane, below) {
        seq![cut(p, q, plane)]
    } else {
        Seq::empty()
    }
}

pub open spec fn next_index(k: int, len: int) -> int {
    if k + 1 == len {
        0
    } else {
        k + 1
    }
}

/// The contributions of the first `k` edges of `poly`.
pub open spec fn clip_prefix(poly: Seq<Point3>, plane: int, below: bool, k: nat) -> Seq<Point3>
    decreases k,
{
    if k == 0 {
        Seq::empty()
    } else {
        clip_prefix(poly, plane, below, (k - 1) as nat) + clip_edge(
            poly[k - 1],
            poly[next_index(k - 1, poly.len() as int)],
            plane,
            below,
        )
    }
}

/// The polygon `poly` cut down to the kept side of the plane `z == plane`.
pub open spec fn clip_polygon(poly: Seq<Point3>, plane: int, below: bool) -> Seq<Point3> {
    clip_prefix(poly, plane, below, poly.len())
}

/// `span * u / v` lies between 0 and `span` when `0 <= u <= v`.
proof fn lemma_scaled_between(span: int, u: int, v: int)
    requires
        0 <= u <= v,
        v > 0,
    ensures
        span >= 0 ==> 0 <= (span * u) / v <= span,
        span < 0 ==> span <= (span * u) / v <= 0,
{
    vstd::arithmetic::div_mod::lemma_div_multiples_vanish(span, v);
    assert(span * v == v * span) by (nonlinear_arith);
    if span >= 0 {
        assert(0 <= span * u <= span * v) by (nonlinear_arith)
            requires
                span >= 0,
                0 <= u <= v,
        ;
        vstd::arithmetic::div_mod::lemma_div_is_ordered(0, span * u, v);
        vstd::arithmetic::div_mod::lemma_div_is_ordered(span * u, span * v, v);
    } else {
        assert(span * v <= span * u <= 0) by (nonlinear_arith)
            requires
                span < 0,
                0 <= u <= v,
        ;
        vstd::arithmetic::div_mod::lemma_div_is_ordered(span * v, span * u, v);
        vstd::arithmetic::div_mod::lemma_div_is_ordered(span * u, 0, v);
    }
}

/// Interpolates one coordinate from `a` toward `b`.
fn lerp_coord(a: i64, b: i64, t: i64, dz: i64) -> (r: i64)
    requires
        in_limit(a as int),
        in_limit(b as int),
        dz != 0,
        -0x20_0000 <= dz <= 0x20_0000,
        dz > 0 ==> 0 <= t <= dz,
        dz < 0 ==> dz <= t <= 0,
    ensures
        r == a + lerp(b - a, t as int, dz as int),
        in_limit(r as int),
{
    let span = b as i128 - a as i128;
    let (u, v) = if dz > 0 {
        (t as i128, dz as i128)
    } else {
        (-(t as i128), -(dz as i128))
    };
    proof {
        lemma_scaled_between(span as int, u as int, v as int);
        assert(-0x40_0000_0000_0000 <= span * u <= 0x40_0000_0000_0000) by (nonlinear_arith)
            requires
                -0x20_0000 <= span <= 0x20_0000,
                0 <= u <= v,
                v <= 0x20_0000,
        ;
    }
    let q = floor_div(span * u, v);
    (a as i128 + q) as i64
}

/// The crossing point of the segment from `p` to `q` with the plane.
fn cut_point(p: Point3, q: Point3, plane: i64, below: bool) -> (r: Point3)
    requires
        point_in_limit(p),
        point_in_limit(q),
        in_limit(plane as int),
        keeps(p, plane as int, below) != keeps(q, plane as int, below),
    ensures
        r == cut(p, q, plane as int),
        point_in_limit(r),
{
    let dz = q.z - p.z;
    let t = plane - p.z;
    let x = lerp_coord(p.x, q.x, t, dz);
    let y = lerp_coord(p.y, q.y, t, dz);
    Point3 { x, y, z: plane }
}

/// Clips a polygon to one side of the plane `z == plane`, one edge at a time.
pub fn clip_against(poly: &Vec<Point3>, plane: i64, below: bool) -> (r: Vec<Point3>)
    requires
        all_in_limit(poly@),
        in_limit(plane as int),
        poly@.len() <= 8,
    ensures
        r@ == clip_polygon(poly@, plane as int, below),
        all_in_limit(r@),
        r@.len() <= 2 * poly@.len(),
{
    let n = poly.len();
    let mut out: Vec<Point3> = Vec::new();
    let mut k: usize = 0;
    while k < n
        invariant
            n == poly@.len(),
            n <= 8,
            k <= n,
            all_in_limit(poly@),
            in_limit(plane as int),
            out@ == clip_prefix(poly@, plane as int, below, k as nat),
            all_in_limit(out@),
            out@.len() <= 2 * k,
        decreases n - k,
    {
        let j: usize = if k + 1 == n {
            0
        } else {
            k + 1
        };
        let p = poly[k];
        let q = poly[j];
        assert(point_in_limit(poly@[k as int]));
        assert(point_in_limit(poly@[j as int]));
        let kp = if below {
            p.z <= plane
        } else {
            p.z >= plane
        };
        let kq = if below {
            q.z <= plane
        } else {
            q.z >= plane
        };
        if kp {
            out.push(p);
            if !kq {
                out.push(cut_point(p, q, plane, below));
            }
        } else if kq {
            out.push(cut_point(p, q, plane, below));
        }
        proof {
            let e = clip_edge(poly@[k as int], poly@[j as int], plane as int, below);
            assert(out@ =~= clip_prefix(poly@, plane as int, below, k as nat) + e);
        }
        k += 1;
    }
    out
}

/// Every point of a clipped polygon is on the kept side of the plane, and
/// either lies on the plane or has a depth within the bounds `[lo, hi]` of the input.
pub proof fn lemma_clip_depths(poly: Seq<Point3>, plane: int, below: bool, lo: int, hi: int, k: nat)
    requires
        k <= poly.len(),
        forall|i: int| 0 <= i < poly.len() ==> lo <= #[trigger] poly[i].z <= hi,
        in_limit(plane),
    ensures
        forall|j: int| 0 <= j < clip_prefix(poly, plane, below, k).len() ==> ({
            let v = #[trigger] clip_prefix(poly, plane, below, k)[j];
            &&& keeps(v, plane, below)
            &&& (v.z == plane || lo <= v.z <= hi)
        }),
    decreases k,
{
    if k > 0 {
        lemma_clip_depths(poly, plane, below, lo, hi, (k - 1) as nat);
        let prev = clip_prefix(poly, plane, below, (k - 1) as nat);
        let e = clip_edge(poly[k - 1], poly[next_index(k - 1, poly.len() as int)], plane, below);
        assert(clip_prefix(poly, plane, below, k) == prev + e);
        assert forall|j: int| 0 <= j < e.len() implies ({
            let v = #[trigger] e[j];
            &&& keeps(v, plane, below)
            &&& (v.z == plane || lo <= v.z <= hi)
        }) by {}
        assert forall|j: int| 0 <= j < (prev + e).len() implies ({
            let v = #[trigger] (prev + e)[j];
            &&& keeps(v, plane, below)
            &&& (v.z == plane || lo <= v.z <= hi)
        }) by {
            if j >= prev.len() {
                assert((prev + e)[j] == e[j - prev.len()]);
            }
        }
    }
}

/// Clipping leaves a polygon whose points are all on the kept side unchanged.
pub proof fn lemma_clip_keeps_inside(poly: Seq<Point3>, plane: int, below: bool)
    requires
        forall|i: int| 0 <= i < poly.len() ==> keeps(#[trigger] poly[i], plane, below),
    ensures
        clip_polygon(poly, plane, below) == poly,
{
    lemma_clip_prefix_inside(poly, plane, below, poly.len());
    assert(poly.take(poly.len() as int) =~= poly);
}

proof fn lemma_clip_prefix_inside(poly: Seq<Point3>, plane: int, below: bool, k: nat)
    requires
        k <= poly.len(),
        forall|i: int| 0 <= i < poly.len() ==> keeps(#[trigger] poly[i], plane, below),
    ensures
        clip_prefix(poly, plane, below, k) == poly.take(k as int),
    decreases k,
{
    if k > 0 {
        lemma_clip_prefix_inside(poly, plane, below, (k - 1) as nat);
        let j = next_index(k - 1, poly.len() as int);
        assert(keeps(poly[k - 1], plane, below));
        assert(keeps(poly[j], plane, below));
        assert(poly.take(k as int) =~= poly.take(k - 1) + seq![poly[k - 1]]);
    }
}

} // verus!
