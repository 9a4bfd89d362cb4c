use vstd::prelude::*;

verus! {

/// Bound on the magnitude of the operands of `floor_div`.
pub open spec fn wide_bound() -> int {
    0x1_0000_0000_0000_0000_0000_0000
}

/// Division rounding toward negative infinity (`/` on `int` is Euclidean,
/// which agrees with it for a positive divisor).
pub fn floor_div(a: i128, d: i128) -> (r: i128)
    requires
        d > 0,
        -wide_bound() < a < wide_bound(),
        d < wide_bound(),
    ensures
        r == a as int / d as int,
{
    if a >= 0 {
        ((a as u128) / (d as u128)) as i128
    } else {
        let q = ((-a) as u128 + (d as u128) - 1) / (d as u128);
        proof {
            let na = -a as int;
            let di = d as int;
            vstd::arithmetic::div_mod::lemma_fundamental_div_mod(na + di - 1, di);
            vstd::arithmetic::div_mod::lemma_fundamental_div_mod(a as int, di);
            assert(((na + di - 1) / di) * di <= na + di - 1);
            assert(0 <= a as int - (a as int / di) * di < di);
            assert(q as int == (na + di - 1) / di);
            assert(-(q as int) == a as int / di) by (nonlinear_arith)
                requires
                    (q as int) * di <= na + di - 1 < (q as int) * di + di,
                    (a as int / di) * di <= (a as int) < (a as int / di) * di + di,
                    na == -(a as int),
                    di > 0,
            ;
        }
        -(q as i128)
    }
}

} // verus!
