//! Small facts of integer arithmetic that the layout proofs share.
use vstd::prelude::*;
use vstd::arithmetic::div_mod::{
    lemma_fundamental_div_mod, lemma_fundamental_div_mod_converse, lemma_mod_pos_bound,
};

verus! {

/// Multiplication by a non-negative factor keeps `<=`.
pub proof fn lemma_mul_mono(a: int, b: int, c: int)
    requires
        0 <= a <= b,
        0 <= c,
    ensures
        a * c <= b * c,
        c * a <= c * b,
{
    assert(a * c <= b * c) by (nonlinear_arith)
        requires 0 <= a <= b, 0 <= c;
    assert(c * a <= c * b) by (nonlinear_arith)
        requires 0 <= a <= b, 0 <= c;
}

/// `q * d + r` with `0 <= r < d` has quotient `q` and remainder `r`.
pub proof fn lemma_div_mod_parts(q: int, d: int, r: int)
    requires
        0 < d,
        0 <= r < d,
    ensures
        (q * d + r) / d == q,
        (q * d + r) % d == r,
{
    lemma_fundamental_div_mod_converse(q * d + r, d, q, r);
}

/// `a / b` rounded up.
pub open spec fn ceil_div(a: int, b: int) -> int {
    (a + b - 1) / b
}

/// `c = ceil_div(a, b)` is the least `c` with `b * c >= a`.
pub proof fn lemma_ceil_div(a: int, b: int)
    requires
        0 <= a,
        0 < b,
    ensures
        0 <= ceil_div(a, b),
        b * ceil_div(a, b) >= a,
        b * ceil_div(a, b) < a + b,
        a > 0 ==> ceil_div(a, b) >= 1,
{
    lemma_fundamental_div_mod(a + b - 1, b);
    lemma_mod_pos_bound(a + b - 1, b);
    let c = ceil_div(a, b);
    if c < 0 {
        assert(b * c < 0) by (nonlinear_arith)
            requires b > 0, c < 0;
    }
    if a > 0 && c < 1 {
        assert(b * c <= 0) by (nonlinear_arith)
            requires b > 0, c < 1, c >= 0;
    }
}

/// If `b * l` already reaches `a`, rounding `a / b` up stays at or below `l`.
pub proof fn lemma_ceil_div_le(a: int, b: int, l: int)
    requires
        0 <= a,
        0 < b,
        a <= b * l,
    ensures
        ceil_div(a, b) <= l,
{
    lemma_ceil_div(a, b);
    let c = ceil_div(a, b);
    assert(c <= l) by (nonlinear_arith)
        requires b * c < a + b, a <= b * l, b > 0;
}

} // verus!
