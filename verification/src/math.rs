//! Integer arithmetic on sizes.

use vstd::prelude::*;

verus! {

/// The quotient `a / b` rounded up.
pub open spec fn ceil_div(a: int, b: int) -> int {
    (a + b - 1) / b
}

/// `ceil_div(a, b)` is the least `q` with `a <= q * b`.
pub proof fn lemma_ceil_div(a: int, b: int)
    requires
        a >= 0,
        b > 0,
    ensures
        ceil_div(a, b) == a / b + (if a % b == 0 { 0int } else { 1int }),
        ceil_div(a, b) >= 0,
        ceil_div(a, b) * b >= a,
        ceil_div(a, b) * b < a + b,
        a > 0 ==> ceil_div(a, b) >= 1,
{
    let q = a / b;
    let r = a % b;
    assert(a == b * q + r) by {
        vstd::arithmetic::div_mod::lemma_fundamental_div_mod(a, b);
    }
    assert(0 <= r < b) by (nonlinear_arith)
        requires
            b > 0,
            r == a % b,
    ;
    assert(q >= 0) by (nonlinear_arith)
        requires
            a >= 0,
            b > 0,
            q == a / b,
    ;
    let k: int = if r == 0 { 0 } else { 1 };
    let s: int = r + b - 1 - k * b;
    assert(a + b - 1 == (q + k) * b + s) by (nonlinear_arith)
        requires
            a == b * q + r,
            s == r + b - 1 - k * b,
    ;
    vstd::arithmetic::div_mod::lemma_fundamental_div_mod_converse(a + b - 1, b, q + k, s);
    assert((q + k) * b >= a && (q + k) * b < a + b) by (nonlinear_arith)
        requires
            a == b * q + r,
            0 <= r < b,
            k == 0 || k == 1,
            k == 0 <==> r == 0,
    ;
    if a > 0 && q + k == 0 {
        assert(q == 0 && k == 0);
        assert(b * q == 0);
    }
}

/// The quotient of `a` by `b`, rounded up.
pub fn div_ceil(a: usize, b: usize) -> (q: usize)
    requires
        b > 0,
    ensures
        q == ceil_div(a as int, b as int),
{
    let q: usize = a / b;
    proof {
        lemma_ceil_div(a as int, b as int);
        assert(q <= a) by (nonlinear_arith)
            requires
                q == a / b,
                b > 0,
        ;
    }
    if a % b == 0 {
        q
    } else {
        proof {
            assert(q + 1 <= a) by (nonlinear_arith)
                requires
                    q == a / b,
                    a % b != 0,
                    b > 0,
            ;
        }
        q + 1
    }
}

/// The least multiple of `m` that is at least `x`.
pub fn round_multiple(x: usize, m: usize) -> (r: usize)
    requires
        m > 0,
        ceil_div(x as int, m as int) * m <= usize::MAX,
    ensures
        r == ceil_div(x as int, m as int) * m,
        r % m == 0,
        x <= r < x + m,
{
    let q = div_ceil(x, m);
    proof {
        lemma_ceil_div(x as int, m as int);
        vstd::arithmetic::div_mod::lemma_mod_multiples_basic(q as int, m as int);
    }
    q * m
}

} // verus!
