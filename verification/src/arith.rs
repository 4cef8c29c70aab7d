//! The integer arithmetic of the language, stated on mathematical integers:
//! `+`, `-` and `*` wrap modulo 2^64, `/` truncates toward zero with the
//! remainder taking the dividend's sign, and a division faults on a zero
//! divisor or on the one quotient that does not fit (`i64::MIN / -1`).

use vstd::arithmetic::div_mod::{lemma_fundamental_div_mod, lemma_mod_pos_bound};
use vstd::prelude::*;

verus! {

/// 2^64, the modulus of wrapping arithmetic on `i64`.
pub open spec fn two_64() -> int {
    0x1_0000_0000_0000_0000
}

/// `r` is the exact result `exact`, reduced modulo 2^64.
pub open spec fn wraps_to(r: i64, exact: int) -> bool {
    (r as int - exact) % two_64() == 0
}

pub open spec fn abs(v: int) -> int {
    if v < 0 {
        -v
    } else {
        v
    }
}

/// `q` and `r` are the quotient and remainder of `x` by `y` with the
/// quotient truncated toward zero: `x = q * y + r`, the remainder smaller
/// than the divisor in magnitude, and zero or of the dividend's sign.
pub open spec fn trunc_div_rem(x: int, y: int, q: int, r: int) -> bool {
    &&& x == q * y + r
    &&& abs(r) < abs(y)
    &&& (r == 0 || (r < 0) == (x < 0))
}

/// Whether dividing `x` by `y` faults: a zero divisor, or a quotient out of
/// range.
pub open spec fn div_faults(x: i64, y: i64) -> bool {
    y == 0 || (x == i64::MIN && y == -1)
}

/// Truncated division of non-negative operands.
proof fn lemma_div_nonneg(a: int, d: int)
    requires
        0 <= a,
        0 < d,
    ensures
        trunc_div_rem(a, d, a / d, a % d),
        0 <= a / d <= a,
{
    lemma_fundamental_div_mod(a, d);
    lemma_mod_pos_bound(a, d);
    let q = a / d;
    let r = a % d;
    assert(0 <= q <= a) by (nonlinear_arith)
        requires
            a == d * q + r,
            0 <= r < d,
            0 <= a,
            0 < d,
    ;
    assert(a == q * d + r) by (nonlinear_arith)
        requires
            a == d * q + r,
    ;
}

/// The std operations on `i64` used for the language's integer operators
/// compute what the language says they do.
pub proof fn lemma_i64_ops(x: i64, y: i64)
    ensures
        wraps_to(x.wrapping_add(y), x + y),
        wraps_to(x.wrapping_sub(y), x - y),
        wraps_to(x.wrapping_mul(y), x * y),
        wraps_to(0i64.wrapping_sub(x), -x),
        x.checked_div(y) is None <==> div_faults(x, y),
        x.checked_rem(y) is None <==> div_faults(x, y),
        !div_faults(x, y) ==> trunc_div_rem(
            x as int,
            y as int,
            x.checked_div(y)->0 as int,
            x.checked_rem(y)->0 as int,
        ),
{
    let p = x as int * y as int;
    lemma_fundamental_div_mod(p, two_64());
    assert((p % two_64() - p) % two_64() == 0) by {
        let k = p / two_64();
        assert(p % two_64() - p == (-k) * two_64()) by (nonlinear_arith)
            requires
                p == two_64() * k + p % two_64(),
        ;
        vstd::arithmetic::div_mod::lemma_mod_multiples_basic(-k, two_64());
    }
    if y != 0 {
        let a = x as int;
        let d = y as int;
        if a == 0 {
        } else if a > 0 && d > 0 {
            lemma_div_nonneg(a, d);
        } else if a < 0 && d < 0 {
            lemma_div_nonneg(-a, -d);
            let q = (-a) / (-d);
            let r0 = (-a) % (-d);
            assert(a == q * d + (-r0)) by (nonlinear_arith)
                requires
                    -a == q * (-d) + r0,
            ;
            if x == i64::MIN && y == -1 {
                assert(q == -a) by (nonlinear_arith)
                    requires
                        -a == q * 1 + r0,
                        0 <= r0 < 1,
                ;
            } else {
                assert(q <= i64::MAX) by (nonlinear_arith)
                    requires
                        -a == q * (-d) + r0,
                        0 <= r0,
                        0 <= q,
                        -d >= 1,
                        -a <= 0x8000_0000_0000_0000,
                        !(-a == 0x8000_0000_0000_0000 && -d == 1),
                ;
            }
        } else if a < 0 {
            lemma_div_nonneg(-a, d);
            let q = (-a) / d;
            let r0 = (-a) % d;
            assert(a == (-q) * d + (-r0)) by (nonlinear_arith)
                requires
                    -a == q * d + r0,
            ;
        } else {
            lemma_div_nonneg(a, -d);
            let q = a / (-d);
            let r0 = a % (-d);
            assert(a == (-q) * d + r0) by (nonlinear_arith)
                requires
                    a == q * (-d) + r0,
            ;
        }
    }
}

} // verus!
