//! Fixed-point scalar arithmetic.
//!
//! Every geometric quantity in this crate is an integer count of `1/SCALE`
//! world units, stored in an `i64`.  All rounding is toward negative
//! infinity (floor), which matches the mathematical `/` of specifications.

use vstd::prelude::*;
use vstd::arithmetic::div_mod::{
    lemma_fundamental_div_mod, lemma_fundamental_div_mod_converse_div,
};

verus! {

/// Number of fixed-point units in one world unit.
pub const SCALE: i64 = 10000;

/// Largest magnitude accepted for a vector component fed to the
/// intersection pipeline (about 26843 world units).
pub const COORD_LIMIT: i64 = 0x1000_0000;

/// Largest magnitude accepted for a ray parameter (about 214748 world units);
/// it also serves as the "no upper bound" range end of the render loop.
pub const T_LIMIT: i64 = 0x8000_0000;

/// The value fits in an `i64`.
pub open spec fn fits_i64(x: int) -> bool {
    i64::MIN <= x <= i64::MAX
}

/// Fixed-point product of two scalars, rounded toward negative infinity.
pub open spec fn fmul(x: int, y: int) -> int {
    (x * y) / (SCALE as int)
}

/// Floor division by a positive divisor keeps the sign of the dividend and
/// never grows its magnitude.
pub proof fn lemma_div_bounds(x: int, d: int)
    requires
        d >= 1,
    ensures
        x >= 0 ==> 0 <= x / d <= x,
        x < 0 ==> x <= x / d <= 0,
    decreases 0int,
{
    lemma_fundamental_div_mod(x, d);
    assert(x >= 0 ==> 0 <= x / d <= x) by (nonlinear_arith)
        requires d >= 1, x == d * (x / d) + (x % d), 0 <= x % d < d;
    assert(x < 0 ==> x <= x / d <= 0) by (nonlinear_arith)
        requires d >= 1, x == d * (x / d) + (x % d), 0 <= x % d < d;
}

/// Floor division of an `i128` by a positive divisor.
pub fn div_floor_i128(n: i128, d: i128) -> (q: i128)
    requires
        1 <= d < 0x2000_0000_0000_0000_0000_0000_0000_0000,
        -0x4000_0000_0000_0000_0000_0000_0000_0000 < n,
    ensures
        q == n as int / d as int,
{
    if n >= 0 {
        let q0: u128 = (n as u128) / (d as u128);
        proof {
            lemma_div_bounds(n as int, d as int);
        }
        q0 as i128
    } else {
        let m: u128 = (-n) as u128;
        let q0: u128 = (m + (d as u128) - 1) / (d as u128);
        proof {
            let mi = m as int;
            let di = d as int;
            lemma_fundamental_div_mod(mi + di - 1, di);
            lemma_div_bounds(mi + di - 1, di);
            let q = (mi + di - 1) / di;
            let r = (mi + di - 1) % di;
            assert(q0 == q);
            assert((-q) * di == -(q * di)) by (nonlinear_arith);
            assert(mi + di - 1 == di * q + r);
            assert(-mi == (-q) * di + (di - 1 - r)) by (nonlinear_arith)
                requires mi + di - 1 == di * q + r, (-q) * di == -(q * di);
            lemma_fundamental_div_mod_converse_div(-mi, di, -q, di - 1 - r);
            assert(-q == (-mi) / di);
        }
        -(q0 as i128)
    }
}

/// Fixed-point multiplication of two scalars.
pub fn mul_fp(x: i64, y: i64) -> (r: i64)
    requires
        fits_i64(fmul(x as int, y as int)),
    ensures
        r == fmul(x as int, y as int),
{
    proof {
        lemma_mul_i64_bounds(x as int, y as int);
        lemma_div_bounds(x as int * y as int, SCALE as int);
    }
    let p: i128 = (x as i128) * (y as i128);
    let q: i128 = div_floor_i128(p, SCALE as i128);
    q as i64
}

/// `r` is the square root of `n`, rounded toward zero.
pub open spec fn is_sqrt_floor(n: int, r: int) -> bool {
    0 <= r && r * r <= n && n < (r + 1) * (r + 1)
}

/// The square root of `n`, rounded toward zero.
pub open spec fn sqrt_floor(n: int) -> int {
    choose|r: int| is_sqrt_floor(n, r)
}

/// A nonnegative integer has exactly one rounded square root.
pub proof fn lemma_sqrt_floor_unique(n: int, r1: int, r2: int)
    requires
        is_sqrt_floor(n, r1),
        is_sqrt_floor(n, r2),
    ensures
        r1 == r2,
{
    assert(r1 == r2) by (nonlinear_arith)
        requires
            0 <= r1 && r1 * r1 <= n && n < (r1 + 1) * (r1 + 1),
            0 <= r2 && r2 * r2 <= n && n < (r2 + 1) * (r2 + 1);
}

/// Every nonnegative integer has a rounded square root.
pub proof fn lemma_sqrt_floor_exists(n: nat)
    ensures
        is_sqrt_floor(n as int, sqrt_floor(n as int)),
    decreases n,
{
    if n == 0 {
        assert(is_sqrt_floor(0, 0)) by (nonlinear_arith);
    } else {
        lemma_sqrt_floor_exists((n - 1) as nat);
        let r = sqrt_floor(n - 1);
        assert(is_sqrt_floor(n - 1, r));
        if (r + 1) * (r + 1) <= n {
            assert(is_sqrt_floor(n as int, r + 1)) by (nonlinear_arith)
                requires
                    0 <= r && r * r <= n - 1 && n - 1 < (r + 1) * (r + 1),
                    (r + 1) * (r + 1) <= n;
        } else {
            assert(is_sqrt_floor(n as int, r));
        }
        assert(exists|r0: int| is_sqrt_floor(n as int, r0));
    }
}

/// The rounded square root grows with its argument.
pub proof fn lemma_sqrt_floor_monotone(a: int, b: int)
    requires
        0 <= a <= b,
    ensures
        sqrt_floor(a) <= sqrt_floor(b),
{
    lemma_sqrt_floor_exists(a as nat);
    lemma_sqrt_floor_exists(b as nat);
    let ra = sqrt_floor(a);
    let rb = sqrt_floor(b);
    assert(ra <= rb) by (nonlinear_arith)
        requires
            a <= b,
            0 <= ra && ra * ra <= a && a < (ra + 1) * (ra + 1),
            0 <= rb && rb * rb <= b && b < (rb + 1) * (rb + 1);
}

/// The square root of `n`, rounded toward zero, by bisection.
pub fn isqrt_u128(n: u128) -> (r: u128)
    ensures
        r == sqrt_floor(n as int),
        is_sqrt_floor(n as int, r as int),
{
    let mut lo: u128 = 0;
    let mut hi: u128 = 0x1_0000_0000_0000_0000;
    proof {
        assert((hi as int) * (hi as int) > u128::MAX) by (nonlinear_arith)
            requires hi == 0x1_0000_0000_0000_0000u128;
    }
    while hi - lo > 1
        invariant
            lo < hi <= 0x1_0000_0000_0000_0000,
            (lo as int) * (lo as int) <= n as int,
            (n as int) < (hi as int) * (hi as int),
        decreases hi - lo,
    {
        let mid: u128 = lo + (hi - lo) / 2;
        proof {
            assert((mid as int) * (mid as int) < u128::MAX) by (nonlinear_arith)
                requires 0 < mid < 0x1_0000_0000_0000_0000u128;
        }
        if mid * mid <= n {
            lo = mid;
        } else {
            hi = mid;
        }
    }
    proof {
        assert(is_sqrt_floor(n as int, lo as int));
        lemma_sqrt_floor_exists(n as nat);
        lemma_sqrt_floor_unique(n as int, lo as int, sqrt_floor(n as int));
    }
    lo
}

/// A bound on two factors bounds their product.
pub proof fn lemma_mul_mag(x: int, y: int, a: int, b: int)
    requires
        -a <= x <= a,
        -b <= y <= b,
        0 <= a,
        0 <= b,
    ensures
        -(a * b) <= x * y <= a * b,
{
    assert(-(a * b) <= x * y <= a * b) by (nonlinear_arith)
        requires -a <= x <= a, -b <= y <= b, 0 <= a, 0 <= b;
}

/// A rounded square root is below any bound whose square exceeds the argument.
pub proof fn lemma_sqrt_floor_lt(n: int, b: int)
    requires
        0 <= n,
        0 < b,
        n < b * b,
    ensures
        sqrt_floor(n) < b,
{
    lemma_sqrt_floor_exists(n as nat);
    let r = sqrt_floor(n);
    assert(r < b) by (nonlinear_arith)
        requires 0 <= r && r * r <= n, n < b * b, 0 < b;
}

/// The rounded square root of a perfect square is exact.
pub proof fn lemma_sqrt_floor_square(x: int)
    requires
        0 <= x,
    ensures
        sqrt_floor(x * x) == x,
{
    assert(is_sqrt_floor(x * x, x)) by (nonlinear_arith)
        requires 0 <= x;
    lemma_sqrt_floor_exists((x * x) as nat);
    lemma_sqrt_floor_unique(x * x, x, sqrt_floor(x * x));
}

/// Negating the dividend of a floor division lowers the quotient by at most
/// one step beyond its negation.
pub proof fn lemma_div_neg(b: int, d: int)
    requires
        0 <= b,
        1 <= d,
    ensures
        -(b / d) - 1 <= (-b) / d <= 0,
{
    lemma_fundamental_div_mod(b, d);
    lemma_div_bounds(b, d);
    let q = b / d;
    let r = b % d;
    if r == 0 {
        assert((-q) * d == -(d * q)) by (nonlinear_arith);
        assert(-b == (-q) * d + 0);
        lemma_fundamental_div_mod_converse_div(-b, d, -q, 0);
    } else {
        assert((-q - 1) * d == -(d * q) - d) by (nonlinear_arith);
        assert(-b == (-q - 1) * d + (d - r));
        lemma_fundamental_div_mod_converse_div(-b, d, -q - 1, d - r);
    }
}

/// A bound on a product bounds its fixed-point quotient.
pub proof fn lemma_fmul_mag(x: int, y: int, b: int)
    requires
        -b <= x * y <= b,
        0 <= b,
    ensures
        -(b / (SCALE as int)) - 1 <= fmul(x, y) <= b / (SCALE as int),
{
    vstd::arithmetic::div_mod::lemma_div_is_ordered(x * y, b, SCALE as int);
    vstd::arithmetic::div_mod::lemma_div_is_ordered(-b, x * y, SCALE as int);
    lemma_div_neg(b, SCALE as int);
}

/// A fixed-point product with a factor in `[0, SCALE]` (a blend weight)
/// stays within the other factor's range.
pub proof fn lemma_fmul_lerp(s: int, x: int)
    requires
        0 <= s <= SCALE,
        0 <= x <= SCALE,
    ensures
        0 <= fmul(s, x),
        fmul(s, x) <= s,
        fmul(s, x) <= x,
{
    assert(0 <= s * x && s * x <= (SCALE as int) * x && s * x <= (SCALE as int) * s
        && (SCALE as int) * x == x * (SCALE as int) && (SCALE as int) * s == s * (
        SCALE as int)) by (nonlinear_arith)
        requires 0 <= s <= SCALE, 0 <= x <= SCALE, SCALE == 10000i64;
    lemma_div_bounds(s * x, SCALE as int);
    vstd::arithmetic::div_mod::lemma_div_is_ordered(s * x, (SCALE as int) * x, SCALE as int);
    vstd::arithmetic::div_mod::lemma_div_is_ordered(s * x, (SCALE as int) * s, SCALE as int);
    vstd::arithmetic::div_mod::lemma_div_multiples_vanish(x, SCALE as int);
    vstd::arithmetic::div_mod::lemma_div_multiples_vanish(s, SCALE as int);
}

/// A fixed-point product with a factor in `[0, SCALE]` keeps the other
/// factor's magnitude bound, up to one rounding step downward.
pub proof fn lemma_fmul_unit(s: int, x: int, m: int)
    requires
        0 <= s <= SCALE,
        -m <= x <= m,
        0 <= m,
    ensures
        -m - 1 <= fmul(s, x) <= m,
{
    lemma_mul_mag(s, x, SCALE as int, m);
    lemma_fmul_mag(s, x, (SCALE as int) * m);
    vstd::arithmetic::div_mod::lemma_div_multiples_vanish(m, SCALE as int);
}

/// The product of two `i64` values fits in an `i128`.
pub proof fn lemma_mul_i64_bounds(x: int, y: int)
    requires
        i64::MIN <= x <= i64::MAX,
        i64::MIN <= y <= i64::MAX,
    ensures
        -0x4000_0000_0000_0000_0000_0000_0000_0000 <= x * y,
        x * y <= 0x4000_0000_0000_0000_0000_0000_0000_0000,
{
    assert(-0x4000_0000_0000_0000_0000_0000_0000_0000 <= x * y
        <= 0x4000_0000_0000_0000_0000_0000_0000_0000) by (nonlinear_arith)
        requires -0x8000_0000_0000_0000 <= x <= 0x7fff_ffff_ffff_ffff,
            -0x8000_0000_0000_0000 <= y <= 0x7fff_ffff_ffff_ffff;
}

} // verus!
