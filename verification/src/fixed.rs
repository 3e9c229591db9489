//! Fixed-point scalar arithmetic: truncating division, multiplication with
//! rescaling, integer square roots and integer powers, together with the
//! lemmas the rest of the crate needs about them.

use vstd::prelude::*;
use vstd::arithmetic::div_mod::{
    lemma_fundamental_div_mod, lemma_div_is_ordered, lemma_mod_division_less_than_divisor,
};
use vstd::arithmetic::power::{
    pow, lemma_pow0, lemma_pow1, lemma0_pow, lemma_pow_adds, lemma_pow_increases,
};
use vstd::arithmetic::mul::lemma_mul_upper_bound;

verus! {

/// One unit in the fixed-point encoding: a coordinate, color channel or ray
/// parameter `v` is stored as the `i64` value `round(v * FP_ONE)`.
pub const FP_ONE: i64 = 65536;

/// Truncating (round-toward-zero) division, the rounding used by every
/// executable fixed-point operation in this crate. `b` must be positive.
pub open spec fn tdiv(a: int, b: int) -> int
    recommends
        b > 0,
{
    if a >= 0 {
        a / b
    } else {
        -((-a) / b)
    }
}

/// The defining bracket of truncating division: `b * tdiv(a, b)` is within
/// `b` of `a`, on the side of zero.
pub proof fn lemma_tdiv(a: int, b: int)
    requires
        b > 0,
    ensures
        a >= 0 ==> b * tdiv(a, b) <= a < b * tdiv(a, b) + b,
        a <= 0 ==> b * tdiv(a, b) - b < a <= b * tdiv(a, b),
{
    if a >= 0 {
        lemma_fundamental_div_mod(a, b);
        lemma_mod_division_less_than_divisor(a, b);
    } else {
        lemma_fundamental_div_mod(-a, b);
        lemma_mod_division_less_than_divisor(-a, b);
        let q = (-a) / b;
        assert(b * -q == -(b * q)) by (nonlinear_arith);
    }
}

/// Truncating division maps `[-m*b, m*b]` into `[-m, m]`.
pub proof fn lemma_tdiv_abs_le(a: int, b: int, m: int)
    requires
        b > 0,
        m >= 0,
        -m * b <= a <= m * b,
    ensures
        -m <= tdiv(a, b) <= m,
{
    lemma_tdiv(a, b);
    let q = tdiv(a, b);
    if q > m {
        assert(b * q >= b * (m + 1)) by (nonlinear_arith)
            requires b > 0 && q >= m + 1;
        assert(b * (m + 1) == m * b + b) by (nonlinear_arith);
    }
    if q < -m {
        assert(b * q <= b * (-m - 1)) by (nonlinear_arith)
            requires b > 0 && q <= -m - 1;
        assert(b * (-m - 1) == -m * b - b) by (nonlinear_arith);
    }
}

/// Dividing an exact multiple returns the co-factor.
pub proof fn lemma_tdiv_multiple(a: int, b: int)
    requires
        b > 0,
    ensures
        tdiv(a * b, b) == a,
{
    lemma_tdiv(a * b, b);
    let q = tdiv(a * b, b);
    assert((a - q) * b == a * b - b * q) by (nonlinear_arith);
    if a * b >= 0 {
        assert(0 <= (a - q) * b < b);
        assert(a == q) by (nonlinear_arith)
            requires b > 0 && 0 <= (a - q) * b < b;
    } else {
        assert(-b < (a - q) * b <= 0);
        assert(a == q) by (nonlinear_arith)
            requires b > 0 && -b < (a - q) * b <= 0;
    }
}

/// Truncating division on `i64`.
pub fn tdiv64(a: i64, b: i64) -> (r: i64)
    requires
        b > 0,
        a > i64::MIN,
    ensures
        r == tdiv(a as int, b as int),
        a >= 0 ==> b * r <= a < b * r + b,
        a <= 0 ==> b * r - b < a <= b * r,
{
    proof {
        lemma_tdiv(a as int, b as int);
    }
    if a >= 0 {
        proof {
            lemma_div_is_ordered(a as int, u64::MAX as int, b as int);
        }
        ((a as u64) / (b as u64)) as i64
    } else {
        proof {
            lemma_div_is_ordered((-a) as int, u64::MAX as int, b as int);
        }
        -((((-a) as u64) / (b as u64)) as i64)
    }
}

/// Bound on a product from bounds on its factors.
pub proof fn lemma_mul_abs_le(a: int, b: int, ma: int, mb: int)
    requires
        -ma <= a <= ma,
        -mb <= b <= mb,
    ensures
        -(ma * mb) <= a * b <= ma * mb,
{
    assert(-(ma * mb) <= a * b <= ma * mb) by (nonlinear_arith)
        requires -ma <= a <= ma && -mb <= b <= mb;
}

/// Truncating division on `i128`.
pub fn tdiv128(a: i128, b: i128) -> (r: i128)
    requires
        b > 0,
        a > i128::MIN,
    ensures
        r == tdiv(a as int, b as int),
        a >= 0 ==> b * r <= a < b * r + b,
        a <= 0 ==> b * r - b < a <= b * r,
{
    proof {
        lemma_tdiv(a as int, b as int);
    }
    if a >= 0 {
        proof {
            lemma_div_is_ordered(a as int, u128::MAX as int, b as int);
        }
        ((a as u128) / (b as u128)) as i128
    } else {
        proof {
            lemma_div_is_ordered((-a) as int, u128::MAX as int, b as int);
        }
        -((((-a) as u128) / (b as u128)) as i128)
    }
}

/// `r` is the integer square root of `n`.
pub open spec fn is_isqrt(n: int, r: int) -> bool {
    0 <= r && r * r <= n && n < (r + 1) * (r + 1)
}

/// The integer square root, as a mathematical value.
pub open spec fn isqrt_spec(n: int) -> int {
    choose|r: int| is_isqrt(n, r)
}

/// Every nonnegative integer has an integer square root, so `isqrt_spec`
/// denotes one.
pub proof fn lemma_isqrt_exists(n: int)
    requires
        n >= 0,
    ensures
        is_isqrt(n, isqrt_spec(n)),
    decreases n,
{
    if n == 0 {
        assert(is_isqrt(0, 0));
    } else {
        lemma_isqrt_exists(n - 1);
        let r = isqrt_spec(n - 1);
        if n < (r + 1) * (r + 1) {
            assert(is_isqrt(n, r));
        } else {
            assert(n == (r + 1) * (r + 1));
            assert((r + 1) * (r + 1) < (r + 2) * (r + 2)) by (nonlinear_arith)
                requires r >= 0;
            assert(is_isqrt(n, r + 1));
        }
        assert(exists|q: int| is_isqrt(n, q));
    }
}

/// The integer square root is unique.
pub proof fn lemma_isqrt_unique(n: int, r1: int, r2: int)
    requires
        is_isqrt(n, r1),
        is_isqrt(n, r2),
    ensures
        r1 == r2,
{
    if r1 < r2 {
        assert((r1 + 1) * (r1 + 1) <= r2 * r2) by (nonlinear_arith)
            requires 0 <= r1 && r1 + 1 <= r2;
    }
    if r2 < r1 {
        assert((r2 + 1) * (r2 + 1) <= r1 * r1) by (nonlinear_arith)
            requires 0 <= r2 && r2 + 1 <= r1;
    }
}

/// A two-sided bound on `n` gives a two-sided bound on its square root.
pub proof fn lemma_isqrt_in_range(n: int, r: int, lo: int, hi: int)
    requires
        is_isqrt(n, r),
        0 <= lo,
        lo * lo <= n,
        n < (hi + 1) * (hi + 1),
        hi >= 0,
    ensures
        lo <= r <= hi,
{
    if r < lo {
        assert((r + 1) * (r + 1) <= lo * lo) by (nonlinear_arith)
            requires 0 <= r && r + 1 <= lo;
    }
    if r > hi {
        assert((hi + 1) * (hi + 1) <= r * r) by (nonlinear_arith)
            requires 0 <= hi && hi + 1 <= r;
    }
}

/// Integer square root of a `u128`, by binary search.
pub fn isqrt128(n: u128) -> (r: u128)
    requires
        n < 0x40000000000000000000000000000000u128,  // 2^126, so the search range covers n
    ensures
        r == isqrt_spec(n as int),
        is_isqrt(n as int, r as int),
{
    let mut lo: u128 = 0;
    let mut hi: u128 = 0x7FFFFFFFFFFFFFFF;  // 2^63 - 1
    proof {
        assert((0x7FFFFFFFFFFFFFFFu128 + 1) * (0x7FFFFFFFFFFFFFFFu128 + 1)
            == 0x40000000000000000000000000000000u128) by (nonlinear_arith);
    }
    while lo < hi
        invariant
            lo <= hi <= 0x7FFFFFFFFFFFFFFFu128,
            (lo as int) * (lo as int) <= n as int,
            (n as int) < (hi as int + 1) * (hi as int + 1),
        decreases hi - lo,
    {
        let mid = lo + (hi - lo + 1) / 2;
        proof {
            assert(mid * mid <= 0x7FFFFFFFFFFFFFFFu128 * 0x7FFFFFFFFFFFFFFFu128)
                by (nonlinear_arith)
                requires mid <= 0x7FFFFFFFFFFFFFFFu128;
        }
        if mid * mid <= n {
            lo = mid;
        } else {
            hi = mid - 1;
        }
    }
    proof {
        lemma_isqrt_exists(n as int);
        lemma_isqrt_unique(n as int, lo as int, isqrt_spec(n as int));
    }
    lo
}

/// Fixed-point product: multiply and scale back down, truncating toward zero.
pub fn fp_mul(a: i64, b: i64) -> (r: i64)
    requires
        -0x4000000000 <= a <= 0x4000000000,  // |a|, |b| at most 2^38
        -0x4000000000 <= b <= 0x4000000000,
    ensures
        r == tdiv(a as int * b as int, FP_ONE as int),
        -0x1000000000000000 <= r <= 0x1000000000000000,  // |r| at most 2^60
{
    proof {
        lemma_mul_abs_le(a as int, b as int, 0x4000000000, 0x4000000000);
    }
    let p: i128 = (a as i128) * (b as i128);
    let q = tdiv128(p, 65536);
    q as i64
}

/// `pow` of a nonnegative base is nonnegative.
pub proof fn lemma_pow_nonneg(a: int, e: nat)
    requires
        0 <= a,
    ensures
        0 <= pow(a, e),
    decreases e,
{
    reveal(pow);
    if e > 0 {
        lemma_pow_nonneg(a, (e - 1) as nat);
        assert(pow(a, e) == a * pow(a, (e - 1) as nat));
        assert(a * pow(a, (e - 1) as nat) >= 0) by (nonlinear_arith)
            requires
                0 <= a,
                0 <= pow(a, (e - 1) as nat);
    }
}

/// `pow` is monotone in a nonnegative base.
pub proof fn lemma_pow_base_le(a: int, b: int, e: nat)
    requires
        0 <= a <= b,
    ensures
        pow(a, e) <= pow(b, e),
    decreases e,
{
    reveal(pow);
    if e > 0 {
        lemma_pow_base_le(a, b, (e - 1) as nat);
        lemma_pow_nonneg(a, (e - 1) as nat);
        lemma_pow_nonneg(b, (e - 1) as nat);
        assert(pow(a, e) == a * pow(a, (e - 1) as nat));
        assert(pow(b, e) == b * pow(b, (e - 1) as nat));
        assert(a * pow(a, (e - 1) as nat) <= b * pow(b, (e - 1) as nat)) by (nonlinear_arith)
            requires
                0 <= a <= b,
                0 <= pow(a, (e - 1) as nat) <= pow(b, (e - 1) as nat);
    }
}

/// `pow` is strictly monotone in a nonnegative base once the exponent is
/// positive.
pub proof fn lemma_pow_base_lt(a: int, b: int, e: nat)
    requires
        0 <= a < b,
        e >= 1,
    ensures
        pow(a, e) < pow(b, e),
    decreases e,
{
    reveal(pow);
    if e == 1 {
        lemma_pow1(a);
        lemma_pow1(b);
    } else {
        lemma_pow_base_lt(a, b, (e - 1) as nat);
        lemma_pow_nonneg(a, (e - 1) as nat);
        assert(pow(a, e) == a * pow(a, (e - 1) as nat));
        assert(pow(b, e) == b * pow(b, (e - 1) as nat));
        assert(a * pow(a, (e - 1) as nat) < b * pow(b, (e - 1) as nat)) by (nonlinear_arith)
            requires
                0 <= a < b,
                0 <= pow(a, (e - 1) as nat) < pow(b, (e - 1) as nat);
    }
}

/// `r` is the integer `g`-th root of `x`.
pub open spec fn is_nthroot(x: int, g: nat, r: int) -> bool {
    0 <= r && pow(r, g) <= x && x < pow(r + 1, g)
}

/// The integer `g`-th root, as a mathematical value.
pub open spec fn nthroot_spec(x: int, g: nat) -> int {
    choose|r: int| is_nthroot(x, g, r)
}

/// The integer `g`-th root is unique.
pub proof fn lemma_nthroot_unique(x: int, g: nat, r1: int, r2: int)
    requires
        g >= 1,
        is_nthroot(x, g, r1),
        is_nthroot(x, g, r2),
    ensures
        r1 == r2,
{
    if r1 < r2 {
        lemma_pow_base_le(r1 + 1, r2, g);
    }
    if r2 < r1 {
        lemma_pow_base_le(r2 + 1, r1, g);
    }
}

/// `b` to the `e`-th power, for the small ranges that gamma correction needs.
pub fn pow_u128(b: u128, e: u32) -> (r: u128)
    requires
        b <= 65536,
        e <= 7,
    ensures
        r == pow(b as int, e as nat),
        r <= 0x10000000000000000000000000000u128,  // 65536^7 = 2^112
{
    proof {
        lemma_pow0(b as int);
        lemma_pow0(65536);
    }
    let mut r: u128 = 1;
    let mut i: u32 = 0;
    while i < e
        invariant
            i <= e <= 7,
            b <= 65536,
            r == pow(b as int, i as nat),
            r <= pow(65536, i as nat),
        decreases e - i,
    {
        proof {
            lemma_pow_base_le(b as int, 65536, i as nat);
            lemma_pow_increases(65536, i as nat, 6);
            lemma_pow_65536_values();
            lemma_mul_upper_bound(r as int, pow(65536, i as nat), b as int, 65536);
            lemma_pow_adds(b as int, i as nat, 1);
            lemma_pow_adds(65536, i as nat, 1);
            lemma_pow1(b as int);
            lemma_pow1(65536);
        }
        r = r * b;
        i = i + 1;
    }
    proof {
        lemma_pow_increases(65536, e as nat, 7);
        lemma_pow_65536_values();
    }
    r
}

/// The first eight powers of `FP_ONE`, spelled out.
pub proof fn lemma_pow_65536_values()
    ensures
        pow(65536, 0) == 1,
        pow(65536, 1) == 0x10000,
        pow(65536, 2) == 0x100000000,
        pow(65536, 3) == 0x1000000000000,
        pow(65536, 4) == 0x10000000000000000,
        pow(65536, 5) == 0x100000000000000000000,
        pow(65536, 6) == 0x1000000000000000000000000,
        pow(65536, 7) == 0x10000000000000000000000000000,
{
    lemma_pow0(65536);
    lemma_pow1(65536);
    lemma_pow_adds(65536, 1, 1);
    lemma_pow_adds(65536, 2, 1);
    lemma_pow_adds(65536, 3, 1);
    lemma_pow_adds(65536, 4, 1);
    lemma_pow_adds(65536, 5, 1);
    lemma_pow_adds(65536, 6, 1);
}

/// Integer `g`-th root of `x` by binary search, for roots up to `FP_ONE`.
pub fn nth_root(x: u128, g: u32) -> (r: i64)
    requires
        1 <= g <= 7,
        x < pow(65537, g as nat),
    ensures
        r == nthroot_spec(x as int, g as nat),
        is_nthroot(x as int, g as nat, r as int),
        0 <= r <= 65536,
{
    let mut lo: i64 = 0;
    let mut hi: i64 = 65536;
    proof {
        lemma0_pow(g as nat);
    }
    while lo < hi
        invariant
            1 <= g <= 7,
            0 <= lo <= hi <= 65536,
            pow(lo as int, g as nat) <= x as int,
            (x as int) < pow(hi as int + 1, g as nat),
        decreases hi - lo,
    {
        let mid = lo + (hi - lo + 1) / 2;
        let pm = pow_u128(mid as u128, g);
        if pm <= x {
            lo = mid;
        } else {
            hi = mid - 1;
        }
    }
    proof {
        assert(is_nthroot(x as int, g as nat, lo as int));
        assert(exists|q: int| is_nthroot(x as int, g as nat, q));
        assert(is_nthroot(x as int, g as nat, nthroot_spec(x as int, g as nat)));
        lemma_nthroot_unique(x as int, g as nat, lo as int, nthroot_spec(x as int, g as nat));
    }
    lo
}

} // verus!
