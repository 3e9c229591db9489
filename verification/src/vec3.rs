//! The 3-component value type shared by points, directions and colors.
//!
//! Components are fixed-point `i64` values scaled by `FP_ONE`; every
//! operation's contract states the exact integer it computes.

use vstd::prelude::*;
use crate::fixed::{
    FP_ONE, tdiv, tdiv64, tdiv128, fp_mul, lemma_tdiv, lemma_tdiv_abs_le, lemma_mul_abs_le,
    is_isqrt, isqrt_spec, isqrt128, lemma_isqrt_exists, lemma_isqrt_in_range,
    is_nthroot, nthroot_spec, nth_root, pow_u128, lemma_pow_65536_values, lemma_pow_base_lt,
    lemma_nthroot_unique,
};
use vstd::arithmetic::power::{pow, lemma_pow1, lemma_pow_adds, lemma_pow_increases};
use vstd::arithmetic::mul::lemma_mul_upper_bound;

verus! {

/// Largest component magnitude accepted by the dot-product-like operations:
/// 2^38, i.e. about 4.1 million scene units.
pub const COORD_LIMIT: i64 = 0x4000000000;

/// Largest component magnitude of a scene position: 2^36, about one million
/// scene units.
pub const SCENE_LIMIT: i64 = 0x1000000000;

/// Largest component magnitude of a ray origin: three times `SCENE_LIMIT`,
/// so that a hit point one far-field cutoff away from a ray origin is again
/// a valid ray origin minus one cutoff.
pub const RAY_LIMIT: i64 = 0x3000000000;

/// A 3-component fixed-point vector.
#[derive(Clone, Copy, Debug, PartialEq, Eq, Structural)]
pub struct Vec3 {
    pub x: i64,
    pub y: i64,
    pub z: i64,
}

/// A color: a linear-light radiance triple.
pub type Color = Vec3;

/// A position in space.
pub type Point3 = Vec3;

/// Clamp a channel to the fixed-point unit interval `[0, FP_ONE]`.
pub open spec fn clamp01(c: int) -> int {
    if c < 0 {
        0
    } else if c > 65536 {
        65536
    } else {
        c
    }
}

impl Vec3 {
    /// Raw squared magnitude: the sum of the squares of the stored
    /// components (scale `FP_ONE^2`).
    pub open spec fn norm2(self) -> int {
        self.x * self.x + self.y * self.y + self.z * self.z
    }

    /// All components within `COORD_LIMIT`.
    pub open spec fn in_range(self) -> bool {
        &&& -0x4000000000 <= self.x <= 0x4000000000
        &&& -0x4000000000 <= self.y <= 0x4000000000
        &&& -0x4000000000 <= self.z <= 0x4000000000
    }

    /// All components within `SCENE_LIMIT`.
    pub open spec fn in_scene_range(self) -> bool {
        &&& -0x1000000000 <= self.x <= 0x1000000000
        &&& -0x1000000000 <= self.y <= 0x1000000000
        &&& -0x1000000000 <= self.z <= 0x1000000000
    }

    /// All components within `RAY_LIMIT`.
    pub open spec fn in_ray_range(self) -> bool {
        &&& -0x3000000000 <= self.x <= 0x3000000000
        &&& -0x3000000000 <= self.y <= 0x3000000000
        &&& -0x3000000000 <= self.z <= 0x3000000000
    }

    /// All components within 2^39; the wider range accepted by `length` and
    /// `unit_vector`.
    pub open spec fn in_wide_range(self) -> bool {
        &&& -0x8000000000 <= self.x <= 0x8000000000
        &&& -0x8000000000 <= self.y <= 0x8000000000
        &&& -0x8000000000 <= self.z <= 0x8000000000
    }

    /// The fixed-point magnitude: integer square root of the raw squared
    /// magnitude (`FP_ONE` times the real-valued length).
    pub open spec fn len_spec(self) -> int {
        isqrt_spec(self.norm2())
    }

    /// The normalized vector: each component scaled by `FP_ONE` and divided
    /// (truncating) by the fixed-point magnitude.
    pub open spec fn unit_spec(self) -> Vec3 {
        Vec3 {
            x: tdiv(self.x * 65536, self.len_spec()) as i64,
            y: tdiv(self.y * 65536, self.len_spec()) as i64,
            z: tdiv(self.z * 65536, self.len_spec()) as i64,
        }
    }

    /// What normalization guarantees: components within one unit and a raw
    /// squared magnitude within truncation error of one.
    pub open spec fn is_unitish(self) -> bool {
        &&& -65536 <= self.x <= 65536
        &&& -65536 <= self.y <= 65536
        &&& -65536 <= self.z <= 65536
        &&& self.norm2() >= 65536 * 65536 - 6 * 65536
    }

    /// The fixed-point dot product.
    pub open spec fn dot_spec(self, o: Vec3) -> int {
        tdiv(self.x * o.x + self.y * o.y + self.z * o.z, 65536)
    }

    pub fn new(x: i64, y: i64, z: i64) -> (r: Vec3)
        ensures
            r == (Vec3 { x, y, z }),
    {
        Vec3 { x, y, z }
    }

    pub fn x(&self) -> (r: i64)
        ensures
            r == self.x,
    {
        self.x
    }

    pub fn y(&self) -> (r: i64)
        ensures
            r == self.y,
    {
        self.y
    }

    pub fn z(&self) -> (r: i64)
        ensures
            r == self.z,
    {
        self.z
    }

    /// Component-wise sum.
    pub fn add(self, o: Vec3) -> (r: Vec3)
        requires
            i64::MIN <= self.x + o.x <= i64::MAX,
            i64::MIN <= self.y + o.y <= i64::MAX,
            i64::MIN <= self.z + o.z <= i64::MAX,
        ensures
            r.x == self.x + o.x,
            r.y == self.y + o.y,
            r.z == self.z + o.z,
    {
        Vec3 { x: self.x + o.x, y: self.y + o.y, z: self.z + o.z }
    }

    /// Component-wise difference.
    pub fn sub(self, o: Vec3) -> (r: Vec3)
        requires
            i64::MIN <= self.x - o.x <= i64::MAX,
            i64::MIN <= self.y - o.y <= i64::MAX,
            i64::MIN <= self.z - o.z <= i64::MAX,
        ensures
            r.x == self.x - o.x,
            r.y == self.y - o.y,
            r.z == self.z - o.z,
    {
        Vec3 { x: self.x - o.x, y: self.y - o.y, z: self.z - o.z }
    }

    /// Component-wise negation.
    pub fn neg(self) -> (r: Vec3)
        requires
            self.x > i64::MIN,
            self.y > i64::MIN,
            self.z > i64::MIN,
        ensures
            r.x == -self.x,
            r.y == -self.y,
            r.z == -self.z,
    {
        Vec3 { x: -self.x, y: -self.y, z: -self.z }
    }

    /// Scale by a fixed-point factor.
    pub fn mul(self, s: i64) -> (r: Vec3)
        requires
            -0x7FFFFFFFFFFFFFFF * 65536 <= self.x * s <= 0x7FFFFFFFFFFFFFFF * 65536,
            -0x7FFFFFFFFFFFFFFF * 65536 <= self.y * s <= 0x7FFFFFFFFFFFFFFF * 65536,
            -0x7FFFFFFFFFFFFFFF * 65536 <= self.z * s <= 0x7FFFFFFFFFFFFFFF * 65536,
        ensures
            r.x == tdiv(self.x * s, 65536),
            r.y == tdiv(self.y * s, 65536),
            r.z == tdiv(self.z * s, 65536),
    {
        proof {
            lemma_mul_abs_le(self.x as int, s as int, 0x8000000000000000, 0x8000000000000000);
            lemma_mul_abs_le(self.y as int, s as int, 0x8000000000000000, 0x8000000000000000);
            lemma_mul_abs_le(self.z as int, s as int, 0x8000000000000000, 0x8000000000000000);
            lemma_tdiv_abs_le(self.x as int * s as int, 65536, 0x7FFFFFFFFFFFFFFF);
            lemma_tdiv_abs_le(self.y as int * s as int, 65536, 0x7FFFFFFFFFFFFFFF);
            lemma_tdiv_abs_le(self.z as int * s as int, 65536, 0x7FFFFFFFFFFFFFFF);
        }
        let rx = tdiv128((self.x as i128) * (s as i128), 65536);
        let ry = tdiv128((self.y as i128) * (s as i128), 65536);
        let rz = tdiv128((self.z as i128) * (s as i128), 65536);
        Vec3 { x: rx as i64, y: ry as i64, z: rz as i64 }
    }

    /// The fixed-point dot product.
    pub fn dot(&self, other: Self) -> (r: i64)
        requires
            self.in_range(),
            other.in_range(),
        ensures
            r == self.dot_spec(other),
            -0x3000000000000000 <= r <= 0x3000000000000000,
    {
        proof {
            lemma_mul_abs_le(self.x as int, other.x as int, 0x4000000000, 0x4000000000);
            lemma_mul_abs_le(self.y as int, other.y as int, 0x4000000000, 0x4000000000);
            lemma_mul_abs_le(self.z as int, other.z as int, 0x4000000000, 0x4000000000);
        }
        let s: i128 = (self.x as i128) * (other.x as i128) + (self.y as i128) * (other.y as i128)
            + (self.z as i128) * (other.z as i128);
        let q = tdiv128(s, 65536);
        q as i64
    }

    /// The fixed-point cross product.
    pub fn cross(&self, other: Self) -> (r: Vec3)
        requires
            self.in_range(),
            other.in_range(),
        ensures
            r.x == tdiv(self.y * other.z, 65536) - tdiv(self.z * other.y, 65536),
            r.y == tdiv(self.z * other.x, 65536) - tdiv(self.x * other.z, 65536),
            r.z == tdiv(self.x * other.y, 65536) - tdiv(self.y * other.x, 65536),
    {
        let a = fp_mul(self.y, other.z) - fp_mul(self.z, other.y);
        let b = fp_mul(self.z, other.x) - fp_mul(self.x, other.z);
        let c = fp_mul(self.x, other.y) - fp_mul(self.y, other.x);
        Vec3 { x: a, y: b, z: c }
    }

    /// Raw squared magnitude, exactly.
    fn norm2_i128(&self) -> (n: i128)
        requires
            self.in_wide_range(),
        ensures
            n == self.norm2(),
            0 <= n <= 0xC0000000000000000000,  // 3 * 2^78
    {
        proof {
            lemma_mul_abs_le(self.x as int, self.x as int, 0x8000000000, 0x8000000000);
            lemma_mul_abs_le(self.y as int, self.y as int, 0x8000000000, 0x8000000000);
            lemma_mul_abs_le(self.z as int, self.z as int, 0x8000000000, 0x8000000000);
            assert(self.x * self.x >= 0) by (nonlinear_arith);
            assert(self.y * self.y >= 0) by (nonlinear_arith);
            assert(self.z * self.z >= 0) by (nonlinear_arith);
        }
        (self.x as i128) * (self.x as i128) + (self.y as i128) * (self.y as i128)
            + (self.z as i128) * (self.z as i128)
    }

    /// Fixed-point squared magnitude (raw squared magnitude rescaled).
    pub fn length_sqared(&self) -> (r: i64)
        requires
            self.in_range(),
        ensures
            r == tdiv(self.norm2(), 65536),
            0 <= r <= 0x3000000000000000,
    {
        proof {
            lemma_mul_abs_le(self.x as int, self.x as int, 0x4000000000, 0x4000000000);
            lemma_mul_abs_le(self.y as int, self.y as int, 0x4000000000, 0x4000000000);
            lemma_mul_abs_le(self.z as int, self.z as int, 0x4000000000, 0x4000000000);
        }
        let n = self.norm2_i128();
        let q = tdiv128(n, 65536);
        q as i64
    }

    /// Fixed-point magnitude: the integer square root of the raw squared
    /// magnitude.
    pub fn length(&self) -> (r: i64)
        requires
            self.in_wide_range(),
        ensures
            r == self.len_spec(),
            is_isqrt(self.norm2(), r as int),
            0 <= r < 0x10000000000,  // 2^40
    {
        let n = self.norm2_i128();
        let r = isqrt128(n as u128);
        proof {
            assert(0x10000000000int * 0x10000000000int > 0xC0000000000000000000int)
                by (nonlinear_arith);
            lemma_isqrt_in_range(self.norm2(), r as int, 0, 0x10000000000 - 1);
        }
        r as i64
    }

    /// The normalized vector. The result's components are exactly the
    /// stored components rescaled by `FP_ONE` and divided by the magnitude;
    /// its raw squared magnitude is within truncation error of one.
    pub fn unit_vector(&self) -> (r: Vec3)
        requires
            self.in_wide_range(),
            self.norm2() > 0,
        ensures
            r == self.unit_spec(),
            r.is_unitish(),
            self.norm2() >= 16384 * 16384 ==> r.norm2() <= 65536 * 65536 + 14 * 65536 + 3,
    {
        let l = self.length();
        proof {
            assert(l >= 1);
        }
        let ux = tdiv64(self.x * 65536, l);
        let uy = tdiv64(self.y * 65536, l);
        let uz = tdiv64(self.z * 65536, l);
        proof {
            if self.norm2() >= 16384 * 16384 {
                assert(l >= 16384) by (nonlinear_arith)
                    requires
                        self.norm2() < (l + 1) * (l + 1),
                        self.norm2() >= 16384 * 16384,
                        l >= 0;
            }
            lemma_unit_bounds(
                self.x as int, self.y as int, self.z as int, l as int,
                ux as int, uy as int, uz as int,
            );
        }
        Vec3 { x: ux, y: uy, z: uz }
    }

    /// Linear interpolation `a*(1-t) + b*t`, with the blend factor clamped
    /// to the unit interval.
    pub fn lerp(a: Self, b: Self, t: i64) -> (r: Vec3)
        requires
            a.in_range(),
            b.in_range(),
        ensures
            r.x == tdiv(a.x * (65536 - clamp01(t as int)), 65536) + tdiv(
                b.x * clamp01(t as int), 65536),
            r.y == tdiv(a.y * (65536 - clamp01(t as int)), 65536) + tdiv(
                b.y * clamp01(t as int), 65536),
            r.z == tdiv(a.z * (65536 - clamp01(t as int)), 65536) + tdiv(
                b.z * clamp01(t as int), 65536),
            (0 <= a.x <= 65536 && 0 <= b.x <= 65536) ==> 0 <= r.x <= 65536,
            (0 <= a.y <= 65536 && 0 <= b.y <= 65536) ==> 0 <= r.y <= 65536,
            (0 <= a.z <= 65536 && 0 <= b.z <= 65536) ==> 0 <= r.z <= 65536,
    {
        let t_clamped: i64 = if t < 0 {
            0
        } else if t > 65536 {
            65536
        } else {
            t
        };
        let xa = fp_mul(a.x, 65536 - t_clamped);
        let xb = fp_mul(b.x, t_clamped);
        let ya = fp_mul(a.y, 65536 - t_clamped);
        let yb = fp_mul(b.y, t_clamped);
        let za = fp_mul(a.z, 65536 - t_clamped);
        let zb = fp_mul(b.z, t_clamped);
        proof {
            lemma_lerp_channel(a.x as int, b.x as int, t_clamped as int, xa as int, xb as int);
            lemma_lerp_channel(a.y as int, b.y as int, t_clamped as int, ya as int, yb as int);
            lemma_lerp_channel(a.z as int, b.z as int, t_clamped as int, za as int, zb as int);
        }
        Vec3 { x: xa + xb, y: ya + yb, z: za + zb }
    }

    /// Per-channel gamma correction: each channel (in `[0, FP_ONE]`) is
    /// replaced by its `gamma`-th root in fixed point. Gammas up to 7 are
    /// supported; beyond that the exact scaled root no longer fits the
    /// machine's integers.
    pub fn gamma_correct(&self, gamma: u32) -> (r: Self)
        requires
            1 <= gamma <= 7,
            0 <= self.x <= 65536,
            0 <= self.y <= 65536,
            0 <= self.z <= 65536,
        ensures
            r.x == gamma_channel(self.x as int, gamma as nat),
            r.y == gamma_channel(self.y as int, gamma as nat),
            r.z == gamma_channel(self.z as int, gamma as nat),
            0 <= r.x <= 65536 && 0 <= r.y <= 65536 && 0 <= r.z <= 65536,
    {
        let p = pow_u128(65536, gamma - 1);
        proof {
            lemma_pow_65536_values();
            lemma_pow_increases(65536, (gamma - 1) as nat, 6);
            lemma_gamma_scale_bound(gamma as nat);
            lemma_mul_upper_bound(self.x as int, 65536, p as int, 0x1000000000000000000000000);
            lemma_mul_upper_bound(self.y as int, 65536, p as int, 0x1000000000000000000000000);
            lemma_mul_upper_bound(self.z as int, 65536, p as int, 0x1000000000000000000000000);
        }
        let rx = nth_root((self.x as u128) * p, gamma);
        let ry = nth_root((self.y as u128) * p, gamma);
        let rz = nth_root((self.z as u128) * p, gamma);
        Vec3 { x: rx, y: ry, z: rz }
    }

    /// Clamp each channel to the unit interval, scale to 255 and round to
    /// nearest.
    pub fn to_8bit_color(&self) -> (r: (u8, u8, u8))
        ensures
            r.0 == tdiv(clamp01(self.x as int) * 255 + 32768, 65536),
            r.1 == tdiv(clamp01(self.y as int) * 255 + 32768, 65536),
            r.2 == tdiv(clamp01(self.z as int) * 255 + 32768, 65536),
    {
        let r = Self::quantize_channel(self.x);
        let g = Self::quantize_channel(self.y);
        let b = Self::quantize_channel(self.z);
        (r, g, b)
    }

    /// One channel of `to_8bit_color`.
    fn quantize_channel(c: i64) -> (r: u8)
        ensures
            r == tdiv(clamp01(c as int) * 255 + 32768, 65536),
    {
        let cc: i64 = if c < 0 {
            0
        } else if c > 65536 {
            65536
        } else {
            c
        };
        let q = tdiv64(cc * 255 + 32768, 65536);
        q as u8
    }
}

/// One gamma-corrected channel: the integer `g`-th root of the channel value
/// scaled by `FP_ONE^(g-1)`.
pub open spec fn gamma_channel(c: int, g: nat) -> int {
    nthroot_spec(c * pow(65536, (g - 1) as nat), g)
}

/// The scaled channel stays below `65537^g`, so the root search range covers
/// it, and the root stays in the unit interval.
proof fn lemma_gamma_scale_bound(g: nat)
    requires
        1 <= g <= 7,
    ensures
        forall|c: int| 0 <= c <= 65536 ==> #[trigger] (c * pow(65536, (g - 1) as nat))
            < pow(65537, g),
{
    lemma_pow_65536_values();
    assert forall|c: int| 0 <= c <= 65536 implies #[trigger] (c * pow(65536, (g - 1) as nat))
        < pow(65537, g) by {
        lemma_mul_upper_bound(c, 65536, pow(65536, (g - 1) as nat), pow(65536, (g - 1) as nat));
        lemma_pow_adds(65536, 1, (g - 1) as nat);
        lemma_pow1(65536);
        lemma_pow_base_lt(65536, 65537, g);
    }
}

/// Gamma round-trip at full brightness: a channel of exactly one is a fixed
/// point of the root for every gamma, and quantizes to 255.
pub proof fn lemma_gamma_white_fixed_point(g: nat)
    requires
        1 <= g <= 7,
    ensures
        gamma_channel(65536, g) == 65536,
        tdiv(clamp01(gamma_channel(65536, g)) * 255 + 32768, 65536) == 255,
{
    let scaled = 65536 * pow(65536, (g - 1) as nat);
    lemma_pow_adds(65536, 1, (g - 1) as nat);
    lemma_pow1(65536);
    assert(scaled == pow(65536, g));
    lemma_pow_base_lt(65536, 65537, g);
    assert(is_nthroot(scaled, g, 65536));
    assert(exists|q: int| is_nthroot(scaled, g, q));
    assert(is_nthroot(scaled, g, nthroot_spec(scaled, g)));
    lemma_nthroot_unique(scaled, g, 65536, nthroot_spec(scaled, g));
}

/// Both halves of one interpolated channel: exact values and, for channels
/// in the unit interval, the sum stays in the unit interval.
proof fn lemma_lerp_channel(a: int, b: int, tc: int, qa: int, qb: int)
    requires
        0 <= tc <= 65536,
        qa == tdiv(a * (65536 - tc), 65536),
        qb == tdiv(b * tc, 65536),
    ensures
        (0 <= a <= 65536 && 0 <= b <= 65536) ==> 0 <= qa + qb <= 65536,
{
    if 0 <= a <= 65536 && 0 <= b <= 65536 {
        lemma_tdiv(a * (65536 - tc), 65536);
        lemma_tdiv(b * tc, 65536);
        assert(a * (65536 - tc) >= 0) by (nonlinear_arith)
            requires a >= 0 && tc <= 65536;
        assert(b * tc >= 0) by (nonlinear_arith)
            requires b >= 0 && tc >= 0;
        assert(a * (65536 - tc) <= 65536 * (65536 - tc)) by (nonlinear_arith)
            requires a <= 65536 && tc <= 65536;
        assert(b * tc <= 65536 * tc) by (nonlinear_arith)
            requires b <= 65536 && tc >= 0;
    }
}

/// Error analysis of fixed-point normalization: given the magnitude `l` and
/// the truncated scaled components, every component lies within one unit and
/// the squared magnitude is within truncation error of one; when the input
/// is long enough, also bounded above.
proof fn lemma_unit_bounds(x: int, y: int, z: int, l: int, ux: int, uy: int, uz: int)
    requires
        l >= 1,
        is_isqrt(x * x + y * y + z * z, l),
        ux == tdiv(x * 65536, l),
        uy == tdiv(y * 65536, l),
        uz == tdiv(z * 65536, l),
    ensures
        -65536 <= ux <= 65536,
        -65536 <= uy <= 65536,
        -65536 <= uz <= 65536,
        ux * ux + uy * uy + uz * uz >= 65536 * 65536 - 6 * 65536,
        l >= 16384 ==> ux * ux + uy * uy + uz * uz <= 65536 * 65536 + 14 * 65536 + 3,
{
    let n2 = x * x + y * y + z * z;
    assert(y * y >= 0 && z * z >= 0 && x * x >= 0) by (nonlinear_arith);
    // each component is bounded by the magnitude
    assert(-l <= x <= l) by (nonlinear_arith)
        requires x * x < (l + 1) * (l + 1) && l >= 0;
    assert(-l <= y <= l) by (nonlinear_arith)
        requires y * y < (l + 1) * (l + 1) && l >= 0;
    assert(-l <= z <= l) by (nonlinear_arith)
        requires z * z < (l + 1) * (l + 1) && l >= 0;
    // hence each scaled quotient is bounded by one unit
    assert(-l * 65536 <= x * 65536 <= l * 65536) by (nonlinear_arith)
        requires -l <= x <= l;
    assert(-l * 65536 <= y * 65536 <= l * 65536) by (nonlinear_arith)
        requires -l <= y <= l;
    assert(-l * 65536 <= z * 65536 <= l * 65536) by (nonlinear_arith)
        requires -l <= z <= l;
    assert(-65536 * l <= x * 65536 <= 65536 * l);
    lemma_tdiv_abs_le(x * 65536, l, 65536);
    lemma_tdiv_abs_le(y * 65536, l, 65536);
    lemma_tdiv_abs_le(z * 65536, l, 65536);
    // truncation residues
    let dx = ux * l - x * 65536;
    let dy = uy * l - y * 65536;
    let dz = uz * l - z * 65536;
    lemma_tdiv(x * 65536, l);
    lemma_tdiv(y * 65536, l);
    lemma_tdiv(z * 65536, l);
    assert(l * ux == ux * l) by (nonlinear_arith);
    assert(l * uy == uy * l) by (nonlinear_arith);
    assert(l * uz == uz * l) by (nonlinear_arith);
    assert(-(l - 1) <= dx <= l - 1);
    assert(-(l - 1) <= dy <= l - 1);
    assert(-(l - 1) <= dz <= l - 1);
    // expand the squares of the scaled components
    let sumu = ux * ux + uy * uy + uz * uz;
    let cross = x * dx + y * dy + z * dz;
    let sumd = dx * dx + dy * dy + dz * dz;
    assert((ux * ux) * (l * l) == (x * x) * (65536 * 65536) + 2 * 65536 * (x * dx) + dx * dx)
        by (nonlinear_arith)
        requires ux * l == x * 65536 + dx;
    assert((uy * uy) * (l * l) == (y * y) * (65536 * 65536) + 2 * 65536 * (y * dy) + dy * dy)
        by (nonlinear_arith)
        requires uy * l == y * 65536 + dy;
    assert((uz * uz) * (l * l) == (z * z) * (65536 * 65536) + 2 * 65536 * (z * dz) + dz * dz)
        by (nonlinear_arith)
        requires uz * l == z * 65536 + dz;
    assert(sumu * (l * l) == (ux * ux) * (l * l) + (uy * uy) * (l * l) + (uz * uz) * (l * l))
        by (nonlinear_arith)
        requires sumu == ux * ux + uy * uy + uz * uz;
    assert(n2 * (65536 * 65536)
        == (x * x) * (65536 * 65536) + (y * y) * (65536 * 65536) + (z * z) * (65536 * 65536))
        by (nonlinear_arith)
        requires n2 == x * x + y * y + z * z;
    assert(sumu * (l * l) == n2 * (65536 * 65536) + 2 * 65536 * cross + sumd)
        by (nonlinear_arith)
        requires
            (ux * ux) * (l * l) == (x * x) * (65536 * 65536) + 2 * 65536 * (x * dx) + dx * dx,
            (uy * uy) * (l * l) == (y * y) * (65536 * 65536) + 2 * 65536 * (y * dy) + dy * dy,
            (uz * uz) * (l * l) == (z * z) * (65536 * 65536) + 2 * 65536 * (z * dz) + dz * dz,
            sumu * (l * l) == (ux * ux) * (l * l) + (uy * uy) * (l * l) + (uz * uz) * (l * l),
            n2 * (65536 * 65536) == (x * x) * (65536 * 65536) + (y * y) * (65536 * 65536)
                + (z * z) * (65536 * 65536),
            cross == x * dx + y * dy + z * dz,
            sumd == dx * dx + dy * dy + dz * dz;
    // bound the cross terms and residues
    lemma_mul_abs_le(x, dx, l, l - 1);
    lemma_mul_abs_le(y, dy, l, l - 1);
    lemma_mul_abs_le(z, dz, l, l - 1);
    lemma_mul_abs_le(dx, dx, l - 1, l - 1);
    lemma_mul_abs_le(dy, dy, l - 1, l - 1);
    lemma_mul_abs_le(dz, dz, l - 1, l - 1);
    assert(l * (l - 1) <= l * l) by (nonlinear_arith)
        requires l >= 1;
    assert((l - 1) * (l - 1) <= l * l) by (nonlinear_arith)
        requires l >= 1;
    assert(dx * dx >= 0 && dy * dy >= 0 && dz * dz >= 0) by (nonlinear_arith);
    assert(sumd >= 0);
    // lower bound: n2 >= l^2 and the error terms cost at most 6*65536*l^2
    assert(n2 * (65536 * 65536) >= (l * l) * (65536 * 65536)) by (nonlinear_arith)
        requires n2 >= l * l;
    assert(2 * 65536 * cross >= -(6 * 65536) * (l * l)) by (nonlinear_arith)
        requires
            cross == x * dx + y * dy + z * dz,
            -(l * (l - 1)) <= x * dx <= l * (l - 1),
            -(l * (l - 1)) <= y * dy <= l * (l - 1),
            -(l * (l - 1)) <= z * dz <= l * (l - 1),
            l >= 1;
    assert(sumu * (l * l) >= (65536 * 65536 - 6 * 65536) * (l * l)) by (nonlinear_arith)
        requires
            sumu * (l * l) == n2 * (65536 * 65536) + 2 * 65536 * cross + sumd,
            n2 * (65536 * 65536) >= (l * l) * (65536 * 65536),
            2 * 65536 * cross >= -(6 * 65536) * (l * l),
            sumd >= 0;
    assert(l * l >= 1) by (nonlinear_arith)
        requires l >= 1;
    assert(sumu >= 65536 * 65536 - 6 * 65536) by (nonlinear_arith)
        requires
            sumu * (l * l) >= (65536 * 65536 - 6 * 65536) * (l * l),
            l * l >= 1;
    // upper bound, for inputs of length at least a quarter unit
    if l >= 16384 {
        assert(n2 <= l * l + 2 * l) by (nonlinear_arith)
            requires n2 < (l + 1) * (l + 1);
        assert(n2 * (65536 * 65536) <= (l * l) * (65536 * 65536) + (2 * l) * (65536 * 65536))
            by (nonlinear_arith)
            requires n2 <= l * l + 2 * l;
        // 2*l*65536^2 <= 8*65536*l^2 because 65536 <= 4*l
        assert((2 * l) * (65536 * 65536) <= (8 * 65536) * (l * l)) by (nonlinear_arith)
            requires l >= 16384;
        assert(2 * 65536 * cross <= (6 * 65536) * (l * l)) by (nonlinear_arith)
            requires
                cross == x * dx + y * dy + z * dz,
                -(l * (l - 1)) <= x * dx <= l * (l - 1),
                -(l * (l - 1)) <= y * dy <= l * (l - 1),
                -(l * (l - 1)) <= z * dz <= l * (l - 1),
                l >= 1;
        assert(sumd <= 3 * (l * l)) by (nonlinear_arith)
            requires
                sumd == dx * dx + dy * dy + dz * dz,
                -(l - 1) <= dx <= l - 1,
                -(l - 1) <= dy <= l - 1,
                -(l - 1) <= dz <= l - 1,
                l >= 1;
        assert(sumu * (l * l) <= (65536 * 65536 + 14 * 65536 + 3) * (l * l)) by (nonlinear_arith)
            requires
                sumu * (l * l) == n2 * (65536 * 65536) + 2 * 65536 * cross + sumd,
                n2 * (65536 * 65536) <= (l * l) * (65536 * 65536) + (8 * 65536) * (l * l),
                2 * 65536 * cross <= (6 * 65536) * (l * l),
                sumd <= 3 * (l * l);
        assert(sumu <= 65536 * 65536 + 14 * 65536 + 3) by (nonlinear_arith)
            requires
                sumu * (l * l) <= (65536 * 65536 + 14 * 65536 + 3) * (l * l),
                l * l >= 1;
    }
}

/// A vector whose squared magnitude is within truncation error of one has a
/// fixed-point length within a few ulps of one.
pub proof fn lemma_unitish_length(v: Vec3)
    requires
        v.norm2() >= 65536 * 65536 - 6 * 65536,
        v.norm2() <= 65536 * 65536 + 14 * 65536 + 3,
    ensures
        65532 <= v.len_spec() <= 65543,
{
    lemma_isqrt_exists(v.norm2());
    lemma_isqrt_in_range(v.norm2(), v.len_spec(), 65532, 65543);
}

/// Normalization invariant: any vector of real length at least a quarter
/// unit normalizes to a vector whose fixed-point length is one to within
/// eleven ulps (about 1.7e-4).
pub proof fn lemma_unit_vector_length(v: Vec3)
    requires
        v.in_wide_range(),
        v.norm2() >= 16384 * 16384,
    ensures
        65532 <= v.unit_spec().len_spec() <= 65543,
{
    lemma_isqrt_exists(v.norm2());
    let l = v.len_spec();
    lemma_mul_abs_le(v.x as int, v.x as int, 0x8000000000, 0x8000000000);
    lemma_mul_abs_le(v.y as int, v.y as int, 0x8000000000, 0x8000000000);
    lemma_mul_abs_le(v.z as int, v.z as int, 0x8000000000, 0x8000000000);
    assert(0x10000000000int * 0x10000000000int > 0xC0000000000000000000int) by (nonlinear_arith);
    lemma_isqrt_in_range(v.norm2(), l, 16384, 0x10000000000 - 1);
    let u = v.unit_spec();
    proof_unit_cast_ok(v, l);
    lemma_unit_bounds(
        v.x as int, v.y as int, v.z as int, l,
        u.x as int, u.y as int, u.z as int,
    );
    lemma_unitish_length(u);
}

/// The components of `unit_spec` fit in `i64`, so the stored fields equal
/// the mathematical quotients.
pub proof fn proof_unit_cast_ok(v: Vec3, l: int)
    requires
        v.in_wide_range(),
        l == v.len_spec(),
        l >= 1,
    ensures
        v.unit_spec().x == tdiv(v.x * 65536, l),
        v.unit_spec().y == tdiv(v.y * 65536, l),
        v.unit_spec().z == tdiv(v.z * 65536, l),
{
    assert(-l * 0x80000000000000 <= v.x * 65536 <= l * 0x80000000000000) by (nonlinear_arith)
        requires l >= 1 && -0x8000000000 <= v.x <= 0x8000000000;
    assert(-l * 0x80000000000000 <= v.y * 65536 <= l * 0x80000000000000) by (nonlinear_arith)
        requires l >= 1 && -0x8000000000 <= v.y <= 0x8000000000;
    assert(-l * 0x80000000000000 <= v.z * 65536 <= l * 0x80000000000000) by (nonlinear_arith)
        requires l >= 1 && -0x8000000000 <= v.z <= 0x8000000000;
    lemma_tdiv_abs_le(v.x * 65536, l, 0x80000000000000);
    lemma_tdiv_abs_le(v.y * 65536, l, 0x80000000000000);
    lemma_tdiv_abs_le(v.z * 65536, l, 0x80000000000000);
}

} // verus!
