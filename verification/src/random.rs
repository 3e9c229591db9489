//! The uniform random source, and the random direction sampler used by the
//! diffuse bounce.

use vstd::prelude::*;
use crate::vec3::Vec3;
use rand::Rng;

verus! {

/// Relies on `rand::Rng::gen_range` on the range `0..n`: a draw from the
/// thread-local generator, uniform over `[0, n)`; it panics only on an
/// empty range, which `n > 0` rules out.
#[verifier::external_body]
fn random_below(n: u64) -> (r: u64)
    requires
        n > 0,
    ensures
        r < n,
{
    rand::thread_rng().gen_range(0..n)
}

/// A uniform fixed-point draw from `[0, 1)`.
pub fn random_float() -> (r: i64)
    ensures
        0 <= r < 65536,
{
    random_below(65536) as i64
}

/// A uniform fixed-point draw from `[a, b)`.
pub fn random_float_range(a: i64, b: i64) -> (r: i64)
    requires
        a < b,
        -0x4000000000 <= a,
        b <= 0x4000000000,
    ensures
        a <= r < b,
{
    let d = (b - a) as u64;
    let off = random_below(d);
    a + (off as i64)
}

/// A uniform point inside the unit ball, by rejection sampling; points of
/// squared length below a quarter unit squared are also rejected, so the
/// result is safely away from the origin. After 64 failed draws (each
/// succeeds with probability about one half, so this is vanishingly rare)
/// it falls back to a fixed interior point.
pub fn random_in_unit_shpere() -> (v: Vec3)
    ensures
        v.in_range(),
        16384 * 16384 <= v.norm2() < 65536 * 65536,
{
    let mut i: u32 = 0;
    while i < 64
        invariant
            i <= 64,
        decreases 64 - i,
    {
        let x = random_float_range(-65536, 65536);
        let y = random_float_range(-65536, 65536);
        let z = random_float_range(-65536, 65536);
        let v = Vec3::new(x, y, z);
        let q = v.length_sqared();
        if 4096 <= q && q < 65536 {
            proof {
                crate::fixed::lemma_tdiv(v.norm2(), 65536);
            }
            return v;
        }
        i = i + 1;
    }
    Vec3::new(32768, 0, 0)
}

/// A random direction: a point inside the unit ball, normalized. Since the
/// ball is sampled uniformly, the direction is uniform over the sphere.
pub fn random_unit_vector() -> (v: Vec3)
    ensures
        v.is_unitish(),
        v.norm2() <= 65536 * 65536 + 14 * 65536 + 3,
{
    let p = random_in_unit_shpere();
    p.unit_vector()
}

} // verus!
