//! Rays: an origin and a direction that is normalized once, at construction.

use vstd::prelude::*;
use crate::fixed::tdiv;
use crate::vec3::{Vec3, Point3};
use crate::fixed::{lemma_tdiv_abs_le, lemma_mul_abs_le};
use crate::vec3::lemma_unit_vector_length;

verus! {

/// A half-line `origin + t * direction`.
#[derive(Clone, Copy, Debug)]
pub struct Ray {
    pub orig: Point3,
    pub dir: Vec3,
}

impl Ray {
    /// The origin stays within `RAY_LIMIT` and the direction is a
    /// normalized vector.
    pub open spec fn wf(self) -> bool {
        &&& self.orig.in_ray_range()
        &&& self.dir.is_unitish()
    }

    /// The point at parameter `t`, component-wise, as mathematical integers.
    pub open spec fn at_spec(self, t: int) -> (int, int, int) {
        (
            self.orig.x + tdiv(self.dir.x * t, 65536),
            self.orig.y + tdiv(self.dir.y * t, 65536),
            self.orig.z + tdiv(self.dir.z * t, 65536),
        )
    }

    pub fn orig(&self) -> (r: Point3)
        ensures
            r == self.orig,
    {
        self.orig
    }

    pub fn dir(&self) -> (r: Vec3)
        ensures
            r == self.dir,
    {
        self.dir
    }

    /// The point reached after travelling `t` along the direction.
    pub fn at(&self, t: i64) -> (r: Point3)
        requires
            self.wf(),
            -0x100000000000 <= t <= 0x100000000000,  // 2^44
        ensures
            (r.x as int, r.y as int, r.z as int) == self.at_spec(t as int),
            r.x == self.orig.x + tdiv(self.dir.x * t, 65536),
            r.y == self.orig.y + tdiv(self.dir.y * t, 65536),
            r.z == self.orig.z + tdiv(self.dir.z * t, 65536),
    {
        proof {
            lemma_mul_abs_le(self.dir.x as int, t as int, 65536, 0x100000000000);
            lemma_mul_abs_le(self.dir.y as int, t as int, 65536, 0x100000000000);
            lemma_mul_abs_le(self.dir.z as int, t as int, 65536, 0x100000000000);
            lemma_tdiv_abs_le(self.dir.x as int * t as int, 65536, 0x100000000000);
            lemma_tdiv_abs_le(self.dir.y as int * t as int, 65536, 0x100000000000);
            lemma_tdiv_abs_le(self.dir.z as int * t as int, 65536, 0x100000000000);
        }
        self.orig.add(self.dir.mul(t))
    }

    /// Build a ray, normalizing the direction once; uses of the stored
    /// direction never re-normalize.
    pub fn new(orig: Vec3, dir: Vec3) -> (r: Self)
        requires
            orig.in_ray_range(),
            dir.in_wide_range(),
            dir.norm2() > 0,
        ensures
            r.orig == orig,
            r.dir == dir.unit_spec(),
            r.wf(),
            dir.norm2() >= 16384 * 16384 ==> r.dir.norm2() <= 65536 * 65536 + 14 * 65536 + 3,
    {
        Ray { orig, dir: dir.unit_vector() }
    }
}

/// Ray construction invariant: whatever the magnitude of the input
/// direction (at least a quarter unit, where fixed-point quantization is
/// meaningful), the stored direction of `Ray::new` has fixed-point length
/// one to within eleven ulps.
pub proof fn lemma_ray_direction_unit(r: Ray, dir: Vec3)
    requires
        dir.in_wide_range(),
        dir.norm2() >= 16384 * 16384,
        r.dir == dir.unit_spec(),
    ensures
        65532 <= r.dir.len_spec() <= 65543,
{
    lemma_unit_vector_length(dir);
}

} // verus!
