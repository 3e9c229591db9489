//! The camera: a fixed viewport geometry mapping image-plane coordinates to
//! world-space rays.

use vstd::prelude::*;
use crate::fixed::{tdiv, tdiv64, fp_mul, lemma_tdiv_abs_le, lemma_mul_abs_le};
use crate::vec3::{Vec3, Point3};
use crate::ray::Ray;

verus! {

/// Viewport geometry, computed once at construction.
#[derive(Clone, Copy, Debug)]
pub struct Camera {
    pub orig: Point3,
    pub lower_left_corner: Point3,
    pub horizontal: Vec3,
    pub vertical: Vec3,
}

impl Camera {
    /// The geometry stays in scene range, the viewport plane is
    /// perpendicular to the z axis, and it does not pass through the
    /// origin, so every generated ray has a nonzero direction.
    pub open spec fn wf(self) -> bool {
        &&& self.orig.in_scene_range()
        &&& self.lower_left_corner.in_scene_range()
        &&& self.horizontal.in_scene_range()
        &&& self.vertical.in_scene_range()
        &&& self.horizontal.z == 0
        &&& self.vertical.z == 0
        &&& self.lower_left_corner.z != self.orig.z
    }

    /// The un-normalized direction of the ray through image-plane
    /// coordinates `(u, v)`.
    pub open spec fn dir_spec(self, u: int, v: int) -> Vec3 {
        Vec3 {
            x: (self.lower_left_corner.x + tdiv(self.horizontal.x * u, 65536) + tdiv(
                self.vertical.x * v, 65536) - self.orig.x) as i64,
            y: (self.lower_left_corner.y + tdiv(self.horizontal.y * u, 65536) + tdiv(
                self.vertical.y * v, 65536) - self.orig.y) as i64,
            z: (self.lower_left_corner.z + tdiv(self.horizontal.z * u, 65536) + tdiv(
                self.vertical.z * v, 65536) - self.orig.z) as i64,
        }
    }

    /// The viewport that `Default::default` builds, as a value.
    pub open spec fn default_spec() -> Camera {
        Camera {
            orig: Vec3 { x: 0i64, y: 0i64, z: 0i64 },
            lower_left_corner: Vec3 { x: -116508i64, y: -65536i64, z: -65536i64 },
            horizontal: Vec3 { x: 233016i64, y: 0i64, z: 0i64 },
            vertical: Vec3 { x: 0i64, y: 131072i64, z: 0i64 },
        }
    }

    /// The ray through image-plane coordinates `(u, v)`; coordinates
    /// slightly outside the unit square are allowed and extrapolate, which
    /// anti-aliasing jitter uses at image edges.
    pub fn get_ray(&self, u: i64, v: i64) -> (r: Ray)
        requires
            self.wf(),
            -131072 <= u <= 131072,
            -131072 <= v <= 131072,
        ensures
            r.orig == self.orig,
            r.dir == self.dir_spec(u as int, v as int).unit_spec(),
            r.wf(),
    {
        proof {
            lemma_mul_abs_le(self.horizontal.x as int, u as int, 0x1000000000, 131072);
            lemma_mul_abs_le(self.horizontal.y as int, u as int, 0x1000000000, 131072);
            lemma_mul_abs_le(self.vertical.x as int, v as int, 0x1000000000, 131072);
            lemma_mul_abs_le(self.vertical.y as int, v as int, 0x1000000000, 131072);
            lemma_tdiv_abs_le(self.horizontal.x as int * u as int, 65536, 0x2000000000);
            lemma_tdiv_abs_le(self.horizontal.y as int * u as int, 65536, 0x2000000000);
            lemma_tdiv_abs_le(self.vertical.x as int * v as int, 65536, 0x2000000000);
            lemma_tdiv_abs_le(self.vertical.y as int * v as int, 65536, 0x2000000000);
        }
        let dir = self.lower_left_corner.add(self.horizontal.mul(u)).add(
            self.vertical.mul(v)).sub(self.orig);
        proof {
            assert(dir.z != 0);
            assert(dir.norm2() > 0) by (nonlinear_arith)
                requires dir.z != 0;
        }
        Ray::new(self.orig, dir)
    }
}

impl Default for Camera {
    /// The standard viewport: a 16:9 aspect ratio, a viewport two units
    /// high, and a focal length of one, all rounded to fixed point.
    fn default() -> (r: Self)
        ensures
            r == Camera::default_spec(),
            r.wf(),
    {
        let aspect_ratio = tdiv64(16 * 65536, 9);
        let viewport_height: i64 = 2 * 65536;
        let viewport_width = fp_mul(viewport_height, aspect_ratio);
        let focal_length: i64 = 65536;

        let orig = Vec3::new(0, 0, 0);
        let horizontal = Vec3::new(viewport_width, 0, 0);
        let vertical = Vec3::new(0, viewport_height, 0);
        let lower_left_corner = orig.sub(horizontal.mul(32768)).sub(vertical.mul(32768)).sub(
            Vec3::new(0, 0, focal_length));

        Camera { orig, lower_left_corner, horizontal, vertical }
    }
}

} // verus!
