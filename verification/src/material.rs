//! Surface materials. The only scattering material is Lambertian diffuse.

use vstd::prelude::*;
use crate::vec3::{Vec3, Color};
use crate::ray::Ray;
use crate::shapes::HitRecord;
use crate::random::random_unit_vector;

verus! {

/// How a diffuse bounce direction relates to the surface: the stored
/// direction is the normalization of the normal plus some unit vector
/// `rv`, or of the normal alone when that sum is exactly zero.
pub open spec fn scatter_dir_ok(normal: Vec3, rv: Vec3, dir: Vec3) -> bool {
    let d = Vec3 {
        x: (normal.x + rv.x) as i64,
        y: (normal.y + rv.y) as i64,
        z: (normal.z + rv.z) as i64,
    };
    if d.x == 0 && d.y == 0 && d.z == 0 {
        dir == normal.unit_spec()
    } else {
        dir == d.unit_spec()
    }
}

/// A diffuse surface reflecting the fraction `albedo` of incoming light per
/// channel.
#[derive(Clone, Copy, Debug)]
pub struct Lambertian {
    pub albedo: Color,
}

impl Lambertian {
    /// Each albedo channel lies in the unit interval.
    pub open spec fn wf(self) -> bool {
        &&& 0 <= self.albedo.x <= 65536
        &&& 0 <= self.albedo.y <= 65536
        &&& 0 <= self.albedo.z <= 65536
    }

    pub fn new(albedo: Color) -> (r: Self)
        requires
            0 <= albedo.x <= 65536,
            0 <= albedo.y <= 65536,
            0 <= albedo.z <= 65536,
        ensures
            r.albedo == albedo,
            r.wf(),
    {
        Lambertian { albedo }
    }

    pub fn albedo(&self) -> (r: Color)
        ensures
            r == self.albedo,
    {
        self.albedo
    }

    /// Diffuse bounce: a new ray from the hit point in the direction of the
    /// surface normal plus a random unit vector, with the albedo as
    /// attenuation. Always scatters. If the random sample exactly cancels
    /// the normal (a zero direction), the normal itself is used instead.
    pub fn scatter(&self, r_in: &Ray, rec: &HitRecord) -> (res: Option<(Ray, Color)>)
        requires
            rec.wf(),
        ensures
            res is Some,
            res matches Some(p) ==> {
                &&& p.1 == self.albedo
                &&& p.0.orig == rec.point
                &&& p.0.wf()
            },
            res matches Some(p) ==> exists|rv: Vec3| #[trigger] rv.is_unitish()
                && scatter_dir_ok(rec.normal, rv, p.0.dir),
    {
        let rv = random_unit_vector();
        let scatter_direction = rec.normal().add(rv);
        let d = if scatter_direction.x() == 0 && scatter_direction.y() == 0
            && scatter_direction.z() == 0 {
            rec.normal()
        } else {
            scatter_direction
        };
        proof {
            if !(scatter_direction.x == 0 && scatter_direction.y == 0
                && scatter_direction.z == 0) {
                assert(d.x * d.x + d.y * d.y + d.z * d.z > 0) by (nonlinear_arith)
                    requires d.x != 0 || d.y != 0 || d.z != 0;
            }
        }
        let scatted = Ray::new(rec.point(), d);
        proof {
            assert(scatter_dir_ok(rec.normal, rv, scatted.dir));
            assert(exists|rv2: Vec3| #[trigger] rv2.is_unitish() && scatter_dir_ok(
                rec.normal, rv2, scatted.dir));
        }
        let attenuation = self.albedo;
        Some((scatted, attenuation))
    }
}

/// The closed set of scattering materials in this scene model.
#[derive(Clone, Copy, Debug)]
pub enum Material {
    Lambertian(Lambertian),
}

impl Material {
    pub open spec fn wf(self) -> bool {
        match self {
            Material::Lambertian(l) => l.wf(),
        }
    }

    /// The attenuation this material applies to bounced light.
    pub open spec fn albedo_spec(self) -> Color {
        match self {
            Material::Lambertian(l) => l.albedo,
        }
    }

    /// Dispatch scattering to the concrete material.
    pub fn scatter(&self, r_in: &Ray, rec: &HitRecord) -> (res: Option<(Ray, Color)>)
        requires
            rec.wf(),
        ensures
            res is Some,
            res matches Some(p) ==> {
                &&& p.1 == self.albedo_spec()
                &&& p.0.orig == rec.point
                &&& p.0.wf()
            },
            res matches Some(p) ==> exists|rv: Vec3| #[trigger] rv.is_unitish()
                && scatter_dir_ok(rec.normal, rv, p.0.dir),
    {
        match self {
            Material::Lambertian(l) => l.scatter(r_in, rec),
        }
    }
}

/// A reflective material, not yet given a scattering rule.
pub struct Metal {}

} // verus!
