//! Geometry: spheres, hit records, and the scene aggregate that returns the
//! nearest hit.

use vstd::prelude::*;
use crate::fixed::{
    tdiv, tdiv128, fp_mul, isqrt_spec, lemma_tdiv, lemma_tdiv_abs_le, lemma_mul_abs_le,
    isqrt128, lemma_isqrt_in_range,
};
use crate::vec3::{Vec3, Point3, proof_unit_cast_ok};
use crate::fixed::lemma_isqrt_exists;
use crate::ray::Ray;
use crate::material::Material;

verus! {

/// The result of a ray hitting a surface: the hit point, the outward unit
/// normal, the ray parameter, and the surface's material.
#[derive(Clone, Copy, Debug)]
pub struct HitRecord {
    pub point: Point3,
    pub normal: Vec3,
    pub t: i64,
    pub material: Material,
}

impl HitRecord {
    pub open spec fn wf(self) -> bool {
        &&& self.point.in_ray_range()
        &&& self.normal.is_unitish()
        &&& 0 < self.t
        &&& self.material.wf()
    }

    pub fn new(point: Point3, normal: Vec3, t: i64, material: Material) -> (r: Self)
        ensures
            r == (HitRecord { point, normal, t, material }),
    {
        HitRecord { point, normal, t, material }
    }

    pub fn point(&self) -> (r: Point3)
        ensures
            r == self.point,
    {
        self.point
    }

    pub fn normal(&self) -> (r: Vec3)
        ensures
            r == self.normal,
    {
        self.normal
    }

    pub fn t(&self) -> (r: i64)
        ensures
            r == self.t,
    {
        self.t
    }

    pub fn material(&self) -> (r: Material)
        ensures
            r == self.material,
    {
        self.material
    }
}

/// A sphere with a strictly positive radius.
#[derive(Clone, Copy, Debug)]
pub struct Sphere {
    pub center: Point3,
    pub radius: i64,
    pub material: Material,
}

impl Sphere {
    pub open spec fn wf(self) -> bool {
        &&& self.center.in_scene_range()
        &&& 0 < self.radius <= 0x1000000000
        &&& self.material.wf()
    }

    /// A sphere with a nonpositive radius is invalid, so construction
    /// demands a positive one.
    pub fn new(center: Point3, radius: i64, material: Material) -> (r: Self)
        requires
            center.in_scene_range(),
            0 < radius <= 0x1000000000,
            material.wf(),
        ensures
            r.center == center,
            r.radius == radius,
            r.material == material,
            r.wf(),
    {
        Sphere { center, radius, material }
    }

    pub fn center(&self) -> (r: Point3)
        ensures
            r == self.center,
    {
        self.center
    }

    pub fn radius(&self) -> (r: i64)
        ensures
            r == self.radius,
    {
        self.radius
    }

    pub fn material(&self) -> (r: Material)
        ensures
            r == self.material,
    {
        self.material
    }

    /// Quadratic coefficient `a = D . D`.
    pub open spec fn a_spec(self, r: Ray) -> int {
        tdiv(r.dir.norm2(), 65536)
    }

    /// Origin-to-center offset, per component.
    pub open spec fn ocx(self, r: Ray) -> int {
        r.orig.x - self.center.x
    }

    pub open spec fn ocy(self, r: Ray) -> int {
        r.orig.y - self.center.y
    }

    pub open spec fn ocz(self, r: Ray) -> int {
        r.orig.z - self.center.z
    }

    /// Quadratic coefficient `b = 2 (O - C) . D`.
    pub open spec fn b_spec(self, r: Ray) -> int {
        2 * tdiv(self.ocx(r) * r.dir.x + self.ocy(r) * r.dir.y + self.ocz(r) * r.dir.z, 65536)
    }

    /// Quadratic coefficient `c = (O - C) . (O - C) - radius^2`.
    pub open spec fn c_spec(self, r: Ray) -> int {
        tdiv(
            self.ocx(r) * self.ocx(r) + self.ocy(r) * self.ocy(r) + self.ocz(r) * self.ocz(r),
            65536,
        ) - tdiv(self.radius * self.radius, 65536)
    }

    /// Discriminant `b^2 - 4 a c`.
    pub open spec fn disc_spec(self, r: Ray) -> int {
        tdiv(self.b_spec(r) * self.b_spec(r), 65536) - 4 * tdiv(
            self.a_spec(r) * self.c_spec(r), 65536)
    }

    /// Fixed-point square root of the discriminant.
    pub open spec fn sq_spec(self, r: Ray) -> int {
        isqrt_spec(self.disc_spec(r) * 65536)
    }

    /// The nearer quadratic root `(-b - sqrt(disc)) / (2a)`.
    pub open spec fn t1_spec(self, r: Ray) -> int {
        tdiv((-self.b_spec(r) - self.sq_spec(r)) * 65536, 2 * self.a_spec(r))
    }

    /// The farther quadratic root `(-b + sqrt(disc)) / (2a)`.
    pub open spec fn t2_spec(self, r: Ray) -> int {
        tdiv((-self.b_spec(r) + self.sq_spec(r)) * 65536, 2 * self.a_spec(r))
    }

    /// The accepted ray parameter: the smaller root.
    pub open spec fn t_hit_spec(self, r: Ray) -> int {
        if self.t1_spec(r) <= self.t2_spec(r) {
            self.t1_spec(r)
        } else {
            self.t2_spec(r)
        }
    }

    /// The hit point.
    pub open spec fn point_spec(self, r: Ray) -> (int, int, int) {
        r.at_spec(self.t_hit_spec(r))
    }

    /// Hit-point-to-center offset, per component.
    pub open spec fn pcx(self, r: Ray) -> int {
        self.point_spec(r).0 - self.center.x
    }

    pub open spec fn pcy(self, r: Ray) -> int {
        self.point_spec(r).1 - self.center.y
    }

    pub open spec fn pcz(self, r: Ray) -> int {
        self.point_spec(r).2 - self.center.z
    }

    /// Squared magnitude of the hit-point-to-center offset.
    pub open spec fn p2_spec(self, r: Ray) -> int {
        self.pcx(r) * self.pcx(r) + self.pcy(r) * self.pcy(r) + self.pcz(r) * self.pcz(r)
    }

    /// The outward unit normal, per component.
    pub open spec fn nx_spec(self, r: Ray) -> int {
        tdiv(self.pcx(r) * 65536, isqrt_spec(self.p2_spec(r)))
    }

    pub open spec fn ny_spec(self, r: Ray) -> int {
        tdiv(self.pcy(r) * 65536, isqrt_spec(self.p2_spec(r)))
    }

    pub open spec fn nz_spec(self, r: Ray) -> int {
        tdiv(self.pcz(r) * 65536, isqrt_spec(self.p2_spec(r)))
    }

    /// Dot product of the normal with the ray direction.
    pub open spec fn ndot_spec(self, r: Ray) -> int {
        tdiv(
            self.nx_spec(r) * r.dir.x + self.ny_spec(r) * r.dir.y + self.nz_spec(r) * r.dir.z,
            65536,
        )
    }

    /// The acceptance policy: a positive discriminant (exact tangency is a
    /// miss) and both roots beyond the self-intersection epsilon (1/1000 of
    /// a unit, i.e. 65 in fixed point), plus four guards that narrow the
    /// acceptance relative to that bare quadratic rule. Two are machine
    /// limits of the fixed-point domain: the hit must lie within the
    /// far-field cutoff (about a million units) and within the coordinate
    /// range a ray origin may occupy, so a hit far across the domain is
    /// reported as a miss. Two are deliberate deviations in the same
    /// spirit as the diffuse-bounce fallback: a hit whose point coincides
    /// with the center (a degenerate normal), or whose truncated normal
    /// fails to face the incoming ray, is rejected as a miss rather than
    /// stopping the render, so `hit` never panics.
    pub open spec fn hit_ok(self, r: Ray) -> bool {
        &&& self.disc_spec(r) > 0
        &&& self.t1_spec(r) > 65
        &&& self.t2_spec(r) > 65
        &&& self.t_hit_spec(r) <= 0x1000000000
        &&& -0x3000000000 <= self.point_spec(r).0 <= 0x3000000000
        &&& -0x3000000000 <= self.point_spec(r).1 <= 0x3000000000
        &&& -0x3000000000 <= self.point_spec(r).2 <= 0x3000000000
        &&& self.p2_spec(r) > 0
        &&& self.ndot_spec(r) < 0
    }

    /// The full intersection result as a mathematical value.
    pub open spec fn hit_spec(self, r: Ray) -> Option<HitRecord> {
        if self.hit_ok(r) {
            Some(HitRecord {
                point: Vec3 {
                    x: self.point_spec(r).0 as i64,
                    y: self.point_spec(r).1 as i64,
                    z: self.point_spec(r).2 as i64,
                },
                normal: Vec3 {
                    x: self.nx_spec(r) as i64,
                    y: self.ny_spec(r) as i64,
                    z: self.nz_spec(r) as i64,
                },
                t: self.t_hit_spec(r) as i64,
                material: self.material,
            })
        } else {
            None
        }
    }

    /// Solve the quadratic for the ray against this sphere and return the
    /// nearest acceptable hit.
    pub fn hit(&self, r: &Ray) -> (res: Option<HitRecord>)
        requires
            r.wf(),
            self.wf(),
        ensures
            res == self.hit_spec(*r),
            res matches Some(h) ==> h.wf(),
    {
        let dir = r.dir();
        let oc = r.orig().sub(self.center);
        let a = dir.dot(dir);
        proof {
            lemma_tdiv(r.dir.norm2(), 65536);
            lemma_mul_abs_le(r.dir.x as int, r.dir.x as int, 65536, 65536);
            lemma_mul_abs_le(r.dir.y as int, r.dir.y as int, 65536, 65536);
            lemma_mul_abs_le(r.dir.z as int, r.dir.z as int, 65536, 65536);
            assert(65530 <= a <= 196608);
        }
        let od = oc.dot(dir);
        proof {
            lemma_mul_abs_le(oc.x as int, dir.x as int, 0x4000000000, 65536);
            lemma_mul_abs_le(oc.y as int, dir.y as int, 0x4000000000, 65536);
            lemma_mul_abs_le(oc.z as int, dir.z as int, 0x4000000000, 65536);
            lemma_tdiv_abs_le(
                oc.x as int * dir.x as int + oc.y as int * dir.y as int
                    + oc.z as int * dir.z as int,
                65536,
                0xC000000000,
            );
        }
        let b = 2 * od;
        let rr = fp_mul(self.radius, self.radius);
        let cc = oc.dot(oc);
        let c = cc - rr;
        proof {
            lemma_mul_abs_le(b as int, b as int, 0x18000000000, 0x18000000000);
            lemma_mul_abs_le(a as int, c as int, 0x40000, 0x4000000000000000);
        }
        let bb = (b as i128) * (b as i128);
        let qbb = tdiv128(bb, 65536);
        let ac = (a as i128) * (c as i128);
        let qac = tdiv128(ac, 65536);
        let disc = qbb - 4 * qac;
        proof {
            assert(b == self.b_spec(*r));
            assert(c == self.c_spec(*r));
            assert(disc == self.disc_spec(*r));
        }
        if disc <= 0 {
            return None;
        }
        let ds = disc * 65536;
        let sq = isqrt128(ds as u128);
        proof {
            lemma_isqrt_in_range(ds as int, sq as int, 0, 0x100000000000 - 1);
        }
        let two_a = 2 * (a as i128);
        let t1 = tdiv128(((-b as i128) - (sq as i128)) * 65536, two_a);
        let t2 = tdiv128(((-b as i128) + (sq as i128)) * 65536, two_a);
        proof {
            assert(sq == self.sq_spec(*r));
            assert(t1 == self.t1_spec(*r));
            assert(t2 == self.t2_spec(*r));
        }
        if !(t1 > 65 && t2 > 65) {
            return None;
        }
        let t = if t1 <= t2 {
            t1
        } else {
            t2
        };
        if t > 0x1000000000 {
            return None;
        }
        let tt = t as i64;
        let point = r.at(tt);
        if point.x() < -0x3000000000 || point.x() > 0x3000000000 || point.y() < -0x3000000000
            || point.y() > 0x3000000000 || point.z() < -0x3000000000
            || point.z() > 0x3000000000 {
            return None;
        }
        let pc = point.sub(self.center);
        proof {
            assert(pc.x == self.pcx(*r));
            assert(pc.y == self.pcy(*r));
            assert(pc.z == self.pcz(*r));
        }
        if pc.x() == 0 && pc.y() == 0 && pc.z() == 0 {
            proof {
                assert(self.p2_spec(*r) == 0);
            }
            return None;
        }
        proof {
            assert(pc.norm2() > 0) by (nonlinear_arith)
                requires pc.x != 0 || pc.y != 0 || pc.z != 0;
        }
        let normal = pc.unit_vector();
        let nd = normal.dot(dir);
        proof {
            assert(pc.norm2() == self.p2_spec(*r));
            lemma_isqrt_exists(pc.norm2());
            assert(pc.len_spec() >= 1) by {
                if pc.len_spec() == 0 {
                    assert(pc.norm2() < (0 + 1) * (0 + 1));
                }
            }
            proof_unit_cast_ok(pc, pc.len_spec());
            assert(normal.x == self.nx_spec(*r));
            assert(normal.y == self.ny_spec(*r));
            assert(normal.z == self.nz_spec(*r));
            assert(nd == self.ndot_spec(*r));
        }
        if nd >= 0 {
            return None;
        }
        let hrec = HitRecord::new(point, normal, tt, self.material);
        proof {
            assert(self.hit_ok(*r));
        }
        Some(hrec)
    }
}

/// The closed set of geometric primitives.
#[derive(Clone, Copy, Debug)]
pub enum Hittable {
    Sphere(Sphere),
}

impl Hittable {
    pub open spec fn wf(self) -> bool {
        match self {
            Hittable::Sphere(s) => s.wf(),
        }
    }

    /// The intersection result of this primitive as a mathematical value.
    pub open spec fn hit_spec(self, r: Ray) -> Option<HitRecord> {
        match self {
            Hittable::Sphere(s) => s.hit_spec(r),
        }
    }

    /// Dispatch intersection to the concrete primitive.
    pub fn hit(&self, r: &Ray) -> (res: Option<HitRecord>)
        requires
            r.wf(),
            self.wf(),
        ensures
            res == self.hit_spec(*r),
            res matches Some(h) ==> h.wf(),
    {
        match self {
            Hittable::Sphere(s) => s.hit(r),
        }
    }
}

/// The nearest hit over a prefix-closed scan of the members, keeping the
/// earliest member on ties.
pub open spec fn list_hit_spec(items: Seq<Hittable>, r: Ray) -> Option<HitRecord>
    decreases items.len(),
{
    if items.len() == 0 {
        None
    } else {
        let prev = list_hit_spec(items.drop_last(), r);
        match items.last().hit_spec(r) {
            None => prev,
            Some(h) => match prev {
                None => Some(h),
                Some(p) => if h.t < p.t {
                    Some(h)
                } else {
                    Some(p)
                },
            },
        }
    }
}

/// The scene: an ordered collection of primitives, queried for the nearest
/// hit.
pub struct HittableList {
    pub list: Vec<Hittable>,
}

impl HittableList {
    pub open spec fn wf(self) -> bool {
        forall|i: int| 0 <= i < self.list@.len() ==> (#[trigger] self.list@[i]).wf()
    }

    pub fn new() -> (r: Self)
        ensures
            r.list@.len() == 0,
            r.wf(),
    {
        HittableList { list: Vec::new() }
    }

    /// Append a primitive during scene setup.
    pub fn push(&mut self, h: Hittable)
        requires
            h.wf(),
            old(self).wf(),
        ensures
            final(self).list@ == old(self).list@.push(h),
            final(self).wf(),
    {
        self.list.push(h);
    }

    /// Linear scan over all members; returns the record with the smallest
    /// ray parameter among the members that hit, or nothing if all miss.
    pub fn hit(&self, r: &Ray) -> (res: Option<HitRecord>)
        requires
            r.wf(),
            self.wf(),
        ensures
            res == list_hit_spec(self.list@, *r),
            res matches Some(h) ==> h.wf(),
    {
        let mut ret: Option<HitRecord> = None;
        let n = self.list.len();
        let mut i: usize = 0;
        proof {
            assert(self.list@.subrange(0, 0) =~= Seq::<Hittable>::empty());
        }
        while i < n
        invariant
            i <= n,
            n == self.list@.len(),
            r.wf(),
            self.wf(),
            ret == list_hit_spec(self.list@.subrange(0, i as int), *r),
            ret matches Some(h) ==> h.wf(),
        decreases n - i,
        {
            let hrec_op = self.list[i].hit(r);
            proof {
                let pre = self.list@.subrange(0, i as int);
                let cur = self.list@.subrange(0, i as int + 1);
                assert(cur.drop_last() =~= pre);
                assert(cur.last() == self.list@[i as int]);
            }
            match hrec_op {
                Some(hrec) => {
                    match ret {
                        Some(best) => {
                            if hrec.t() < best.t {
                                ret = Some(hrec);
                            }
                        },
                        None => {
                            ret = Some(hrec);
                        },
                    }
                },
                None => {},
            }
            i = i + 1;
        }
        proof {
            assert(self.list@.subrange(0, n as int) =~= self.list@);
        }
        ret
    }
}

/// Nearest-hit selection: whatever the scan returns is one of the members'
/// own hit results, and no member's hit is nearer; when it returns nothing,
/// every member missed.
pub proof fn lemma_list_hit_nearest(items: Seq<Hittable>, r: Ray)
    ensures
        list_hit_spec(items, r) is None ==> forall|i: int|
            0 <= i < items.len() ==> (#[trigger] items[i]).hit_spec(r) is None,
        list_hit_spec(items, r) matches Some(h) ==> {
            &&& exists|i: int| 0 <= i < items.len() && (#[trigger] items[i]).hit_spec(r)
                == Some(h)
            &&& forall|i: int| 0 <= i < items.len()
                && (#[trigger] items[i]).hit_spec(r) is Some
                    ==> h.t <= items[i].hit_spec(r).unwrap().t
        },
    decreases items.len(),
{
    if items.len() > 0 {
        lemma_list_hit_nearest(items.drop_last(), r);
        let pre = items.drop_last();
        assert(forall|i: int| 0 <= i < pre.len() ==> pre[i] == items[i]);
        if list_hit_spec(items, r) is Some {
            let h = choose|h: HitRecord| list_hit_spec(items, r) == Some(h);
            assert(list_hit_spec(items, r) == Some(h));
            match items.last().hit_spec(r) {
                None => {
                    assert(list_hit_spec(pre, r) == Some(h));
                    let j = choose|j: int| 0 <= j < pre.len() && (#[trigger] pre[j]).hit_spec(r)
                        == Some(h);
                    assert(items[j].hit_spec(r) == Some(h));
                },
                Some(hl) => {
                    match list_hit_spec(pre, r) {
                        None => {
                            assert(h == hl);
                            assert(items[items.len() - 1].hit_spec(r) == Some(h));
                        },
                        Some(p) => {
                            if hl.t < p.t {
                                assert(h == hl);
                                assert(items[items.len() - 1].hit_spec(r) == Some(h));
                            } else {
                                assert(h == p);
                                let j = choose|j: int| 0 <= j < pre.len()
                                    && (#[trigger] pre[j]).hit_spec(r) == Some(h);
                                assert(items[j].hit_spec(r) == Some(h));
                            }
                        },
                    }
                },
            }
        }
    }
}

} // verus!
