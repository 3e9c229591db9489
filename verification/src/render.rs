//! The path-tracing recurrence, the per-pixel sampling driver, and the
//! averaging and gamma post-passes.

use vstd::prelude::*;
use vstd::arithmetic::div_mod::lemma_fundamental_div_mod_converse;
use crate::fixed::{
    tdiv, tdiv64, fp_mul, lemma_tdiv, lemma_tdiv_abs_le, lemma_tdiv_multiple,
};
use crate::vec3::{Vec3, Color, Point3, clamp01, gamma_channel};
use crate::ray::Ray;
use crate::camera::Camera;
use crate::material::{Material, Lambertian};
use crate::shapes::{Hittable, HittableList, Sphere, list_hit_spec};
use crate::random::random_float;

verus! {

/// One output pixel: column from the left, row from the bottom, and the
/// accumulated linear (or gamma-corrected) color.
#[derive(Clone, Copy, Debug)]
pub struct Pixel {
    pub x: u32,
    pub y: u32,
    pub color: Color,
}

impl Pixel {
    pub fn new(x: u32, y: u32, color: Color) -> (r: Self)
        ensures
            r == (Pixel { x, y, color }),
    {
        Pixel { x, y, color }
    }

    pub fn x(&self) -> (r: u32)
        ensures
            r == self.x,
    {
        self.x
    }

    pub fn y(&self) -> (r: u32)
        ensures
            r == self.y,
    {
        self.y
    }

    pub fn color(&self) -> (r: Color)
        ensures
            r == self.color,
    {
        self.color
    }
}

/// Every channel in the fixed-point unit interval.
pub open spec fn color_in_unit(c: Color) -> bool {
    &&& 0 <= c.x <= 65536
    &&& 0 <= c.y <= 65536
    &&& 0 <= c.z <= 65536
}

/// The procedural sky: blend white into sky blue by the height of the ray
/// direction.
pub open spec fn sky_spec(r: Ray) -> Color {
    let u = r.dir.unit_spec();
    let t = tdiv(u.y + 65536, 2);
    lerp_spec(
        Vec3 { x: 65536i64, y: 65536i64, z: 65536i64 },
        Vec3 { x: 32768i64, y: 45875i64, z: 65536i64 },
        t,
    )
}

/// Mirror of `Vec3::lerp` as a mathematical value.
pub open spec fn lerp_spec(a: Vec3, b: Vec3, t: int) -> Vec3 {
    Vec3 {
        x: (tdiv(a.x * (65536 - clamp01(t)), 65536) + tdiv(b.x * clamp01(t), 65536)) as i64,
        y: (tdiv(a.y * (65536 - clamp01(t)), 65536) + tdiv(b.y * clamp01(t), 65536)) as i64,
        z: (tdiv(a.z * (65536 - clamp01(t)), 65536) + tdiv(b.z * clamp01(t), 65536)) as i64,
    }
}

/// Evaluate the sky gradient for a ray that missed everything.
fn sky_color(r: &Ray) -> (c: Color)
    requires
        r.wf(),
    ensures
        c == sky_spec(*r),
        color_in_unit(c),
{
    let unit_direction = r.dir().unit_vector();
    let t = tdiv64(unit_direction.y() + 65536, 2);
    let sky_blue = Vec3::new(32768, 45875, 65536);
    let white = Vec3::new(65536, 65536, 65536);
    let c = Color::lerp(white, sky_blue, t);
    proof {
        assert(0 <= t <= 65536);
    }
    c
}

/// Shade by surface normal: a hit shows the normal mapped into color space,
/// a miss shows the sky.
pub fn ray_color_normal(r: &Ray, world: &HittableList) -> (c: Color)
    requires
        r.wf(),
        world.wf(),
    ensures
        list_hit_spec(world.list@, *r) is None ==> c == sky_spec(*r),
        list_hit_spec(world.list@, *r) matches Some(h) ==> {
            &&& c.x == tdiv((h.normal.x + 65536) * 32768, 65536)
            &&& c.y == tdiv((h.normal.y + 65536) * 32768, 65536)
            &&& c.z == tdiv((h.normal.z + 65536) * 32768, 65536)
        },
        color_in_unit(c),
{
    match world.hit(r) {
        Some(rec) => {
            let white = Color::new(65536, 65536, 65536);
            let c = rec.normal().add(white).mul(32768);
            proof {
                lemma_tdiv((rec.normal.x + 65536) * 32768, 65536);
                lemma_tdiv((rec.normal.y + 65536) * 32768, 65536);
                lemma_tdiv((rec.normal.z + 65536) * 32768, 65536);
            }
            c
        },
        None => sky_color(r),
    }
}

/// The light-transport recurrence. Radiance is black once the bounce budget
/// is exhausted; the sky color when nothing is hit; and otherwise the
/// scattered radiance attenuated per channel by the hit material's albedo,
/// so every channel stays within that albedo.
pub fn ray_color_matte(r: &Ray, world: &HittableList, depth: u32) -> (c: Color)
    requires
        r.wf(),
        world.wf(),
    ensures
        depth == 0 ==> c == (Vec3 { x: 0i64, y: 0i64, z: 0i64 }),
        depth > 0 && list_hit_spec(world.list@, *r) is None ==> c == sky_spec(*r),
        depth > 0 ==> (list_hit_spec(world.list@, *r) matches Some(h) ==> {
            &&& c.x <= h.material.albedo_spec().x
            &&& c.y <= h.material.albedo_spec().y
            &&& c.z <= h.material.albedo_spec().z
        }),
        color_in_unit(c),
    decreases depth,
{
    if depth == 0 {
        return Color::new(0, 0, 0);
    }

    match world.hit(r) {
        Some(rec) => {
            match rec.material().scatter(r, &rec) {
                Some((scattered, attenuation)) => {
                    let sub = ray_color_matte(&scattered, world, depth - 1);
                    let cx = fp_mul(attenuation.x(), sub.x());
                    let cy = fp_mul(attenuation.y(), sub.y());
                    let cz = fp_mul(attenuation.z(), sub.z());
                    proof {
                        lemma_attenuate(attenuation.x as int, sub.x as int);
                        lemma_attenuate(attenuation.y as int, sub.y as int);
                        lemma_attenuate(attenuation.z as int, sub.z as int);
                    }
                    Color::new(cx, cy, cz)
                },
                None => Color::new(0, 0, 0),
            }
        },
        None => sky_color(r),
    }
}

/// Multiplying a channel by an attenuation in the unit interval keeps it in
/// the unit interval and below the attenuation.
proof fn lemma_attenuate(a: int, s: int)
    requires
        0 <= a <= 65536,
        0 <= s <= 65536,
    ensures
        0 <= tdiv(a * s, 65536) <= a,
{
    lemma_tdiv(a * s, 65536);
    assert(0 <= a * s <= a * 65536) by (nonlinear_arith)
        requires 0 <= a && 0 <= s <= 65536;
}

/// Channel-wise sums of a sequence of colors.
pub open spec fn sum_x(s: Seq<Color>) -> int
    decreases s.len(),
{
    if s.len() == 0 {
        0
    } else {
        sum_x(s.drop_last()) + s.last().x
    }
}

pub open spec fn sum_y(s: Seq<Color>) -> int
    decreases s.len(),
{
    if s.len() == 0 {
        0
    } else {
        sum_y(s.drop_last()) + s.last().y
    }
}

pub open spec fn sum_z(s: Seq<Color>) -> int
    decreases s.len(),
{
    if s.len() == 0 {
        0
    } else {
        sum_z(s.drop_last()) + s.last().z
    }
}

/// The arithmetic mean of the samples: channel-wise sum divided by the
/// number of samples.
pub fn average_color(samples: &Vec<Color>) -> (c: Color)
    requires
        1 <= samples@.len() <= 1048576,
        forall|i: int| 0 <= i < samples@.len() ==> color_in_unit(#[trigger] samples@[i]),
    ensures
        c.x == tdiv(sum_x(samples@), samples@.len() as int),
        c.y == tdiv(sum_y(samples@), samples@.len() as int),
        c.z == tdiv(sum_z(samples@), samples@.len() as int),
        color_in_unit(c),
{
    let n = samples.len();
    let mut ax: i64 = 0;
    let mut ay: i64 = 0;
    let mut az: i64 = 0;
    let mut i: usize = 0;
    proof {
        assert(samples@.subrange(0, 0) =~= Seq::<Color>::empty());
    }
    while i < n
        invariant
            i <= n == samples@.len() <= 1048576,
            forall|j: int| 0 <= j < samples@.len() ==> color_in_unit(#[trigger] samples@[j]),
            ax == sum_x(samples@.subrange(0, i as int)),
            ay == sum_y(samples@.subrange(0, i as int)),
            az == sum_z(samples@.subrange(0, i as int)),
            0 <= ax <= 65536 * i,
            0 <= ay <= 65536 * i,
            0 <= az <= 65536 * i,
        decreases n - i,
    {
        proof {
            let pre = samples@.subrange(0, i as int);
            let cur = samples@.subrange(0, i as int + 1);
            assert(cur.drop_last() =~= pre);
            assert(cur.last() == samples@[i as int]);
        }
        let s = samples[i];
        ax = ax + s.x();
        ay = ay + s.y();
        az = az + s.z();
        i = i + 1;
    }
    proof {
        assert(samples@.subrange(0, n as int) =~= samples@);
        lemma_tdiv(ax as int, n as int);
        lemma_tdiv(ay as int, n as int);
        lemma_tdiv(az as int, n as int);
        lemma_tdiv_abs_le(ax as int, n as int, 65536);
        lemma_tdiv_abs_le(ay as int, n as int, 65536);
        lemma_tdiv_abs_le(az as int, n as int, 65536);
    }
    let cx = tdiv64(ax, n as i64);
    let cy = tdiv64(ay, n as i64);
    let cz = tdiv64(az, n as i64);
    Color::new(cx, cy, cz)
}

/// Sampling convergence: averaging any number of identical samples returns
/// exactly that sample, so with all randomness removed the multi-sample
/// estimator equals a single trace, whatever the sample count.
pub proof fn lemma_average_of_equal(s: Seq<Color>, c: Color)
    requires
        s.len() >= 1,
        forall|i: int| 0 <= i < s.len() ==> s[i] == c,
    ensures
        tdiv(sum_x(s), s.len() as int) == c.x,
        tdiv(sum_y(s), s.len() as int) == c.y,
        tdiv(sum_z(s), s.len() as int) == c.z,
{
    lemma_sum_of_equal(s, c);
    lemma_tdiv_multiple(c.x as int, s.len() as int);
    lemma_tdiv_multiple(c.y as int, s.len() as int);
    lemma_tdiv_multiple(c.z as int, s.len() as int);
}

/// The channel-wise sum of `n` copies of a color is `n` times the color.
proof fn lemma_sum_of_equal(s: Seq<Color>, c: Color)
    requires
        forall|i: int| 0 <= i < s.len() ==> s[i] == c,
    ensures
        sum_x(s) == c.x * s.len(),
        sum_y(s) == c.y * s.len(),
        sum_z(s) == c.z * s.len(),
    decreases s.len(),
{
    if s.len() == 0 {
    } else {
        lemma_sum_of_equal(s.drop_last(), c);
        assert(c.x * (s.len() - 1) + c.x == c.x * s.len()) by (nonlinear_arith);
        assert(c.y * (s.len() - 1) + c.y == c.y * s.len()) by (nonlinear_arith);
        assert(c.z * (s.len() - 1) + c.z == c.z * s.len()) by (nonlinear_arith);
    }
}

/// What one traced sample guarantees for image coordinate `(x, y)` with
/// jitter `(ju, jv)`: through the ray the camera makes for the jittered
/// coordinates, the color is black at depth zero, exactly the sky on a
/// miss, and within the hit material's albedo on a hit.
pub open spec fn sample_ok_with(
    cam: Camera,
    items: Seq<Hittable>,
    width: int,
    height: int,
    depth: u32,
    x: int,
    y: int,
    ju: int,
    jv: int,
    c: Color,
) -> bool {
    let u = tdiv(x * 65536 + ju, width - 1);
    let v = tdiv(y * 65536 + jv, height - 1);
    let rr = Ray { orig: cam.orig, dir: cam.dir_spec(u, v).unit_spec() };
    &&& depth == 0 ==> c == (Vec3 { x: 0i64, y: 0i64, z: 0i64 })
    &&& depth > 0 && list_hit_spec(items, rr) is None ==> c == sky_spec(rr)
    &&& depth > 0 ==> (list_hit_spec(items, rr) matches Some(h) ==> {
        &&& c.x <= h.material.albedo_spec().x
        &&& c.y <= h.material.albedo_spec().y
        &&& c.z <= h.material.albedo_spec().z
    })
}

/// A single-sample pixel carries exactly the color of its own unjittered
/// primary ray.
pub open spec fn single_pixel_ok(
    cam: Camera,
    items: Seq<Hittable>,
    width: int,
    height: int,
    depth: u32,
    p: Pixel,
) -> bool {
    sample_ok_with(cam, items, width, height, depth, p.x as int, p.y as int, 0, 0, p.color)
}

/// A traced sample for image coordinate `(x, y)`, under some jitter draw
/// within one pixel.
pub open spec fn sample_ok(
    cam: Camera,
    items: Seq<Hittable>,
    width: int,
    height: int,
    depth: u32,
    x: int,
    y: int,
    c: Color,
) -> bool {
    exists|ju: int, jv: int|
        #![trigger sample_ok_with(cam, items, width, height, depth, x, y, ju, jv, c)]
    {
        &&& 0 <= ju < 65536
        &&& 0 <= jv < 65536
        &&& sample_ok_with(cam, items, width, height, depth, x, y, ju, jv, c)
    }
}

/// A multi-sampled pixel is the channel-wise truncated mean of `samples`
/// traced jittered samples for its own coordinates: the Monte Carlo
/// estimator of the pixel's incoming radiance.
pub open spec fn multi_pixel_ok(
    cam: Camera,
    items: Seq<Hittable>,
    width: int,
    height: int,
    samples: u32,
    depth: u32,
    p: Pixel,
) -> bool {
    exists|sv: Seq<Color>| #![trigger sum_x(sv)] {
        &&& sv.len() == samples
        &&& (forall|q: int| 0 <= q < sv.len() ==> sample_ok(
            cam, items, width, height, depth, p.x as int, p.y as int, #[trigger] sv[q]))
        &&& p.color.x == tdiv(sum_x(sv), samples as int)
        &&& p.color.y == tdiv(sum_y(sv), samples as int)
        &&& p.color.z == tdiv(sum_z(sv), samples as int)
    }
}

/// Raster coverage: pixel `k` of a `width`-wide image scanned from the top
/// row downward.
pub open spec fn raster_ok(pix: Seq<Pixel>, width: int, height: int) -> bool {
    &&& pix.len() == width * height
    &&& forall|k: int| 0 <= k < pix.len() ==> {
        &&& (#[trigger] pix[k]).x == k % width
        &&& pix[k].y == height - 1 - k / width
        &&& color_in_unit(pix[k].color)
    }
}

/// Render one primary ray per pixel, rows from the top down, columns left
/// to right.
pub fn render_single(cam: &Camera, world: &HittableList, width: u32, height: u32, depth: u32)
    -> (pix: Vec<Pixel>)
    requires
        cam.wf(),
        world.wf(),
        2 <= width <= 4096,
        2 <= height <= 4096,
    ensures
        raster_ok(pix@, width as int, height as int),
        forall|k: int| 0 <= k < pix@.len() ==> single_pixel_ok(
            *cam, world.list@, width as int, height as int, depth, #[trigger] pix@[k]),
{
    let mut pix: Vec<Pixel> = Vec::new();
    let mut jj: u32 = 0;
    while jj < height
        invariant
            cam.wf(),
            world.wf(),
            2 <= width <= 4096,
            2 <= height <= 4096,
            jj <= height,
            pix@.len() == jj * width,
            forall|k: int| 0 <= k < pix@.len() ==> {
                &&& (#[trigger] pix@[k]).x == k % (width as int)
                &&& pix@[k].y == height - 1 - k / (width as int)
                &&& color_in_unit(pix@[k].color)
            },
            forall|k: int| 0 <= k < pix@.len() ==> single_pixel_ok(
                *cam, world.list@, width as int, height as int, depth, #[trigger] pix@[k]),
        decreases height - jj,
    {
        let j = height - 1 - jj;
        let mut i: u32 = 0;
        while i < width
            invariant
                cam.wf(),
                world.wf(),
                2 <= width <= 4096,
                2 <= height <= 4096,
                jj < height,
                j == height - 1 - jj,
                i <= width,
                pix@.len() == jj * width + i,
                forall|k: int| 0 <= k < pix@.len() ==> {
                    &&& (#[trigger] pix@[k]).x == k % (width as int)
                    &&& pix@[k].y == height - 1 - k / (width as int)
                    &&& color_in_unit(pix@[k].color)
                },
                forall|k: int| 0 <= k < pix@.len() ==> single_pixel_ok(
                    *cam, world.list@, width as int, height as int, depth, #[trigger] pix@[k]),
            decreases width - i,
        {
            let u = tdiv64((i as i64) * 65536, (width - 1) as i64);
            let v = tdiv64((j as i64) * 65536, (height - 1) as i64);
            proof {
                lemma_uv_in_range(i as int, width as int, u as int);
                lemma_uv_in_range(j as int, height as int, v as int);
            }
            let r = cam.get_ray(u, v);
            let color = ray_color_matte(&r, world, depth);
            proof {
                lemma_fundamental_div_mod_converse(
                    jj as int * width as int + i as int, width as int, jj as int, i as int);
                assert(u as int == tdiv(i as int * 65536 + 0, width as int - 1));
                assert(v as int == tdiv(j as int * 65536 + 0, height as int - 1));
                assert(r == (Ray {
                    orig: cam.orig,
                    dir: cam.dir_spec(u as int, v as int).unit_spec(),
                }));
                assert(single_pixel_ok(
                    *cam, world.list@, width as int, height as int, depth,
                    Pixel { x: i, y: j, color },
                ));
            }
            pix.push(Pixel::new(i, j, color));
            i = i + 1;
        }
        proof {
            assert((jj as int + 1) * (width as int) == jj as int * (width as int) + width)
                by (nonlinear_arith);
        }
        jj = jj + 1;
    }
    proof {
        assert(height as int * (width as int) == width as int * (height as int))
            by (nonlinear_arith);
    }
    pix
}

/// An image coordinate scaled into `[0, 1]`, with up to one pixel of
/// jitter, stays within the camera's accepted range.
proof fn lemma_uv_in_range(i: int, w: int, u: int)
    requires
        2 <= w <= 4096,
        0 <= i <= w - 1,
        u == tdiv(i * 65536 + 65535, w - 1) || u == tdiv(i * 65536, w - 1),
    ensures
        0 <= u <= 131071,
{
    if u == tdiv(i * 65536 + 65535, w - 1) {
        assert(0 <= i * 65536 + 65535 <= (w - 1) * 65536 + 65535) by (nonlinear_arith)
            requires 0 <= i <= w - 1;
        assert((w - 1) * 65536 + 65535 <= 131071 * (w - 1)) by (nonlinear_arith)
            requires w >= 2;
        lemma_tdiv_abs_le(i * 65536 + 65535, w - 1, 131071);
        lemma_tdiv(i * 65536 + 65535, w - 1);
    } else {
        assert(0 <= i * 65536 <= (w - 1) * 65536) by (nonlinear_arith)
            requires 0 <= i <= w - 1;
        assert((w - 1) * 65536 <= 131071 * (w - 1)) by (nonlinear_arith)
            requires w >= 2;
        lemma_tdiv_abs_le(i * 65536, w - 1, 131071);
        lemma_tdiv(i * 65536, w - 1);
    }
}

/// Render `samples` jittered rays per pixel and store the arithmetic mean,
/// rows from the top down, columns left to right.
pub fn render_multisample(
    cam: &Camera,
    world: &HittableList,
    width: u32,
    height: u32,
    samples: u32,
    depth: u32,
) -> (pix: Vec<Pixel>)
    requires
        cam.wf(),
        world.wf(),
        2 <= width <= 4096,
        2 <= height <= 4096,
        1 <= samples <= 1048576,
    ensures
        raster_ok(pix@, width as int, height as int),
        forall|k: int| 0 <= k < pix@.len() ==> multi_pixel_ok(
            *cam, world.list@, width as int, height as int, samples, depth,
            #[trigger] pix@[k]),
{
    let mut pix: Vec<Pixel> = Vec::new();
    let mut jj: u32 = 0;
    while jj < height
        invariant
            cam.wf(),
            world.wf(),
            2 <= width <= 4096,
            2 <= height <= 4096,
            1 <= samples <= 1048576,
            jj <= height,
            pix@.len() == jj * width,
            forall|k: int| 0 <= k < pix@.len() ==> {
                &&& (#[trigger] pix@[k]).x == k % (width as int)
                &&& pix@[k].y == height - 1 - k / (width as int)
                &&& color_in_unit(pix@[k].color)
            },
            forall|k: int| 0 <= k < pix@.len() ==> multi_pixel_ok(
                *cam, world.list@, width as int, height as int, samples, depth,
                #[trigger] pix@[k]),
        decreases height - jj,
    {
        let j = height - 1 - jj;
        let mut i: u32 = 0;
        while i < width
            invariant
                cam.wf(),
                world.wf(),
                2 <= width <= 4096,
                2 <= height <= 4096,
                1 <= samples <= 1048576,
                jj < height,
                j == height - 1 - jj,
                i <= width,
                pix@.len() == jj * width + i,
                forall|k: int| 0 <= k < pix@.len() ==> {
                    &&& (#[trigger] pix@[k]).x == k % (width as int)
                    &&& pix@[k].y == height - 1 - k / (width as int)
                    &&& color_in_unit(pix@[k].color)
                },
                forall|k: int| 0 <= k < pix@.len() ==> multi_pixel_ok(
                    *cam, world.list@, width as int, height as int, samples, depth,
                    #[trigger] pix@[k]),
            decreases width - i,
        {
            let mut sv: Vec<Color> = Vec::new();
            let mut s: u32 = 0;
            while s < samples
                invariant
                    cam.wf(),
                    world.wf(),
                    2 <= width <= 4096,
                    2 <= height <= 4096,
                    1 <= samples <= 1048576,
                    i < width,
                    j < height,
                    s <= samples,
                    sv@.len() == s,
                    forall|q: int| 0 <= q < sv@.len() ==> color_in_unit(#[trigger] sv@[q]),
                    forall|q: int| 0 <= q < sv@.len() ==> sample_ok(
                        *cam, world.list@, width as int, height as int, depth,
                        i as int, j as int, #[trigger] sv@[q]),
                decreases samples - s,
            {
                let ju = random_float();
                let jv = random_float();
                let u = tdiv64((i as i64) * 65536 + ju, (width - 1) as i64);
                let v = tdiv64((j as i64) * 65536 + jv, (height - 1) as i64);
                proof {
                    lemma_uv_jitter_in_range(i as int, width as int, ju as int, u as int);
                    lemma_uv_jitter_in_range(j as int, height as int, jv as int, v as int);
                }
                let r = cam.get_ray(u, v);
                let color = ray_color_matte(&r, world, depth);
                proof {
                    assert(u as int == tdiv(i as int * 65536 + ju as int, width as int - 1));
                    assert(v as int == tdiv(j as int * 65536 + jv as int, height as int - 1));
                    assert(r == (Ray {
                        orig: cam.orig,
                        dir: cam.dir_spec(u as int, v as int).unit_spec(),
                    }));
                    assert(sample_ok_with(
                        *cam, world.list@, width as int, height as int, depth,
                        i as int, j as int, ju as int, jv as int, color,
                    ));
                    assert(sample_ok(
                        *cam, world.list@, width as int, height as int, depth,
                        i as int, j as int, color,
                    ));
                }
                sv.push(color);
                s = s + 1;
            }
            let avg = average_color(&sv);
            proof {
                lemma_fundamental_div_mod_converse(
                    jj as int * width as int + i as int, width as int, jj as int, i as int);
                let p = Pixel { x: i, y: j, color: avg };
                assert(sv@.len() == samples);
                assert(avg.x == tdiv(sum_x(sv@), samples as int));
                assert(avg.y == tdiv(sum_y(sv@), samples as int));
                assert(avg.z == tdiv(sum_z(sv@), samples as int));
                assert(forall|q: int| 0 <= q < sv@.len() ==> sample_ok(
                    *cam, world.list@, width as int, height as int, depth,
                    p.x as int, p.y as int, #[trigger] sv@[q]));
                assert(multi_pixel_ok(
                    *cam, world.list@, width as int, height as int, samples, depth, p));
            }
            pix.push(Pixel::new(i, j, avg));
            i = i + 1;
        }
        proof {
            assert((jj as int + 1) * (width as int) == jj as int * (width as int) + width)
                by (nonlinear_arith);
        }
        jj = jj + 1;
    }
    proof {
        assert(height as int * (width as int) == width as int * (height as int))
            by (nonlinear_arith);
    }
    pix
}

/// A jittered image coordinate stays within the camera's accepted range.
proof fn lemma_uv_jitter_in_range(i: int, w: int, jit: int, u: int)
    requires
        2 <= w <= 4096,
        0 <= i <= w - 1,
        0 <= jit <= 65535,
        u == tdiv(i * 65536 + jit, w - 1),
    ensures
        0 <= u <= 131071,
{
    assert(0 <= i * 65536 + jit <= (w - 1) * 65536 + 65535) by (nonlinear_arith)
        requires 0 <= i <= w - 1 && 0 <= jit <= 65535;
    assert((w - 1) * 65536 + 65535 <= 131071 * (w - 1)) by (nonlinear_arith)
        requires w >= 2;
    lemma_tdiv_abs_le(i * 65536 + jit, w - 1, 131071);
    lemma_tdiv(i * 65536 + jit, w - 1);
}

/// Gamma-correct every pixel of a rendered raster, in place of the linear
/// color.
pub fn gamma_pass(pixels: &Vec<Pixel>, gamma: u32) -> (out: Vec<Pixel>)
    requires
        1 <= gamma <= 7,
        forall|k: int| 0 <= k < pixels@.len() ==> color_in_unit((#[trigger] pixels@[k]).color),
    ensures
        out@.len() == pixels@.len(),
        forall|k: int| 0 <= k < pixels@.len() ==> {
            &&& (#[trigger] out@[k]).x == pixels@[k].x
            &&& out@[k].y == pixels@[k].y
            &&& out@[k].color.x == gamma_channel(pixels@[k].color.x as int, gamma as nat)
            &&& out@[k].color.y == gamma_channel(pixels@[k].color.y as int, gamma as nat)
            &&& out@[k].color.z == gamma_channel(pixels@[k].color.z as int, gamma as nat)
            &&& color_in_unit(out@[k].color)
        },
{
    let mut out: Vec<Pixel> = Vec::new();
    let n = pixels.len();
    let mut k: usize = 0;
    while k < n
        invariant
            1 <= gamma <= 7,
            n == pixels@.len(),
            k <= n,
            forall|q: int| 0 <= q < pixels@.len()
                ==> color_in_unit((#[trigger] pixels@[q]).color),
            out@.len() == k,
            forall|q: int| 0 <= q < k ==> {
                &&& (#[trigger] out@[q]).x == pixels@[q].x
                &&& out@[q].y == pixels@[q].y
                &&& out@[q].color.x == gamma_channel(pixels@[q].color.x as int, gamma as nat)
                &&& out@[q].color.y == gamma_channel(pixels@[q].color.y as int, gamma as nat)
                &&& out@[q].color.z == gamma_channel(pixels@[q].color.z as int, gamma as nat)
                &&& color_in_unit(out@[q].color)
            },
        decreases n - k,
    {
        let p = pixels[k];
        let corrected = p.color().gamma_correct(gamma);
        out.push(Pixel::new(p.x(), p.y(), corrected));
        k = k + 1;
    }
    out
}

/// Build the demo scene: a small matte sphere resting on a large
/// matte ground sphere.
/// The demo scene, as a value: the two matte spheres with their centers,
/// radii and albedos.
pub open spec fn scene_spec() -> Seq<Hittable> {
    seq![
        Hittable::Sphere(Sphere {
            center: Vec3 { x: 0i64, y: 0i64, z: -65536i64 },
            radius: 32768i64,
            material: Material::Lambertian(Lambertian {
                albedo: Vec3 { x: 45875i64, y: 45875i64, z: 19660i64 },
            }),
        }),
        Hittable::Sphere(Sphere {
            center: Vec3 { x: 0i64, y: -6586368i64, z: -65536i64 },
            radius: 6553600i64,
            material: Material::Lambertian(Lambertian {
                albedo: Vec3 { x: 52428i64, y: 52428i64, z: 0i64 },
            }),
        }),
    ]
}

pub fn build_scene() -> (world: HittableList)
    ensures
        world.wf(),
        world.list@ == scene_spec(),
{
    let m1 = Material::Lambertian(Lambertian::new(Color::new(45875, 45875, 19660)));
    let m2 = Material::Lambertian(Lambertian::new(Color::new(52428, 52428, 0)));

    let s1 = Sphere::new(Point3::new(0, 0, -65536), 32768, m1);
    let s2 = Sphere::new(Point3::new(0, -6586368, -65536), 6553600, m2);

    let mut world = HittableList::new();
    world.push(Hittable::Sphere(s1));
    world.push(Hittable::Sphere(s2));
    proof {
        assert(world.list@ =~= scene_spec());
    }
    world
}

/// Render the demo scene three ways: one primary ray per pixel, the
/// multi-sampled mean, and the multi-sampled mean after gamma correction.
pub fn draw() -> (out: (Vec<Pixel>, Vec<Pixel>, Vec<Pixel>))
    ensures
        raster_ok(out.0@, 400, 225),
        forall|k: int| 0 <= k < out.0@.len() ==> single_pixel_ok(
            Camera::default_spec(), scene_spec(), 400, 225, 50, #[trigger] out.0@[k]),
        raster_ok(out.1@, 400, 225),
        forall|k: int| 0 <= k < out.1@.len() ==> multi_pixel_ok(
            Camera::default_spec(), scene_spec(), 400, 225, 100, 50, #[trigger] out.1@[k]),
        out.2@.len() == out.1@.len(),
        forall|k: int| 0 <= k < out.1@.len() ==> {
            &&& (#[trigger] out.2@[k]).x == out.1@[k].x
            &&& out.2@[k].y == out.1@[k].y
            &&& out.2@[k].color.x == gamma_channel(out.1@[k].color.x as int, 2)
            &&& out.2@[k].color.y == gamma_channel(out.1@[k].color.y as int, 2)
            &&& out.2@[k].color.z == gamma_channel(out.1@[k].color.z as int, 2)
        },
{
    let world = build_scene();
    let cam = Camera::default();
    proof {
        assert(cam == Camera::default_spec());
    }

    let pix_vec = render_single(&cam, &world, 400, 225, 50);
    let pix_vec_multisample = render_multisample(&cam, &world, 400, 225, 100, 50);
    let pix_vec_multisample_gamma = gamma_pass(&pix_vec_multisample, 2);

    (pix_vec, pix_vec_multisample, pix_vec_multisample_gamma)
}

} // verus!
