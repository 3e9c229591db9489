use ray_tracer::camera::Camera;
use ray_tracer::material::{Lambertian, Material};
use ray_tracer::ray::Ray;
use ray_tracer::render::{
    average_color, gamma_pass, ray_color_matte, ray_color_normal, render_multisample,
    render_single, Pixel,
};
use ray_tracer::shapes::{Hittable, HittableList, Sphere};
use ray_tracer::vec3::Vec3;

const ONE: i64 = 65536;

fn one_sphere_world() -> HittableList {
    let m = Material::Lambertian(Lambertian::new(Vec3::new(45875, 45875, 19660)));
    let s = Sphere::new(Vec3::new(0, 0, -ONE), ONE / 2, m);
    let mut world = HittableList::new();
    world.push(Hittable::Sphere(s));
    world
}

#[test]
fn depth_zero_is_black() {
    // depth termination: no bounce budget means exactly black
    let world = one_sphere_world();
    let ray = Ray::new(Vec3::new(0, 0, 0), Vec3::new(0, 0, -ONE));
    let c = ray_color_matte(&ray, &world, 0);
    assert_eq!((c.x(), c.y(), c.z()), (0, 0, 0));
    let empty = HittableList::new();
    let up = Ray::new(Vec3::new(0, 0, 0), Vec3::new(0, ONE, 0));
    let c2 = ray_color_matte(&up, &empty, 0);
    assert_eq!((c2.x(), c2.y(), c2.z()), (0, 0, 0));
}

#[test]
fn sky_gradient_boundaries() {
    // straight up is pure sky blue, straight down pure white
    let empty = HittableList::new();
    let up = Ray::new(Vec3::new(0, 0, 0), Vec3::new(0, ONE, 0));
    let c = ray_color_matte(&up, &empty, 5);
    assert_eq!((c.x(), c.y(), c.z()), (32768, 45875, ONE));
    let down = Ray::new(Vec3::new(0, 0, 0), Vec3::new(0, -ONE, 0));
    let w = ray_color_matte(&down, &empty, 5);
    assert_eq!((w.x(), w.y(), w.z()), (ONE, ONE, ONE));
}

#[test]
fn normal_shading_exact() {
    let world = one_sphere_world();
    let ray = Ray::new(Vec3::new(0, 0, 0), Vec3::new(0, 0, -ONE));
    let c = ray_color_normal(&ray, &world);
    // normal (0, 0, 1) maps to ((0+1)/2, (0+1)/2, (1+1)/2)
    assert_eq!((c.x(), c.y(), c.z()), (32768, 32768, ONE));
    let empty = HittableList::new();
    let up = Ray::new(Vec3::new(0, 0, 0), Vec3::new(0, ONE, 0));
    let s = ray_color_normal(&up, &empty);
    assert_eq!((s.x(), s.y(), s.z()), (32768, 45875, ONE));
}

#[test]
fn matte_bounce_attenuates() {
    // one bounce against the sphere: every channel stays within the albedo
    let world = one_sphere_world();
    let ray = Ray::new(Vec3::new(0, 0, 0), Vec3::new(0, 0, -ONE));
    let c = ray_color_matte(&ray, &world, 8);
    assert!(c.x() <= 45875 && c.y() <= 45875 && c.z() <= 19660);
    assert!(c.x() >= 0 && c.y() >= 0 && c.z() >= 0);
}

#[test]
fn averaging_identical_samples_is_identity() {
    // sampling convergence: the mean of n equal samples is that sample,
    // for any n
    let c = Vec3::new(123, 45678, ONE);
    for n in [1usize, 2, 3, 7, 100] {
        let samples = vec![c; n];
        let avg = average_color(&samples);
        assert_eq!((avg.x(), avg.y(), avg.z()), (123, 45678, ONE), "n = {}", n);
    }
}

#[test]
fn averaging_mixed_samples() {
    let samples = vec![Vec3::new(0, 0, 0), Vec3::new(ONE, 32768, 2)];
    let avg = average_color(&samples);
    assert_eq!((avg.x(), avg.y(), avg.z()), (32768, 16384, 1));
}

#[test]
fn render_single_covers_every_pixel() {
    let world = one_sphere_world();
    let cam = Camera::default();
    let pix = render_single(&cam, &world, 3, 2, 2);
    assert_eq!(pix.len(), 6);
    let expect = [(0u32, 1u32), (1, 1), (2, 1), (0, 0), (1, 0), (2, 0)];
    for (k, p) in pix.iter().enumerate() {
        assert_eq!((p.x(), p.y()), expect[k]);
        let c = p.color();
        assert!(0 <= c.x() && c.x() <= ONE);
        assert!(0 <= c.y() && c.y() <= ONE);
        assert!(0 <= c.z() && c.z() <= ONE);
    }
}

#[test]
fn render_multisample_covers_every_pixel() {
    let world = one_sphere_world();
    let cam = Camera::default();
    let pix = render_multisample(&cam, &world, 2, 2, 3, 2);
    assert_eq!(pix.len(), 4);
    let expect = [(0u32, 1u32), (1, 1), (0, 0), (1, 0)];
    for (k, p) in pix.iter().enumerate() {
        assert_eq!((p.x(), p.y()), expect[k]);
    }
}

#[test]
fn gamma_pass_keeps_coordinates() {
    let pixels = vec![
        Pixel::new(0, 1, Vec3::new(16384, ONE, 0)),
        Pixel::new(1, 0, Vec3::new(0, 0, ONE)),
    ];
    let out = gamma_pass(&pixels, 2);
    assert_eq!(out.len(), 2);
    assert_eq!((out[0].x(), out[0].y()), (0, 1));
    let c = out[0].color();
    assert_eq!((c.x(), c.y(), c.z()), (32768, ONE, 0));
    assert_eq!((out[1].x(), out[1].y()), (1, 0));
}

#[test]
fn default_camera_geometry() {
    let cam = Camera::default();
    assert_eq!((cam.orig.x(), cam.orig.y(), cam.orig.z()), (0, 0, 0));
    assert_eq!(cam.horizontal.x(), 233016);
    assert_eq!(cam.vertical.y(), 2 * ONE);
    let llc = cam.lower_left_corner;
    assert_eq!((llc.x(), llc.y(), llc.z()), (-116508, -ONE, -ONE));
}

#[test]
fn camera_ray_points_into_scene() {
    let cam = Camera::default();
    let r = cam.get_ray(32768, 32768);
    // the center-ish ray keeps the camera origin and looks toward -z
    let o = r.orig();
    assert_eq!((o.x(), o.y(), o.z()), (0, 0, 0));
    assert!(r.dir().z() < 0);
    let l = r.dir().length();
    assert!(ONE - 4 <= l && l <= ONE + 7);
}
