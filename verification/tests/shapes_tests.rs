use ray_tracer::material::{Lambertian, Material};
use ray_tracer::ray::Ray;
use ray_tracer::shapes::{Hittable, HittableList, Sphere};
use ray_tracer::vec3::Vec3;

const ONE: i64 = 65536;

fn matte() -> Material {
    Material::Lambertian(Lambertian::new(Vec3::new(32768, 32768, 32768)))
}

#[test]
fn sphere_hit_straight_ahead() {
    // ray from the origin toward -z against a unit-radius-half sphere one
    // unit away: t = 0.5, outward normal +z
    let ray = Ray::new(Vec3::new(0, 0, 0), Vec3::new(0, 0, -ONE));
    let sphere = Sphere::new(Vec3::new(0, 0, -ONE), ONE / 2, matte());
    let hit = sphere.hit(&ray).expect("must hit");
    assert_eq!(hit.t(), 32768);
    let n = hit.normal();
    assert_eq!((n.x(), n.y(), n.z()), (0, 0, ONE));
    let p = hit.point();
    assert_eq!((p.x(), p.y(), p.z()), (0, 0, -32768));
}

#[test]
fn sphere_miss() {
    let ray = Ray::new(Vec3::new(0, 0, 0), Vec3::new(0, 0, -ONE));
    let sphere = Sphere::new(Vec3::new(5 * ONE, 5 * ONE, 5 * ONE), ONE / 2, matte());
    assert!(sphere.hit(&ray).is_none());
}

#[test]
fn hittable_list_returns_nearest() {
    // two spheres along the ray; whichever order they are listed in, the
    // nearer one (t = 1.5) wins over the farther one (t = 3.5)
    let ray = Ray::new(Vec3::new(0, 0, 0), Vec3::new(0, 0, -ONE));
    let near = Sphere::new(Vec3::new(0, 0, -2 * ONE), ONE / 2, matte());
    let far = Sphere::new(Vec3::new(0, 0, -4 * ONE), ONE / 2, matte());

    let mut world = HittableList::new();
    world.push(Hittable::Sphere(far));
    world.push(Hittable::Sphere(near));
    let hit = world.hit(&ray).expect("must hit");
    assert_eq!(hit.t(), 98304);

    let mut world2 = HittableList::new();
    world2.push(Hittable::Sphere(near));
    world2.push(Hittable::Sphere(far));
    let hit2 = world2.hit(&ray).expect("must hit");
    assert_eq!(hit2.t(), 98304);
}

#[test]
fn empty_list_misses() {
    let ray = Ray::new(Vec3::new(0, 0, 0), Vec3::new(0, 0, -ONE));
    let world = HittableList::new();
    assert!(world.hit(&ray).is_none());
}

#[test]
fn ray_new_normalizes_direction() {
    // ray construction invariant: the stored direction is unit length
    // whatever the input magnitude
    let ray = Ray::new(Vec3::new(0, 0, 0), Vec3::new(0, 0, -500 * ONE));
    let d = ray.dir();
    assert_eq!((d.x(), d.y(), d.z()), (0, 0, -ONE));
    let skew = Ray::new(Vec3::new(ONE, ONE, ONE), Vec3::new(7 * ONE, -3 * ONE, 2 * ONE));
    let l = skew.dir().length();
    assert!(ONE - 4 <= l && l <= ONE + 7, "stored direction length {}", l);
}

#[test]
fn ray_at_walks_the_line() {
    let ray = Ray::new(Vec3::new(ONE, 0, 0), Vec3::new(0, 0, -ONE));
    let p = ray.at(3 * ONE);
    assert_eq!((p.x(), p.y(), p.z()), (ONE, 0, -3 * ONE));
}
