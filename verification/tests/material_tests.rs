use ray_tracer::material::{Lambertian, Material};
use ray_tracer::vec3::Vec3;

#[test]
fn material_test() {}

#[test]
fn lambertian_keeps_albedo() {
    let albedo = Vec3::new(45875, 45875, 19660);
    let m = Lambertian::new(albedo);
    assert_eq!(m.albedo().x(), 45875);
    assert_eq!(m.albedo().y(), 45875);
    assert_eq!(m.albedo().z(), 19660);
    let wrapped = Material::Lambertian(m);
    match wrapped {
        Material::Lambertian(inner) => assert_eq!(inner.albedo().x(), 45875),
    }
}
