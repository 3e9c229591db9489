use ray_tracer::vec3::Vec3;

// One fixed-point unit.
const ONE: i64 = 65536;

#[test]
fn arithmetic_exact() {
    let a = Vec3::new(ONE, 2 * ONE, -ONE);
    let b = Vec3::new(3 * ONE, -ONE, ONE);
    let s = a.add(b);
    assert_eq!((s.x(), s.y(), s.z()), (4 * ONE, ONE, 0));
    let d = a.sub(b);
    assert_eq!((d.x(), d.y(), d.z()), (-2 * ONE, 3 * ONE, -2 * ONE));
    let n = a.neg();
    assert_eq!((n.x(), n.y(), n.z()), (-ONE, -2 * ONE, ONE));
    let h = a.mul(ONE / 2);
    assert_eq!((h.x(), h.y(), h.z()), (ONE / 2, ONE, -ONE / 2));
}

#[test]
fn dot_and_cross_exact() {
    let x = Vec3::new(ONE, 0, 0);
    let y = Vec3::new(0, ONE, 0);
    assert_eq!(x.dot(x), ONE);
    assert_eq!(x.dot(y), 0);
    let z = x.cross(y);
    assert_eq!((z.x(), z.y(), z.z()), (0, 0, ONE));
    let w = y.cross(x);
    assert_eq!((w.x(), w.y(), w.z()), (0, 0, -ONE));
}

#[test]
fn length_of_three_four_triangle() {
    // (3, 4, 0) has length 5, exactly representable
    let v = Vec3::new(3 * ONE, 4 * ONE, 0);
    assert_eq!(v.length(), 5 * ONE);
    assert_eq!(v.length_sqared(), 25 * ONE);
}

#[test]
fn unit_vector_length_is_one_within_tolerance() {
    // normalization invariant on a non-axis vector
    let v = Vec3::new(3 * ONE, 4 * ONE, 0);
    let u = v.unit_vector();
    assert_eq!((u.x(), u.y(), u.z()), (39321, 52428, 0));
    let l = u.length();
    assert!(ONE - 4 <= l && l <= ONE + 7, "unit length {} out of tolerance", l);

    // the same for a vector that is not exactly representable
    let w = Vec3::new(123457, -987654, 333333);
    let lw = w.unit_vector().length();
    assert!(ONE - 4 <= lw && lw <= ONE + 7, "unit length {} out of tolerance", lw);
}

#[test]
fn lerp_endpoints_and_midpoint() {
    let white = Vec3::new(ONE, ONE, ONE);
    let blue = Vec3::new(32768, 45875, ONE);
    let at0 = Vec3::lerp(white, blue, 0);
    assert_eq!((at0.x(), at0.y(), at0.z()), (ONE, ONE, ONE));
    let at1 = Vec3::lerp(white, blue, ONE);
    assert_eq!((at1.x(), at1.y(), at1.z()), (32768, 45875, ONE));
    // the blend factor is clamped
    let over = Vec3::lerp(white, blue, 10 * ONE);
    assert_eq!((over.x(), over.y(), over.z()), (32768, 45875, ONE));
    let mid = Vec3::lerp(white, blue, 32768);
    assert_eq!(mid.x(), 32768 + 16384);
}

#[test]
fn gamma_correct_takes_roots() {
    // 0.25 under gamma 2 becomes 0.5, exactly
    let c = Vec3::new(16384, ONE, 0);
    let g = c.gamma_correct(2);
    assert_eq!((g.x(), g.y(), g.z()), (32768, ONE, 0));
}

#[test]
fn gamma_roundtrip_white_any_gamma() {
    // full brightness is a fixed point of the power function
    let white = Vec3::new(ONE, ONE, ONE);
    let mut gamma: u32 = 1;
    while gamma <= 7 {
        let out = white.gamma_correct(gamma).to_8bit_color();
        assert_eq!(out, (255, 255, 255), "gamma {}", gamma);
        gamma += 1;
    }
}

#[test]
fn to_8bit_clamps_and_rounds() {
    let c = Vec3::new(32768, 0, ONE);
    assert_eq!(c.to_8bit_color(), (128, 0, 255));
    let d = Vec3::new(-5, 70000, 0);
    assert_eq!(d.to_8bit_color(), (0, 255, 0));
}
