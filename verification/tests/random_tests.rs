use ray_tracer::random::{
    random_float, random_float_range, random_in_unit_shpere, random_unit_vector,
};

const ONE: i64 = 65536;

#[test]
fn random_float_stays_in_unit_interval() {
    for _ in 0..200 {
        let r = random_float();
        assert!(0 <= r && r < ONE);
    }
}

#[test]
fn random_float_range_respects_bounds() {
    for _ in 0..200 {
        let r = random_float_range(-3 * ONE, 5 * ONE);
        assert!(-3 * ONE <= r && r < 5 * ONE);
    }
    // a range of width one leaves no choice at all
    assert_eq!(random_float_range(5, 6), 5);
}

#[test]
fn random_in_unit_sphere_is_interior() {
    for _ in 0..50 {
        let v = random_in_unit_shpere();
        let n2 = v.x() * v.x() + v.y() * v.y() + v.z() * v.z();
        assert!(n2 < ONE * ONE);
        assert!(n2 >= 16384 * 16384);
    }
}

#[test]
fn random_unit_vector_has_unit_length() {
    for _ in 0..50 {
        let v = random_unit_vector();
        let n2 = v.x() * v.x() + v.y() * v.y() + v.z() * v.z();
        assert!(n2 >= ONE * ONE - 6 * ONE);
        assert!(n2 <= ONE * ONE + 14 * ONE + 3);
        let l = v.length();
        assert!(ONE - 4 <= l && l <= ONE + 7);
    }
}
