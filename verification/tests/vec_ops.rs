use raymarcher::fix::isqrt;
use raymarcher::vec3::Vec3;

#[test]
fn isqrt_small_values() {
    assert_eq!(isqrt(0), 0);
    assert_eq!(isqrt(1), 1);
    assert_eq!(isqrt(3), 1);
    assert_eq!(isqrt(4), 2);
    assert_eq!(isqrt(999_999), 999);
    assert_eq!(isqrt(1_000_000), 1000);
}

#[test]
fn isqrt_large_values() {
    assert_eq!(isqrt(3_000_000_000_000), 1_732_050);
    assert_eq!(isqrt(9_000_000_000_000), 3_000_000);
    assert_eq!(isqrt(9_000_000_000_001), 3_000_000);
}

#[test]
fn length_of_axis_vector() {
    let v = Vec3::new(0, 0, -3_000_000);
    assert_eq!(v.length(), 3_000_000);
}

#[test]
fn length_of_pythagorean_vector() {
    let v = Vec3::new(3_000_000, 0, 4_000_000);
    assert_eq!(v.length(), 5_000_000);
}

#[test]
fn normalize_pythagorean_vector_exactly() {
    let mut v = Vec3::new(3_000_000, 0, 4_000_000);
    v.normalize();
    assert_eq!((v.x, v.y, v.z), (600_000, 0, 800_000));
    assert_eq!(v.length(), 1_000_000);
}

#[test]
fn normalize_diagonal_vector_within_tolerance() {
    let mut v = Vec3::new(1_000_000, 1_000_000, 1_000_000);
    v.normalize();
    assert_eq!((v.x, v.y, v.z), (577_350, 577_350, 577_350));
    let len = v.length();
    assert!(996_000 <= len && len <= 1_000_000);
    assert!((1_000_000 - len).abs() <= 4);
}

#[test]
fn normalize_negative_components() {
    let mut v = Vec3::new(-3_000_000, 4_000_000, 0);
    v.normalize();
    assert_eq!((v.x, v.y, v.z), (-600_000, 800_000, 0));
}

#[test]
fn multiply_scales_by_fixed_point_factor() {
    let v = Vec3::new(1_000_000, -2_000_000, 500_000);
    let r = v.multiply(2_000_000);
    assert_eq!((r.x, r.y, r.z), (2_000_000, -4_000_000, 1_000_000));
}

#[test]
fn multiply_truncates_toward_zero() {
    let v = Vec3::new(1, -1, 3);
    let r = v.multiply(500_000);
    assert_eq!((r.x, r.y, r.z), (0, 0, 1));
}

#[test]
fn add_and_subtrate_are_componentwise() {
    let a = Vec3::new(1, 2, 3);
    let b = Vec3::new(10, -20, 30);
    let s = a.add(&b);
    assert_eq!((s.x, s.y, s.z), (11, -18, 33));
    let d = a.subtrate(&b);
    assert_eq!((d.x, d.y, d.z), (-9, 22, -27));
}
