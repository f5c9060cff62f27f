use raymarcher::scene::sdf;
use raymarcher::shade::shade;
use raymarcher::vec3::Vec3;

#[test]
fn sdf_at_origin_is_minus_radius() {
    assert_eq!(sdf(&Vec3::new(0, 0, 0)), -200_000);
}

#[test]
fn sdf_on_surface_is_zero() {
    assert_eq!(sdf(&Vec3::new(200_000, 0, 0)), 0);
    assert_eq!(sdf(&Vec3::new(0, 0, -200_000)), 0);
}

#[test]
fn sdf_at_distance_d_is_d_minus_radius() {
    // a point at distance 0.2 + r from the origin has signed distance r
    assert_eq!(sdf(&Vec3::new(400_000, 0, 0)), 200_000);
    assert_eq!(sdf(&Vec3::new(0, 1_200_000, 0)), 1_000_000);
    assert_eq!(sdf(&Vec3::new(0, 0, -3_000_000)), 2_800_000);
    // and inside the sphere it is negative
    assert_eq!(sdf(&Vec3::new(100_000, 0, 0)), -100_000);
}

#[test]
fn shade_light_facing_normal_wraps_to_darkest() {
    // on the sphere surface at (0, 0, -0.2) the normal estimate is (0, 0, -1);
    // a light shining straight along it gives full intensity, which the
    // remapping wraps around to entry 0
    let p = Vec3::new(0, 0, -200_000);
    let idx = shade(&p, &Vec3::new(0, 0, -1_000_000), 7);
    assert_eq!(idx, 0);
}

#[test]
fn shade_perpendicular_light_is_middle_entry() {
    let p = Vec3::new(0, 0, -200_000);
    let idx = shade(&p, &Vec3::new(0, -1_000_000, 0), 7);
    assert_eq!(idx, 3);
}

#[test]
fn shade_light_from_behind_is_darkest() {
    let p = Vec3::new(0, 0, -200_000);
    let idx = shade(&p, &Vec3::new(0, 0, 1_000_000), 7);
    assert_eq!(idx, 0);
}

#[test]
fn shade_index_is_always_in_palette() {
    let points = [
        Vec3::new(0, 0, -200_000),
        Vec3::new(200_000, 0, 0),
        Vec3::new(0, 200_000, 0),
        Vec3::new(115_470, 115_470, -115_470),
        Vec3::new(0, 0, 0),
        Vec3::new(1_000_000, -2_000_000, 3_000_000),
    ];
    let lights = [
        Vec3::new(0, 0, -1_000_000),
        Vec3::new(0, 1_000_000, 0),
        Vec3::new(577_350, 577_350, 577_350),
    ];
    for plen in [1usize, 2, 7, 16] {
        for p in &points {
            for l in &lights {
                let idx = shade(p, l, plen);
                assert!(idx < plen);
            }
        }
    }
}
