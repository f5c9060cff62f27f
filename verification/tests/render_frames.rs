use raymarcher::render::{march, raymarch, Cell, Config, Frame, MarchEnd};
use raymarcher::vec3::Vec3;

/// The orbiting light direction at animation time `t` seconds, in fixed point:
/// normalize(50 sin t, 20, 50 cos t).
fn light_at(t: f64) -> Vec3 {
    let (x, y, z) = (50.0 * t.sin(), 20.0, 50.0 * t.cos());
    let len = (x * x + y * y + z * z).sqrt();
    Vec3::new(
        (x / len * 1_000_000.0) as i64,
        (y / len * 1_000_000.0) as i64,
        (z / len * 1_000_000.0) as i64,
    )
}

#[test]
fn center_ray_hits_sphere_surface() {
    let cam = Vec3::new(0, 0, -3_000_000);
    let ray = Vec3::new(0, 0, 1_000_000);
    match march(&cam, &ray) {
        MarchEnd::Hit(p) => {
            assert_eq!((p.x, p.y, p.z), (0, 0, -200_000));
            // the hit point lies exactly on the sphere
            assert_eq!(p.length(), 200_000);
        },
        _ => panic!("center ray must hit"),
    }
}

#[test]
fn away_ray_escapes_rather_than_exhausting() {
    let cam = Vec3::new(0, 0, -3_000_000);
    let ray = Vec3::new(0, 0, -1_000_000);
    assert!(matches!(march(&cam, &ray), MarchEnd::Escape));
}

#[test]
fn sideways_ray_escapes() {
    let cam = Vec3::new(0, 0, -3_000_000);
    let mut ray = Vec3::new(1_000_000, 1_000_000, 0);
    ray.normalize();
    assert!(matches!(march(&cam, &ray), MarchEnd::Escape));
}

#[test]
fn new_frame_is_all_background() {
    let cfg = Config { width: 3, height: 2, palette_len: 7 };
    let f = Frame::new(&cfg);
    assert_eq!(f.cells.len(), 2);
    for row in &f.cells {
        assert_eq!(row.len(), 3);
        for c in row {
            assert_eq!(*c, Cell::Background);
        }
    }
}

#[test]
fn small_grid_baseline_at_time_zero() {
    let cfg = Config { width: 4, height: 4, palette_len: 7 };
    let light = light_at(0.0);
    let mut frame = Frame::new(&cfg);
    raymarch(&mut frame, &cfg, &light);
    assert_eq!(frame.cells.len(), 4);
    for row in &frame.cells {
        assert_eq!(row.len(), 4);
    }
    // the four corner rays diverge away from the small sphere
    assert_eq!(frame.cells[0][0], Cell::Background);
    assert_eq!(frame.cells[0][3], Cell::Background);
    assert_eq!(frame.cells[3][0], Cell::Background);
    assert_eq!(frame.cells[3][3], Cell::Background);
    // the exact center ray passes through the sphere's center and hits
    assert!(matches!(frame.cells[2][2], Cell::Px(_)));
    // whatever is shaded is a valid palette index
    for row in &frame.cells {
        for c in row {
            if let Cell::Px(i) = c {
                assert!(*i < 7);
            }
        }
    }
}

#[test]
fn render_is_idempotent() {
    let cfg = Config { width: 5, height: 3, palette_len: 7 };
    let light = light_at(1.25);
    let mut a = Frame::new(&cfg);
    let mut b = Frame::new(&cfg);
    raymarch(&mut a, &cfg, &light);
    raymarch(&mut b, &cfg, &light);
    assert_eq!(a.cells, b.cells);
    // rendering into an already-used buffer overwrites it completely
    raymarch(&mut a, &cfg, &light);
    assert_eq!(a.cells, b.cells);
}
