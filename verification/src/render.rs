use vstd::prelude::*;

use crate::fix::{is_sqrt, lemma_mul_magnitude_bound, lemma_sqrt_floor_unique, lemma_tdiv_bound, tdiv, SCALE};
use crate::scene::{lemma_sdf_pos_bounded, sdf, sdf_spec, POS_MAX, RADIUS};
use crate::shade::{shade, shade_spec, PALETTE_MAX};
use crate::vec3::{add_spec, in_bounds, len_spec, norm_spec, scale_spec, sq_norm, sub_spec, Vec3, V3, COORD_MAX};

verus! {

/// A ray has escaped the scene once a coordinate of its position passes this
/// bound: 9999 in fixed point.
pub const ESCAPE: i64 = 9_999_000_000;

/// A ray has hit the surface once the signed distance falls below this: 1e-6,
/// one fixed-point unit.
pub const HIT_EPS: i64 = 1;

/// The step budget of one ray.
pub const MAX_STEPS: usize = 15_000;

/// Depth of the camera: every ray starts at (0, 0, -3).
pub const CAMERA_Z: i64 = -3_000_000;

/// Depth of the image plane the pixel grid is mapped onto: -1.5.
pub const PLANE_Z: i64 = -1_500_000;

/// Half of `SCALE`: the image-plane offset that centers the grid.
pub const HALF_SCALE: i64 = 500_000;

/// Largest grid dimension the renderer accepts.
pub const DIM_MAX: usize = 4_096;

/// Immutable rendering configuration, fixed once at startup: the grid size
/// and the number of palette entries.
#[derive(Clone, Copy, Debug, PartialEq, Eq, Structural)]
pub struct Config {
    pub width: usize,
    pub height: usize,
    pub palette_len: usize,
}

/// The dimensions are positive and small enough for every intermediate
/// computation to stay in range.
pub open spec fn config_wf(c: Config) -> bool {
    &&& 1 <= c.width <= DIM_MAX
    &&& 1 <= c.height <= DIM_MAX
    &&& 1 <= c.palette_len <= PALETTE_MAX
}

/// One cell of the frame buffer: the untouched background, or the palette
/// entry with the given index.
#[derive(Clone, Copy, Debug, PartialEq, Eq, Structural)]
pub enum Cell {
    Background,
    Px(usize),
}

/// The outcome of marching one ray, at the specification level.
pub ghost enum MarchOut {
    Hit { p: V3 },
    Escape,
    Exhausted,
}

/// The outcome of marching one ray: the surface point it converged on, or
/// the way it ended without one.
#[derive(Clone, Copy, Debug)]
pub enum MarchEnd {
    Hit(Vec3),
    Escape,
    Exhausted,
}

impl View for MarchEnd {
    type V = MarchOut;

    open spec fn view(&self) -> MarchOut {
        match self {
            MarchEnd::Hit(v) => MarchOut::Hit { p: v@ },
            MarchEnd::Escape => MarchOut::Escape,
            MarchEnd::Exhausted => MarchOut::Exhausted,
        }
    }
}

/// The camera position.
pub open spec fn camera_spec() -> V3 {
    V3 { x: 0, y: 0, z: CAMERA_Z as int }
}

/// Some coordinate of `p` lies beyond the divergence bound.
pub open spec fn escaped(p: V3) -> bool {
    ||| p.x > ESCAPE as int
    ||| p.x < -(ESCAPE as int)
    ||| p.y > ESCAPE as int
    ||| p.y < -(ESCAPE as int)
    ||| p.z > ESCAPE as int
    ||| p.z < -(ESCAPE as int)
}

/// Sphere tracing from `p` along the unit direction `ray` with `fuel` steps
/// left: escape once a coordinate passes the divergence bound, hit once the
/// signed distance falls below `HIT_EPS`, otherwise advance by that distance.
pub open spec fn march_spec(p: V3, ray: V3, fuel: nat) -> MarchOut
    decreases fuel,
{
    if fuel == 0 {
        MarchOut::Exhausted
    } else if escaped(p) {
        MarchOut::Escape
    } else if sdf_spec(p) < HIT_EPS {
        MarchOut::Hit { p }
    } else {
        march_spec(add_spec(p, scale_spec(ray, sdf_spec(p))), ray, (fuel - 1) as nat)
    }
}

/// Marches one ray from `start` along the unit direction `ray` until it hits
/// the surface, escapes the scene, or exhausts the step budget.
pub fn march(start: &Vec3, ray: &Vec3) -> (r: MarchEnd)
    requires
        in_bounds(start@, POS_MAX as int),
        in_bounds(ray@, SCALE as int),
    ensures
        r@ == march_spec(start@, ray@, MAX_STEPS as nat),
        (r@ matches MarchOut::Hit { p } ==> in_bounds(p, POS_MAX as int)),
{
    let mut pos = *start;
    let mut i: usize = 0;
    while i < MAX_STEPS
        invariant
            i <= MAX_STEPS,
            in_bounds(pos@, POS_MAX as int),
            in_bounds(ray@, SCALE as int),
            march_spec(start@, ray@, MAX_STEPS as nat) == march_spec(
                pos@,
                ray@,
                (MAX_STEPS - i) as nat,
            ),
        decreases MAX_STEPS - i,
    {
        if pos.x > ESCAPE || pos.x < -ESCAPE || pos.y > ESCAPE || pos.y < -ESCAPE || pos.z > ESCAPE
            || pos.z < -ESCAPE {
            return MarchEnd::Escape;
        }
        let d = sdf(&pos);
        if d < HIT_EPS {
            return MarchEnd::Hit(pos);
        }
        proof {
            lemma_sdf_pos_bounded(pos@, d as int, ESCAPE as int);
            lemma_mul_magnitude_bound(ray@.x, d as int, SCALE as int, 2 * ESCAPE as int);
            lemma_mul_magnitude_bound(ray@.y, d as int, SCALE as int, 2 * ESCAPE as int);
            lemma_mul_magnitude_bound(ray@.z, d as int, SCALE as int, 2 * ESCAPE as int);
            lemma_tdiv_bound(ray@.x * d, SCALE as int * 2 * ESCAPE as int, SCALE as int);
            lemma_tdiv_bound(ray@.y * d, SCALE as int * 2 * ESCAPE as int, SCALE as int);
            lemma_tdiv_bound(ray@.z * d, SCALE as int * 2 * ESCAPE as int, SCALE as int);
        }
        let step = ray.multiply(d);
        let next = pos.add(&step);
        proof {
            assert(march_spec(pos@, ray@, (MAX_STEPS - i) as nat) == march_spec(
                next@,
                ray@,
                (MAX_STEPS - i - 1) as nat,
            ));
        }
        pos = next;
        i = i + 1;
    }
    MarchEnd::Exhausted
}

/// The image-plane point of pixel `(x, y)` in a `w` by `h` grid: coordinates
/// normalized to the grid, offset so the center maps near the origin, the
/// vertical axis corrected by the aspect ratio `h / w` and stretched by 1.5,
/// at depth `PLANE_Z`.
pub open spec fn target_spec(x: int, y: int, w: int, h: int) -> V3 {
    let tx = (x * SCALE) / w - HALF_SCALE;
    let a = (y * SCALE) / h - HALF_SCALE;
    V3 { x: tx, y: tdiv(a * 3 * h, 2 * w), z: PLANE_Z as int }
}

/// The unit direction of the camera ray through pixel `(x, y)`.
pub open spec fn ray_spec(x: int, y: int, w: int, h: int) -> V3 {
    norm_spec(sub_spec(target_spec(x, y, w, h), camera_spec()))
}

/// Builds the camera ray of pixel `(x, y)`: the normalized direction from the
/// camera to the pixel's image-plane point.
fn pixel_ray(x: usize, y: usize, cfg: &Config) -> (r: Vec3)
    requires
        config_wf(*cfg),
        x < cfg.width,
        y < cfg.height,
    ensures
        r@ == ray_spec(x as int, y as int, cfg.width as int, cfg.height as int),
        in_bounds(r@, SCALE as int),
{
    proof {
        vstd::arithmetic::div_mod::lemma_div_nonincreasing(
            x as int * SCALE as int,
            cfg.width as int,
        );
        vstd::arithmetic::div_mod::lemma_div_pos_is_pos(x as int * SCALE as int, cfg.width as int);
        vstd::arithmetic::div_mod::lemma_div_nonincreasing(
            y as int * SCALE as int,
            cfg.height as int,
        );
        vstd::arithmetic::div_mod::lemma_div_pos_is_pos(y as int * SCALE as int, cfg.height as int);
        lemma_mul_magnitude_bound(x as int, SCALE as int, DIM_MAX as int, SCALE as int);
        lemma_mul_magnitude_bound(y as int, SCALE as int, DIM_MAX as int, SCALE as int);
    }
    let tx = ((x as u64 * SCALE as u64) / (cfg.width as u64)) as i64 - HALF_SCALE;
    let a = ((y as u64 * SCALE as u64) / (cfg.height as u64)) as i64 - HALF_SCALE;
    proof {
        lemma_mul_magnitude_bound(
            a as int * 3,
            cfg.height as int,
            3 * (DIM_MAX as int * SCALE as int + HALF_SCALE as int),
            DIM_MAX as int,
        );
    }
    let num = a * 3 * (cfg.height as i64);
    let den = 2 * (cfg.width as i64);
    let ty = if num >= 0 {
        ((num as u64) / (den as u64)) as i64
    } else {
        -((((-num) as u64) / (den as u64)) as i64)
    };
    proof {
        lemma_tdiv_bound(
            num as int,
            3 * (DIM_MAX as int * SCALE as int + HALF_SCALE as int) * DIM_MAX as int,
            den as int,
        );
        if num >= 0 {
            vstd::arithmetic::div_mod::lemma_div_pos_is_pos(num as int, den as int);
            vstd::arithmetic::div_mod::lemma_div_nonincreasing(num as int, den as int);
        } else {
            vstd::arithmetic::div_mod::lemma_div_pos_is_pos(-(num as int), den as int);
            vstd::arithmetic::div_mod::lemma_div_nonincreasing(-(num as int), den as int);
        }
    }
    let cam = Vec3::new(0, 0, CAMERA_Z);
    let target = Vec3::new(tx, ty, PLANE_Z);
    let mut ray = target.subtrate(&cam);
    ray.normalize();
    ray
}

/// The cell rendered for pixel `(x, y)`: the shaded palette entry where the
/// ray converges on the surface, the background where it escapes or runs out
/// of steps.
pub open spec fn pixel_spec(x: int, y: int, cfg: Config, light: V3) -> Cell {
    match march_spec(
        camera_spec(),
        ray_spec(x, y, cfg.width as int, cfg.height as int),
        MAX_STEPS as nat,
    ) {
        MarchOut::Hit { p } => Cell::Px(shade_spec(p, light, cfg.palette_len as int) as usize),
        MarchOut::Escape => Cell::Background,
        MarchOut::Exhausted => Cell::Background,
    }
}

/// The full frame: row `y` holds the cells of pixels `(0, y)` up to
/// `(width - 1, y)`.
pub open spec fn render_spec(cfg: Config, light: V3) -> Seq<Seq<Cell>> {
    Seq::new(
        cfg.height as nat,
        |y: int| Seq::new(cfg.width as nat, |x: int| pixel_spec(x, y, cfg, light)),
    )
}

/// A frame buffer: a grid of cells, row by row.
pub struct Frame {
    pub cells: Vec<Vec<Cell>>,
}

impl View for Frame {
    type V = Seq<Seq<Cell>>;

    open spec fn view(&self) -> Seq<Seq<Cell>> {
        Seq::new(self.cells@.len(), |y: int| self.cells@[y]@)
    }
}

impl Frame {
    /// A frame of `cfg.height` rows of `cfg.width` background cells.
    pub fn new(cfg: &Config) -> (f: Frame)
        requires
            config_wf(*cfg),
        ensures
            f@.len() == cfg.height as nat,
            forall|y: int, x: int|
                0 <= y < cfg.height && 0 <= x < cfg.width ==> f@[y].len() == cfg.width as nat
                    && f@[y][x] == Cell::Background,
    {
        let mut cells: Vec<Vec<Cell>> = Vec::new();
        let mut y: usize = 0;
        while y < cfg.height
            invariant
                y <= cfg.height,
                config_wf(*cfg),
                cells@.len() == y as nat,
                forall|j: int, x: int|
                    0 <= j < y && 0 <= x < cfg.width ==> cells@[j]@.len() == cfg.width as nat
                        && cells@[j]@[x] == Cell::Background,
            decreases cfg.height - y,
        {
            let mut row: Vec<Cell> = Vec::new();
            let mut x: usize = 0;
            while x < cfg.width
                invariant
                    x <= cfg.width,
                    row@.len() == x as nat,
                    forall|i: int| 0 <= i < x ==> row@[i] == Cell::Background,
                decreases cfg.width - x,
            {
                row.push(Cell::Background);
                x = x + 1;
            }
            cells.push(row);
            y = y + 1;
        }
        Frame { cells }
    }
}

/// Renders one frame: for every pixel, builds the camera ray, sphere-traces
/// it through the scene, and writes the shaded cell (or the background) into
/// the buffer.  The result is a pure function of the configuration and the
/// light direction.
pub fn raymarch(framebuffer: &mut Frame, cfg: &Config, light: &Vec3)
    requires
        config_wf(*cfg),
        in_bounds(light@, SCALE as int),
    ensures
        final(framebuffer)@ == render_spec(*cfg, light@),
{
    let mut rows: Vec<Vec<Cell>> = Vec::new();
    let mut y: usize = 0;
    while y < cfg.height
        invariant
            y <= cfg.height,
            config_wf(*cfg),
            in_bounds(light@, SCALE as int),
            rows@.len() == y as nat,
            forall|j: int| 0 <= j < y ==> rows@[j]@ == render_spec(*cfg, light@)[j],
        decreases cfg.height - y,
    {
        let mut row: Vec<Cell> = Vec::new();
        let mut x: usize = 0;
        while x < cfg.width
            invariant
                x <= cfg.width,
                y < cfg.height,
                config_wf(*cfg),
                in_bounds(light@, SCALE as int),
                row@.len() == x as nat,
                forall|i: int| 0 <= i < x ==> row@[i] == pixel_spec(i, y as int, *cfg, light@),
            decreases cfg.width - x,
        {
            let ray = pixel_ray(x, y, cfg);
            let cam = Vec3::new(0, 0, CAMERA_Z);
            let end = march(&cam, &ray);
            let cell = match end {
                MarchEnd::Hit(p) => Cell::Px(shade(&p, light, cfg.palette_len)),
                MarchEnd::Escape => Cell::Background,
                MarchEnd::Exhausted => Cell::Background,
            };
            row.push(cell);
            x = x + 1;
        }
        proof {
            assert(row@ =~= render_spec(*cfg, light@)[y as int]);
        }
        rows.push(row);
        y = y + 1;
    }
    framebuffer.cells = rows;
    proof {
        assert(final(framebuffer)@ =~~= render_spec(*cfg, light@));
    }
}

/// A ray fired from the camera straight at the sphere's center converges to
/// a hit within two steps, and the hit point lies exactly on the sphere: its
/// distance from the origin equals the radius.
pub proof fn lemma_center_ray_hits(fuel: nat)
    requires
        fuel >= 2,
    ensures
        march_spec(camera_spec(), V3 { x: 0, y: 0, z: SCALE as int }, fuel) == (MarchOut::Hit {
            p: V3 { x: 0, y: 0, z: -(RADIUS as int) },
        }),
        len_spec(V3 { x: 0, y: 0, z: -(RADIUS as int) }) == RADIUS as int,
{
    let cam = camera_spec();
    let ray = V3 { x: 0, y: 0, z: SCALE as int };
    assert(sq_norm(cam) == 9_000_000_000_000);
    assert(is_sqrt(9_000_000_000_000, 3_000_000));
    lemma_sqrt_floor_unique(sq_norm(cam), 3_000_000);
    assert(sdf_spec(cam) == 2_800_000);
    let step = scale_spec(ray, 2_800_000);
    assert(step == (V3 { x: 0, y: 0, z: 2_800_000 }));
    let p1 = add_spec(cam, step);
    assert(p1 == (V3 { x: 0, y: 0, z: -200_000 }));
    assert(p1.z * p1.z == 40_000_000_000) by (nonlinear_arith)
        requires
            p1.z == -200_000,
    ;
    assert(sq_norm(p1) == 40_000_000_000);
    assert(is_sqrt(40_000_000_000, 200_000));
    lemma_sqrt_floor_unique(sq_norm(p1), 200_000);
    assert(sdf_spec(p1) == 0);
    assert(march_spec(p1, ray, (fuel - 1) as nat) == (MarchOut::Hit { p: p1 }));
    assert(march_spec(cam, ray, fuel) == march_spec(p1, ray, (fuel - 1) as nat));
}

/// Marching from depth `z` on the axis straight away from the scene escapes,
/// provided the fuel covers the remaining distance to the divergence bound:
/// every step moves at least 2.8 farther out.
proof fn lemma_away_escape_ind(z: int, fuel: nat)
    requires
        z <= CAMERA_Z as int,
        fuel >= 1,
        -z + 2_800_000 * (fuel - 1) > ESCAPE as int,
    ensures
        march_spec(V3 { x: 0, y: 0, z: z }, V3 { x: 0, y: 0, z: -(SCALE as int) }, fuel)
            == MarchOut::Escape,
    decreases fuel,
{
    let p = V3 { x: 0, y: 0, z: z };
    let ray = V3 { x: 0, y: 0, z: -(SCALE as int) };
    if z < -(ESCAPE as int) {
        assert(escaped(p));
    } else {
        assert(fuel >= 2);
        assert(is_sqrt(z * z, -z)) by (nonlinear_arith)
            requires
                z < 0,
        ;
        assert(sq_norm(p) == z * z);
        lemma_sqrt_floor_unique(sq_norm(p), -z);
        let d = -z - RADIUS as int;
        assert(sdf_spec(p) == d);
        let step = scale_spec(ray, d);
        lemma_step_toward_negative_z(d);
        assert(step == (V3 { x: 0, y: 0, z: -d }));
        let p2 = add_spec(p, step);
        assert(p2 == (V3 { x: 0, y: 0, z: 2 * z + RADIUS as int }));
        lemma_away_escape_ind(2 * z + RADIUS as int, (fuel - 1) as nat);
        assert(march_spec(p, ray, fuel) == march_spec(p2, ray, (fuel - 1) as nat));
    }
}

/// Scaling the unit direction `(0, 0, -1)` by a positive distance `d` steps
/// exactly `d` units along the negative z axis.
proof fn lemma_step_toward_negative_z(d: int)
    requires
        0 <= d,
    ensures
        tdiv(-(SCALE as int) * d, SCALE as int) == -d,
{
    vstd::arithmetic::div_mod::lemma_div_multiples_vanish(d, SCALE as int);
    assert((SCALE as int) * d == d * (SCALE as int)) by (nonlinear_arith);
}

/// A ray aimed straight away from the scene ends by escaping past the
/// divergence bound, well within the step budget: it neither hits nor
/// exhausts its steps.
pub proof fn lemma_away_ray_escapes()
    ensures
        march_spec(camera_spec(), V3 { x: 0, y: 0, z: -(SCALE as int) }, MAX_STEPS as nat)
            == MarchOut::Escape,
{
    lemma_away_escape_ind(CAMERA_Z as int, MAX_STEPS as nat);
}

/// Rendering is a pure function of its inputs: two frames rendered with the
/// same configuration and light direction are identical.
pub proof fn lemma_render_deterministic(
    cfg: Config,
    light: V3,
    a: Seq<Seq<Cell>>,
    b: Seq<Seq<Cell>>,
)
    requires
        a == render_spec(cfg, light),
        b == render_spec(cfg, light),
    ensures
        a == b,
{
}

} // verus!
