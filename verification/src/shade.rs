use vstd::prelude::*;

use crate::fix::{lemma_mul_magnitude_bound, lemma_tdiv_bound, tdiv, SCALE};
use crate::scene::{sdf, sdf_spec, lemma_sdf_pos_bounded, POS_MAX, RADIUS};
use crate::vec3::{in_bounds, norm_spec, Vec3, V3, COORD_MAX};

verus! {

/// Finite-difference step for the normal estimate: one fixed-point unit (1e-6).
pub const DT: i64 = 1;

/// Largest palette size the shader accepts.
pub const PALETTE_MAX: usize = 65_536;

/// The estimated surface gradient at `p`: per-axis forward differences of the
/// distance field over a step of `DT`.  The step is a single fixed-point unit,
/// so dividing the difference by it leaves the difference unchanged, and the
/// factor `SCALE` expresses the slope as a fixed-point value.
pub open spec fn grad_spec(p: V3) -> V3 {
    let d0 = sdf_spec(p);
    V3 {
        x: (sdf_spec(V3 { x: p.x + DT, y: p.y, z: p.z }) - d0) * SCALE,
        y: (sdf_spec(V3 { x: p.x, y: p.y + DT, z: p.z }) - d0) * SCALE,
        z: (sdf_spec(V3 { x: p.x, y: p.y, z: p.z + DT }) - d0) * SCALE,
    }
}

/// The fixed-point diffuse intensity: the dot product of the unit light
/// direction and the unit surface normal.
pub open spec fn diffuse_spec(light: V3, n: V3) -> int {
    tdiv(light.x * n.x + light.y * n.y + light.z * n.z, SCALE as int)
}

/// The palette index shown for intensity `d`: remap from [-1, 1] to
/// [0, plen), take the floor, and wrap by the palette size.  Intensities
/// below -1 (possible only through rounding) clamp to the darkest entry.
pub open spec fn intensity_index_spec(d: int, plen: int) -> int {
    let v = d + SCALE;
    if v < 0 {
        0
    } else {
        (v * plen / (2 * SCALE as int)) % plen
    }
}

/// The palette index for a surface point `p` under light direction `light`:
/// the darkest entry when the gradient degenerates to zero, otherwise the
/// diffuse intensity of the normalized gradient, remapped to the palette.
pub open spec fn shade_spec(p: V3, light: V3, plen: int) -> int {
    let g = grad_spec(p);
    if g.x == 0 && g.y == 0 && g.z == 0 {
        0
    } else {
        intensity_index_spec(diffuse_spec(light, norm_spec(g)), plen)
    }
}

/// Chooses the palette entry for the surface point `pos` under the unit light
/// direction `light`, out of a palette of `palette_len` entries ordered from
/// darkest to brightest.  The result is always a valid palette index.
pub fn shade(pos: &Vec3, light: &Vec3, palette_len: usize) -> (idx: usize)
    requires
        in_bounds(pos@, POS_MAX as int),
        in_bounds(light@, SCALE as int),
        1 <= palette_len <= PALETTE_MAX,
    ensures
        idx as int == shade_spec(pos@, light@, palette_len as int),
        idx < palette_len,
{
    let d0 = sdf(pos);
    let px = Vec3::new(pos.x + DT, pos.y, pos.z);
    let py = Vec3::new(pos.x, pos.y + DT, pos.z);
    let pz = Vec3::new(pos.x, pos.y, pos.z + DT);
    proof {
        lemma_sdf_pos_bounded(pos@, d0 as int, POS_MAX as int);
    }
    let sx = sdf(&px);
    let sy = sdf(&py);
    let sz = sdf(&pz);
    proof {
        lemma_sdf_pos_bounded(px@, sx as int, POS_MAX as int + 1);
        lemma_sdf_pos_bounded(py@, sy as int, POS_MAX as int + 1);
        lemma_sdf_pos_bounded(pz@, sz as int, POS_MAX as int + 1);
    }
    let gx = (sx - d0) * SCALE;
    let gy = (sy - d0) * SCALE;
    let gz = (sz - d0) * SCALE;
    if gx == 0 && gy == 0 && gz == 0 {
        return 0;
    }
    let mut n = Vec3::new(gx, gy, gz);
    n.normalize();
    proof {
        lemma_mul_magnitude_bound(light.x as int, n.x as int, SCALE as int, SCALE as int);
        lemma_mul_magnitude_bound(light.y as int, n.y as int, SCALE as int, SCALE as int);
        lemma_mul_magnitude_bound(light.z as int, n.z as int, SCALE as int, SCALE as int);
    }
    let s = light.x * n.x + light.y * n.y + light.z * n.z;
    let d = if s >= 0 {
        (s as u64 / (SCALE as u64)) as i64
    } else {
        -(((-s) as u64 / (SCALE as u64)) as i64)
    };
    proof {
        lemma_tdiv_bound(s as int, 3 * (SCALE as int) * (SCALE as int), SCALE as int);
    }
    let v = d + SCALE;
    if v < 0 {
        return 0;
    }
    proof {
        lemma_mul_magnitude_bound(v as int, palette_len as int, 4 * SCALE as int, PALETTE_MAX as int);
    }
    let q = (v as u64) * (palette_len as u64);
    let idx = ((q / (2 * SCALE as u64)) % (palette_len as u64)) as usize;
    idx
}

} // verus!
