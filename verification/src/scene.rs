use vstd::prelude::*;

use crate::fix::{
    is_sqrt, lemma_sq_le_sqrt, lemma_sqrt_floor_exists, lemma_sqrt_floor_unique, lemma_sqrt_lt,
    sqrt_floor,
};
use crate::vec3::{in_bounds, len_spec, lemma_len_bounded, sq_norm, Vec3, V3, COORD_MAX};

verus! {

/// Radius of the one sphere in the scene: 0.2 in fixed point.
pub const RADIUS: i64 = 200_000;

/// Magnitude bound on the positions the ray marcher hands to the distance
/// field and the shader.
pub const POS_MAX: i64 = 30_000_000_000;

/// The signed distance from `p` to the scene surface: negative inside the
/// sphere, zero on it, positive outside.
pub open spec fn sdf_spec(p: V3) -> int {
    len_spec(p) - RADIUS as int
}

/// Signed distance from `pos` to the nearest scene surface.  The scene is one
/// sphere of radius `RADIUS` centered on the origin.
pub fn sdf(pos: &Vec3) -> (r: i64)
    requires
        in_bounds(pos@, COORD_MAX as int),
    ensures
        r == sdf_spec(pos@),
        is_sqrt(sq_norm(pos@), r + RADIUS as int),
{
    let center = Vec3::new(0, 0, 0);
    let d = pos.subtrate(&center);
    assert(d@ == pos@);
    d.length() - RADIUS
}

/// The signed distance at the origin is exactly minus the radius.
pub proof fn lemma_sdf_origin()
    ensures
        sdf_spec(V3 { x: 0, y: 0, z: 0 }) == -(RADIUS as int),
{
    let o = V3 { x: 0, y: 0, z: 0 };
    assert(is_sqrt(sq_norm(o), 0));
    lemma_sqrt_floor_unique(sq_norm(o), 0);
}

/// At any point whose distance from the origin is `d`, the signed distance is
/// exactly `d - RADIUS`.
pub proof fn lemma_sdf_at_distance(p: V3, d: int)
    requires
        len_spec(p) == d,
    ensures
        sdf_spec(p) == d - RADIUS as int,
{
}

/// The distance field cannot jump: moving one fixed-point unit along the x
/// axis changes the signed distance by at most one unit.  (By the symmetry of
/// `sq_norm` in its three coordinates, the same holds along the other axes.)
pub proof fn lemma_sdf_lipschitz_axis(p: V3)
    ensures
        sdf_spec(p) - 1 <= sdf_spec(V3 { x: p.x + 1, y: p.y, z: p.z }) <= sdf_spec(p) + 1,
{
    let q = V3 { x: p.x + 1, y: p.y, z: p.z };
    let n = sq_norm(p);
    let m = sq_norm(q);
    assert(n >= 0 && m >= 0 && m == n + 2 * p.x + 1) by (nonlinear_arith)
        requires
            n == p.x * p.x + p.y * p.y + p.z * p.z,
            m == (p.x + 1) * (p.x + 1) + p.y * p.y + p.z * p.z,
    ;
    lemma_sqrt_floor_exists(n);
    lemma_sqrt_floor_exists(m);
    let l = sqrt_floor(n);
    let k = sqrt_floor(m);
    assert(p.x * p.x <= n) by (nonlinear_arith)
        requires
            n == p.x * p.x + p.y * p.y + p.z * p.z,
    ;
    lemma_sq_le_sqrt(n, l, p.x);
    // one unit out: m <= n + 2 l + 1 < (l + 2) * (l + 2)
    assert(m < (l + 2) * (l + 2)) by (nonlinear_arith)
        requires
            m <= n + 2 * l + 1,
            n < (l + 1) * (l + 1),
            0 <= l,
    ;
    lemma_sqrt_lt(m, k, l + 2);
    // one unit in: m >= n - 2 l + 1 >= (l - 1) * (l - 1)
    if l >= 1 {
        assert((l - 1) * (l - 1) <= m) by (nonlinear_arith)
            requires
                n - 2 * l + 1 <= m,
                l * l <= n,
                1 <= l,
        ;
        lemma_sq_le_sqrt(m, k, l - 1);
    }
}

/// The signed distance of an in-range position stays within fixed bounds.
pub proof fn lemma_sdf_pos_bounded(p: V3, r: int, m: int)
    requires
        is_sqrt(sq_norm(p), r + RADIUS as int),
        in_bounds(p, m),
        0 <= m,
    ensures
        -(RADIUS as int) <= r <= 2 * m,
{
    lemma_len_bounded(p, r + RADIUS as int, m);
}

} // verus!
