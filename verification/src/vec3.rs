use vstd::prelude::*;

use crate::fix::{
    is_sqrt, isqrt, div_unit, lemma_sq_le_sqrt, lemma_sqrt_floor_exists, lemma_sqrt_floor_unique,
    lemma_sqrt_le, lemma_sqrt_lt, mul_fix, sqrt_floor, tdiv, DIV_LEN_MAX, MUL_MAX, SCALE,
    SQRT_IN_BOUND,
};

verus! {

/// Coordinate bound accepted by `length` and `normalize`.
pub const COORD_MAX: i64 = 1_000_000_000_000_000_000;

/// Every length of a vector within `COORD_MAX` stays within this bound.
pub const LEN_MAX: i64 = 1_800_000_000_000_000_000;

/// Coordinate bound accepted by `add` and `subtrate`.
pub const ADD_MAX: i64 = 4_000_000_000_000_000_000;

/// Mathematical view of a vector: three unbounded fixed-point coordinates.
pub ghost struct V3 {
    pub x: int,
    pub y: int,
    pub z: int,
}

/// A three-component vector with fixed-point coordinates in units of 1e-6.
#[derive(Clone, Copy, Debug, PartialEq, Eq, Structural)]
pub struct Vec3 {
    pub x: i64,
    pub y: i64,
    pub z: i64,
}

impl View for Vec3 {
    type V = V3;

    open spec fn view(&self) -> V3 {
        V3 { x: self.x as int, y: self.y as int, z: self.z as int }
    }
}

/// All three coordinates lie within magnitude `m`.
pub open spec fn in_bounds(v: V3, m: int) -> bool {
    &&& -m <= v.x <= m
    &&& -m <= v.y <= m
    &&& -m <= v.z <= m
}

/// The squared Euclidean norm.
pub open spec fn sq_norm(v: V3) -> int {
    v.x * v.x + v.y * v.y + v.z * v.z
}

/// The fixed-point Euclidean length: the floor square root of the squared norm.
pub open spec fn len_spec(v: V3) -> int {
    sqrt_floor(sq_norm(v))
}

/// The normalized vector: each coordinate scaled by `SCALE` and divided by the length.
pub open spec fn norm_spec(v: V3) -> V3 {
    let l = len_spec(v);
    V3 { x: tdiv(v.x * SCALE, l), y: tdiv(v.y * SCALE, l), z: tdiv(v.z * SCALE, l) }
}

/// The vector scaled by the fixed-point factor `f`.
pub open spec fn scale_spec(v: V3, f: int) -> V3 {
    V3 { x: tdiv(v.x * f, SCALE as int), y: tdiv(v.y * f, SCALE as int), z: tdiv(v.z * f, SCALE as int) }
}

/// Component-wise sum.
pub open spec fn add_spec(a: V3, b: V3) -> V3 {
    V3 { x: a.x + b.x, y: a.y + b.y, z: a.z + b.z }
}

/// Component-wise difference.
pub open spec fn sub_spec(a: V3, b: V3) -> V3 {
    V3 { x: a.x - b.x, y: a.y - b.y, z: a.z - b.z }
}

impl Vec3 {
    pub fn new(x: i64, y: i64, z: i64) -> (v: Vec3)
        ensures
            v@ == (V3 { x: x as int, y: y as int, z: z as int }),
    {
        Vec3 { x, y, z }
    }

    /// The Euclidean length, rounded down to the nearest fixed-point unit.
    pub fn length(&self) -> (r: i64)
        requires
            in_bounds(self@, COORD_MAX as int),
        ensures
            r == len_spec(self@),
            is_sqrt(sq_norm(self@), r as int),
            0 <= r <= LEN_MAX,
    {
        proof {
            lemma_square_within(self.x as int, COORD_MAX as int);
            lemma_square_within(self.y as int, COORD_MAX as int);
            lemma_square_within(self.z as int, COORD_MAX as int);
        }
        let xx = (self.x as i128) * (self.x as i128);
        let yy = (self.y as i128) * (self.y as i128);
        let zz = (self.z as i128) * (self.z as i128);
        let n = (xx + yy + zz) as u128;
        let r = isqrt(n);
        proof {
            lemma_sqrt_floor_unique(sq_norm(self@), r as int);
            lemma_sqrt_le(n as int, r as int, LEN_MAX as int);
        }
        r as i64
    }

    /// Scales the vector to length 1 (in fixed point), dividing each coordinate
    /// by the current length.  The vector must not be zero.
    pub fn normalize(&mut self)
        requires
            in_bounds(old(self)@, COORD_MAX as int),
            !(old(self).x == 0 && old(self).y == 0 && old(self).z == 0),
        ensures
            final(self)@ == norm_spec(old(self)@),
            in_bounds(final(self)@, SCALE as int),
    {
        let l = self.length();
        proof {
            lemma_square_positive(old(self)@);
            lemma_square_within(self.x as int, COORD_MAX as int);
            lemma_square_within(self.y as int, COORD_MAX as int);
            lemma_square_within(self.z as int, COORD_MAX as int);
            lemma_sq_le_sqrt(sq_norm(self@), l as int, self.x as int);
            lemma_sq_le_sqrt(sq_norm(self@), l as int, self.y as int);
            lemma_sq_le_sqrt(sq_norm(self@), l as int, self.z as int);
        }
        self.x = div_unit(self.x, l);
        self.y = div_unit(self.y, l);
        self.z = div_unit(self.z, l);
    }

    /// The vector scaled by the fixed-point factor `fac`.
    pub fn multiply(&self, fac: i64) -> (r: Vec3)
        requires
            in_bounds(self@, MUL_MAX as int),
            -MUL_MAX <= fac <= MUL_MAX,
        ensures
            r@ == scale_spec(self@, fac as int),
    {
        Vec3 { x: mul_fix(self.x, fac), y: mul_fix(self.y, fac), z: mul_fix(self.z, fac) }
    }

    /// Component-wise sum.
    pub fn add(&self, other: &Vec3) -> (r: Vec3)
        requires
            in_bounds(self@, ADD_MAX as int),
            in_bounds(other@, ADD_MAX as int),
        ensures
            r@ == add_spec(self@, other@),
    {
        Vec3 { x: self.x + other.x, y: self.y + other.y, z: self.z + other.z }
    }

    /// Component-wise difference.
    pub fn subtrate(&self, other: &Vec3) -> (r: Vec3)
        requires
            in_bounds(self@, ADD_MAX as int),
            in_bounds(other@, ADD_MAX as int),
        ensures
            r@ == sub_spec(self@, other@),
    {
        Vec3 { x: self.x - other.x, y: self.y - other.y, z: self.z - other.z }
    }
}

/// The square of a value within `m` is nonnegative and at most `m * m`.
proof fn lemma_square_within(c: int, m: int)
    requires
        -m <= c <= m,
    ensures
        0 <= c * c <= m * m,
{
    assert(0 <= c * c <= m * m) by (nonlinear_arith)
        requires
            -m <= c <= m,
    ;
}

/// The length of a vector whose coordinates lie within `m` is at most `2 * m`.
pub proof fn lemma_len_bounded(p: V3, r: int, m: int)
    requires
        is_sqrt(sq_norm(p), r),
        in_bounds(p, m),
        0 <= m,
    ensures
        0 <= r <= 2 * m,
{
    lemma_square_within(p.x, m);
    lemma_square_within(p.y, m);
    lemma_square_within(p.z, m);
    assert(3 * (m * m) <= (2 * m) * (2 * m)) by (nonlinear_arith)
        requires
            0 <= m,
    ;
    lemma_sqrt_le(sq_norm(p), r, 2 * m);
}

/// One normalized component `t = tdiv(c * SCALE, l)` squares to at most
/// `c * c * SCALE * SCALE / (l * l)`, and falls short of it by less than the
/// rounding loss `2 * SCALE * l * l`, both stated without division.
proof fn lemma_unit_component(c: int, l: int)
    requires
        0 < l,
        -l <= c <= l,
    ensures
        tdiv(c * SCALE, l) * tdiv(c * SCALE, l) * (l * l) <= (c * c) * ((SCALE as int)
            * (SCALE as int)),
        (c * c) * ((SCALE as int) * (SCALE as int)) - 2 * (SCALE as int) * (l * l) <= tdiv(
            c * SCALE,
            l,
        ) * tdiv(c * SCALE, l) * (l * l),
{
    let s = SCALE as int;
    let m = if c >= 0 {
        c
    } else {
        -c
    };
    let q = (m * s) / l;
    let rem = (m * s) % l;
    vstd::arithmetic::div_mod::lemma_fundamental_div_mod(m * s, l);
    vstd::arithmetic::div_mod::lemma_mod_division_less_than_divisor(m * s, l);
    vstd::arithmetic::div_mod::lemma_div_pos_is_pos(m * s, l);
    let t = tdiv(c * s, l);
    assert(t == q || t == -q);
    assert(t * t == q * q) by (nonlinear_arith)
        requires
            t == q || t == -q,
    ;
    assert(c * c == m * m) by (nonlinear_arith)
        requires
            m == c || m == -c,
    ;
    assert(q * q * (l * l) <= (m * m) * (s * s) && (m * m) * (s * s) - 2 * s * (l * l) <= q * q * (
    l * l)) by (nonlinear_arith)
        requires
            0 < l,
            0 < s,
            0 <= m <= l,
            0 <= q,
            0 <= rem < l,
            m * s == l * q + rem,
    ;
}

/// Normalizing a vector whose length is at least one whole unit yields a
/// vector whose length is one whole unit, up to four fixed-point units of
/// rounding (an error of at most 4e-6).
pub proof fn lemma_normalize_unit_length(v: V3)
    requires
        in_bounds(v, COORD_MAX as int),
        SCALE as int <= len_spec(v),
    ensures
        SCALE as int - 4 <= len_spec(norm_spec(v)) <= SCALE as int,
{
    let s = SCALE as int;
    let n = sq_norm(v);
    let l = len_spec(v);
    lemma_square_within(v.x, COORD_MAX as int);
    lemma_square_within(v.y, COORD_MAX as int);
    lemma_square_within(v.z, COORD_MAX as int);
    lemma_sqrt_floor_exists(n);
    assert(is_sqrt(n, l));
    lemma_sq_le_sqrt(n, l, v.x);
    lemma_sq_le_sqrt(n, l, v.y);
    lemma_sq_le_sqrt(n, l, v.z);
    let tx = tdiv(v.x * SCALE, l);
    let ty = tdiv(v.y * SCALE, l);
    let tz = tdiv(v.z * SCALE, l);
    let w = norm_spec(v);
    assert(w == (V3 { x: tx, y: ty, z: tz }));
    let nw = sq_norm(w);
    lemma_unit_component(v.x, l);
    lemma_unit_component(v.y, l);
    lemma_unit_component(v.z, l);
    assert(nw * (l * l) <= n * (s * s) && n * (s * s) - 6 * s * (l * l) <= nw * (l * l))
        by (nonlinear_arith)
        requires
            nw == tx * tx + ty * ty + tz * tz,
            n == v.x * v.x + v.y * v.y + v.z * v.z,
            tx * tx * (l * l) <= (v.x * v.x) * (s * s),
            ty * ty * (l * l) <= (v.y * v.y) * (s * s),
            tz * tz * (l * l) <= (v.z * v.z) * (s * s),
            (v.x * v.x) * (s * s) - 2 * s * (l * l) <= tx * tx * (l * l),
            (v.y * v.y) * (s * s) - 2 * s * (l * l) <= ty * ty * (l * l),
            (v.z * v.z) * (s * s) - 2 * s * (l * l) <= tz * tz * (l * l),
    ;
    assert(nw < (s + 1) * (s + 1)) by (nonlinear_arith)
        requires
            nw * (l * l) <= n * (s * s),
            n < (l + 1) * (l + 1),
            0 < s <= l,
    ;
    assert((s - 4) * (s - 4) <= nw) by (nonlinear_arith)
        requires
            n * (s * s) - 6 * s * (l * l) <= nw * (l * l),
            l * l <= n,
            s == 1_000_000,
            0 < s <= l,
    ;
    assert(tx * tx >= 0 && ty * ty >= 0 && tz * tz >= 0) by (nonlinear_arith);
    lemma_sqrt_floor_exists(nw);
    let r = len_spec(w);
    assert(is_sqrt(nw, r));
    lemma_sq_le_sqrt(nw, r, s - 4);
    lemma_sqrt_lt(nw, r, s + 1);
}

/// A nonzero vector has a positive squared norm, so its length is at least 1.
proof fn lemma_square_positive(v: V3)
    requires
        !(v.x == 0 && v.y == 0 && v.z == 0),
    ensures
        sq_norm(v) >= 1,
{
    assert(v.x * v.x + v.y * v.y + v.z * v.z >= 1) by (nonlinear_arith)
        requires
            !(v.x == 0 && v.y == 0 && v.z == 0),
    ;
}

} // verus!
