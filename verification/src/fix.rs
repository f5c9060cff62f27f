use vstd::prelude::*;

verus! {

/// Number of fixed-point units in one whole unit of distance: one unit is 1e-6,
/// so a value of `SCALE` stands for the real number 1.0.
pub const SCALE: i64 = 1_000_000;

/// Upper bound (exclusive) on the magnitudes accepted by `mul_fix`.
pub const MUL_MAX: i64 = 3_000_000_000_000;

/// Largest length argument accepted by `div_unit`.
pub const DIV_LEN_MAX: i64 = 2_000_000_000_000_000_000;

/// 2^61; `isqrt` accepts inputs below `SQRT_IN_BOUND * SQRT_IN_BOUND`.
pub const SQRT_IN_BOUND: u64 = 2_305_843_009_213_693_952;

/// `r` is the floor of the square root of `n`.
pub open spec fn is_sqrt(n: int, r: int) -> bool {
    0 <= r && r * r <= n && n < (r + 1) * (r + 1)
}

/// The floor of the square root of `n` (meaningful for `n >= 0`).
pub open spec fn sqrt_floor(n: int) -> int {
    choose|r: int| is_sqrt(n, r)
}

/// Division truncating toward zero, for a positive divisor.
pub open spec fn tdiv(a: int, d: int) -> int
    recommends
        d > 0,
{
    if a >= 0 {
        a / d
    } else {
        -((-a) / d)
    }
}

/// The floor square root is unique, so any witness equals `sqrt_floor(n)`.
pub proof fn lemma_sqrt_floor_unique(n: int, r: int)
    requires
        is_sqrt(n, r),
    ensures
        sqrt_floor(n) == r,
{
    let c = sqrt_floor(n);
    assert(is_sqrt(n, c));
    assert(c == r) by (nonlinear_arith)
        requires
            0 <= c,
            c * c <= n,
            n < (c + 1) * (c + 1),
            0 <= r,
            r * r <= n,
            n < (r + 1) * (r + 1),
    ;
}

/// Every nonnegative number has a floor square root, so `sqrt_floor` always
/// satisfies `is_sqrt` on nonnegative arguments.
pub proof fn lemma_sqrt_floor_exists(n: int)
    requires
        0 <= n,
    ensures
        is_sqrt(n, sqrt_floor(n)),
    decreases n,
{
    if n == 0 {
        assert(is_sqrt(0, 0));
    } else {
        lemma_sqrt_floor_exists(n - 1);
        let r = sqrt_floor(n - 1);
        if (r + 1) * (r + 1) <= n {
            assert(is_sqrt(n, r + 1)) by (nonlinear_arith)
                requires
                    0 <= r,
                    n - 1 < (r + 1) * (r + 1),
                    (r + 1) * (r + 1) <= n,
            ;
        } else {
            assert(is_sqrt(n, r));
        }
    }
}

/// A floor square root of a number strictly below `b * b` is strictly below `b`.
pub proof fn lemma_sqrt_lt(n: int, r: int, b: int)
    requires
        is_sqrt(n, r),
        0 <= b,
        n < b * b,
    ensures
        r < b,
{
    assert(r < b) by (nonlinear_arith)
        requires
            0 <= r,
            r * r <= n,
            0 <= b,
            n < b * b,
    ;
}

/// A floor square root of a number at most `b * b` is at most `b`.
pub proof fn lemma_sqrt_le(n: int, r: int, b: int)
    requires
        is_sqrt(n, r),
        0 <= b,
        n <= b * b,
    ensures
        r <= b,
{
    assert(r <= b) by (nonlinear_arith)
        requires
            0 <= r,
            r * r <= n,
            0 <= b,
            n <= b * b,
    ;
}

/// Any value whose square is at most `n` lies within the floor square root of `n`.
pub proof fn lemma_sq_le_sqrt(n: int, r: int, c: int)
    requires
        is_sqrt(n, r),
        c * c <= n,
    ensures
        -r <= c <= r,
{
    assert(-r <= c <= r) by (nonlinear_arith)
        requires
            0 <= r,
            n < (r + 1) * (r + 1),
            c * c <= n,
    ;
}

/// Floor square root by binary search on the result.
pub fn isqrt(n: u128) -> (r: u64)
    requires
        n < (SQRT_IN_BOUND as int) * (SQRT_IN_BOUND as int),
    ensures
        is_sqrt(n as int, r as int),
{
    let mut lo: u128 = 0;
    let mut hi: u128 = SQRT_IN_BOUND as u128;
    while hi - lo > 1
        invariant
            lo < hi,
            hi <= SQRT_IN_BOUND as u128,
            (lo as int) * (lo as int) <= n as int,
            (n as int) < (hi as int) * (hi as int),
        decreases hi - lo,
    {
        let mid = lo + (hi - lo) / 2;
        assert((mid as int) * (mid as int) < (SQRT_IN_BOUND as int) * (SQRT_IN_BOUND as int))
            by (nonlinear_arith)
            requires
                0 <= mid as int,
                (mid as int) < SQRT_IN_BOUND as int,
        ;
        if mid * mid <= n {
            lo = mid;
        } else {
            hi = mid;
        }
    }
    lo as u64
}

/// Fixed-point product `a * b / SCALE`, truncated toward zero.
pub fn mul_fix(a: i64, b: i64) -> (r: i64)
    requires
        -MUL_MAX <= a <= MUL_MAX,
        -MUL_MAX <= b <= MUL_MAX,
    ensures
        r == tdiv(a * b, SCALE as int),
{
    let neg = (a < 0) != (b < 0);
    let ma: u128 = if a < 0 {
        (-(a as i128)) as u128
    } else {
        a as u128
    };
    let mb: u128 = if b < 0 {
        (-(b as i128)) as u128
    } else {
        b as u128
    };
    assert((ma as int) * (mb as int) <= (MUL_MAX as int) * (MUL_MAX as int)) by (nonlinear_arith)
        requires
            0 <= ma as int <= MUL_MAX as int,
            0 <= mb as int <= MUL_MAX as int,
    ;
    let q = ma * mb;
    let d = (q / (SCALE as u128)) as i64;
    proof {
        lemma_magnitude_product(a as int, b as int, ma as int, mb as int);
        assert(q as int / (SCALE as int) <= (MUL_MAX as int) * (MUL_MAX as int) / (SCALE as int))
            by {
                vstd::arithmetic::div_mod::lemma_div_is_ordered(
                    q as int,
                    (MUL_MAX as int) * (MUL_MAX as int),
                    SCALE as int,
                );
            };
    }
    if neg {
        -d
    } else {
        d
    }
}

/// The product of the magnitudes of `a` and `b` is the magnitude of `a * b`,
/// and the sign of `a * b` follows the signs of `a` and `b`.
proof fn lemma_magnitude_product(a: int, b: int, ma: int, mb: int)
    requires
        ma == if a >= 0 { a } else { -a },
        mb == if b >= 0 { b } else { -b },
    ensures
        ma * mb == if (a >= 0) == (b >= 0) { a * b } else { -(a * b) },
        ((a >= 0) == (b >= 0)) ==> a * b >= 0,
        ((a >= 0) != (b >= 0)) ==> a * b <= 0,
{
    assert(ma * mb == if (a >= 0) == (b >= 0) { a * b } else { -(a * b) }) by (nonlinear_arith)
        requires
            ma == if a >= 0 { a } else { -a },
            mb == if b >= 0 { b } else { -b },
    ;
    assert(((a >= 0) == (b >= 0)) ==> a * b >= 0) by (nonlinear_arith);
    assert(((a >= 0) != (b >= 0)) ==> a * b <= 0) by (nonlinear_arith);
}

/// A truncated quotient is no larger in magnitude than the quotient of any
/// magnitude bound of the dividend.
pub proof fn lemma_tdiv_bound(x: int, m: int, d: int)
    requires
        -m <= x <= m,
        d > 0,
    ensures
        -(m / d) <= tdiv(x, d) <= m / d,
{
    if x >= 0 {
        vstd::arithmetic::div_mod::lemma_div_is_ordered(x, m, d);
        vstd::arithmetic::div_mod::lemma_div_pos_is_pos(x, d);
    } else {
        vstd::arithmetic::div_mod::lemma_div_is_ordered(-x, m, d);
        vstd::arithmetic::div_mod::lemma_div_pos_is_pos(-x, d);
    }
}

/// The magnitude of a product is bounded by the product of magnitude bounds.
pub proof fn lemma_mul_magnitude_bound(a: int, b: int, ba: int, bb: int)
    requires
        -ba <= a <= ba,
        -bb <= b <= bb,
    ensures
        -(ba * bb) <= a * b <= ba * bb,
{
    assert(-(ba * bb) <= a * b <= ba * bb) by (nonlinear_arith)
        requires
            -ba <= a <= ba,
            -bb <= b <= bb,
    ;
}

/// Fixed-point quotient `c * SCALE / len`, truncated toward zero.
/// Because `|c| <= len`, the result is a fixed-point value of magnitude at most 1.
pub fn div_unit(c: i64, len: i64) -> (r: i64)
    requires
        0 < len <= DIV_LEN_MAX,
        -len <= c <= len,
    ensures
        r == tdiv(c * (SCALE as int), len as int),
        -SCALE <= r <= SCALE,
{
    let neg = c < 0;
    let mc: u128 = if c < 0 {
        (-(c as i128)) as u128
    } else {
        c as u128
    };
    assert((mc as int) * (SCALE as int) <= (len as int) * (SCALE as int)) by (nonlinear_arith)
        requires
            0 <= mc as int <= len as int,
            0 < SCALE as int,
    ;
    let q = mc * (SCALE as u128);
    let d = (q / (len as u128)) as i64;
    proof {
        lemma_magnitude_product(c as int, SCALE as int, mc as int, SCALE as int);
        vstd::arithmetic::div_mod::lemma_div_is_ordered(
            q as int,
            (len as int) * (SCALE as int),
            len as int,
        );
        vstd::arithmetic::div_mod::lemma_div_multiples_vanish(SCALE as int, len as int);
        assert((len as int) * (SCALE as int) == (SCALE as int) * (len as int))
            by (nonlinear_arith);
    }
    if neg {
        -d
    } else {
        d
    }
}

} // verus!
