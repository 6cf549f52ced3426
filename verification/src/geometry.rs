//! Fixed-point 2D geometry: coordinates are `i64` values in units of
//! `1 / SCALE` of a spatial unit. All derived quantities (squared distances,
//! dot products, integer square roots, rounded divisions) are exact integer
//! computations, so every geometric predicate used by the spatial queries is
//! stated and proved without approximation.
use vstd::prelude::*;
use vstd::arithmetic::div_mod::{
    lemma_div_is_ordered, lemma_div_multiples_vanish_fancy, lemma_div_pos_is_pos,
};

verus! {

/// Fixed-point sub-units per spatial unit.
pub const SCALE: i64 = 1000;

/// Largest coordinate magnitude accepted anywhere in the library, in
/// fixed-point sub-units (one million spatial units). Keeping every coordinate
/// within this bound lets squared distances fit in `u64` and dot products in
/// `i128`.
pub const MAX_COORD: i64 = 1_000_000_000;

/// Largest accepted density, in fixed-point sub-units (one thousand points per
/// spatial unit).
pub const MAX_DENSITY: i64 = 1_000_000;

/// A 2D position or direction in fixed-point coordinates.
#[derive(Clone, Copy, PartialEq, Eq, Structural, Debug)]
pub struct Vec2i {
    pub x: i64,
    pub y: i64,
}

impl Vec2i {
    pub open spec fn spec_new(x: int, y: int) -> Vec2i {
        Vec2i { x: x as i64, y: y as i64 }
    }

    pub fn new(x: i64, y: i64) -> (r: Vec2i)
        ensures
            r.x == x,
            r.y == y,
    {
        Vec2i { x, y }
    }
}

/// The coordinate lies within the accepted range.
pub open spec fn coord_ok(c: int) -> bool {
    -MAX_COORD <= c <= MAX_COORD
}

/// Both coordinates of `v` lie within the accepted range.
pub open spec fn in_bounds(v: Vec2i) -> bool {
    coord_ok(v.x as int) && coord_ok(v.y as int)
}

/// Exact squared Euclidean distance between `a` and `b`.
pub open spec fn dist2(a: Vec2i, b: Vec2i) -> int {
    (a.x - b.x) * (a.x - b.x) + (a.y - b.y) * (a.y - b.y)
}

/// Exact dot product of `a` and `b`.
pub open spec fn dot(a: Vec2i, b: Vec2i) -> int {
    a.x * b.x + a.y * b.y
}

/// Squared distance, computed exactly. In-bounds coordinates keep the result
/// within `u64`.
pub fn dist2_u64(a: Vec2i, b: Vec2i) -> (r: u64)
    requires
        in_bounds(a),
        in_bounds(b),
    ensures
        r == dist2(a, b),
{
    let dx: i64 = a.x - b.x;
    let dy: i64 = a.y - b.y;
    proof {
        assert(0 <= (dx as int) * (dx as int) <= 4_000_000_000_000_000_000) by (nonlinear_arith)
            requires -2_000_000_000 <= dx <= 2_000_000_000;
        assert(0 <= (dy as int) * (dy as int) <= 4_000_000_000_000_000_000) by (nonlinear_arith)
            requires -2_000_000_000 <= dy <= 2_000_000_000;
    }
    let q: i128 = (dx as i128) * (dx as i128) + (dy as i128) * (dy as i128);
    q as u64
}

/// Dot product of `a - r` with `d`, computed exactly in `i128`.
pub fn dot_from(a: Vec2i, r: Vec2i, d: Vec2i) -> (res: i128)
    requires
        in_bounds(a),
        in_bounds(r),
        in_bounds(d),
    ensures
        res == dot(Vec2i::spec_new(a.x - r.x, a.y - r.y), d),
{
    let dx: i64 = a.x - r.x;
    let dy: i64 = a.y - r.y;
    proof {
        assert(-2_000_000_000_000_000_000 <= (dx as int) * (d.x as int)
            <= 2_000_000_000_000_000_000) by (nonlinear_arith)
            requires -2_000_000_000 <= dx <= 2_000_000_000 && -1_000_000_000 <= d.x
                <= 1_000_000_000;
        assert(-2_000_000_000_000_000_000 <= (dy as int) * (d.y as int)
            <= 2_000_000_000_000_000_000) by (nonlinear_arith)
            requires -2_000_000_000 <= dy <= 2_000_000_000 && -1_000_000_000 <= d.y
                <= 1_000_000_000;
    }
    (dx as i128) * (d.x as i128) + (dy as i128) * (d.y as i128)
}

/// `p / q` rounded to the nearest integer, halves away from zero
/// (meaningful for `q >= 1`).
pub open spec fn round_div_near(p: int, q: int) -> int {
    if p >= 0 {
        (2 * p + q) / (2 * q)
    } else {
        -((2 * (-p) + q) / (2 * q))
    }
}

/// Coordinate of the point a fraction `j / n` of the way from `u` to `v`,
/// rounded to the nearest sub-unit.
pub open spec fn lerp_coord(u: int, v: int, j: int, n: int) -> int {
    u + round_div_near((v - u) * j, n)
}

/// Point a fraction `j / n` of the way from `a` to `b`, each coordinate
/// rounded to the nearest sub-unit.
pub open spec fn lerp_spec(a: Vec2i, b: Vec2i, j: int, n: int) -> Vec2i {
    Vec2i::spec_new(
        lerp_coord(a.x as int, b.x as int, j, n),
        lerp_coord(a.y as int, b.y as int, j, n),
    )
}

/// Number of points sampled along a segment from `a` to `b` at density `d`
/// (fixed-point, `SCALE` sub-units per point-per-unit), not counting the
/// segment's start vertex: the segment's true length times the density,
/// rounded to the nearest integer (halves up), and at least 1.
pub open spec fn seg_samples(a: Vec2i, b: Vec2i, d: int) -> int {
    let r = (sqrt_floor(4 * dist2(a, b) * d * d) + 1_000_000) / 2_000_000;
    if r >= 1 {
        r
    } else {
        1
    }
}

/// `r` is the integer square root of `n`, rounded down.
pub open spec fn is_isqrt(n: int, r: int) -> bool {
    0 <= r && r * r <= n && n < (r + 1) * (r + 1)
}

/// The integer square root of `n`, rounded down (meaningful for `n >= 0`).
pub open spec fn sqrt_floor(n: int) -> int {
    choose|r: int| is_isqrt(n, r)
}

/// The integer square root is unique: any witness equals `sqrt_floor`.
pub proof fn lemma_isqrt_unique(n: int, r1: int, r2: int)
    requires
        is_isqrt(n, r1),
        is_isqrt(n, r2),
    ensures
        r1 == r2,
{
    if r1 < r2 {
        assert((r1 + 1) * (r1 + 1) <= r2 * r2) by (nonlinear_arith)
            requires 0 <= r1 && 0 <= r2 && r1 < r2;
    }
    if r2 < r1 {
        assert((r2 + 1) * (r2 + 1) <= r1 * r1) by (nonlinear_arith)
            requires 0 <= r1 && 0 <= r2 && r2 < r1;
    }
}

/// A witness pins down `sqrt_floor`.
pub proof fn lemma_isqrt_is_sqrt_floor(n: int, r: int)
    requires
        is_isqrt(n, r),
    ensures
        sqrt_floor(n) == r,
{
    assert(is_isqrt(n, sqrt_floor(n)));
    lemma_isqrt_unique(n, sqrt_floor(n), r);
}

/// Integer square root by bisection over `u128`.
pub fn isqrt(n: u128) -> (r: u128)
    ensures
        is_isqrt(n as int, r as int),
        r == sqrt_floor(n as int),
{
    if n == 0 {
        proof { lemma_isqrt_is_sqrt_floor(n as int, 0); }
        return 0;
    }
    let mut lo: u128 = 0;
    let mut hi: u128 = 18_446_744_073_709_551_616; // 2^64
    proof {
        assert(hi * hi > n) by (nonlinear_arith)
            requires hi == 18_446_744_073_709_551_616u128 && n <= u128::MAX;
    }
    while hi - lo > 1
        invariant
            0 <= lo < hi,
            hi <= 18_446_744_073_709_551_616,
            lo * lo <= n,
            n < hi * hi,
        decreases hi - lo,
    {
        let mid: u128 = lo + (hi - lo) / 2;
        proof {
            assert(mid * mid < u128::MAX) by (nonlinear_arith)
                requires 0 < mid < 18_446_744_073_709_551_616u128;
        }
        if mid * mid <= n {
            lo = mid;
        } else {
            hi = mid;
        }
    }
    proof { lemma_isqrt_is_sqrt_floor(n as int, lo as int); }
    lo
}

/// Division rounded to nearest stays between 0 and `c` when `0 <= p <= c * q`.
pub proof fn lemma_round_div_near_range(p: int, q: int, c: int)
    requires
        1 <= q,
        0 <= p <= c * q,
    ensures
        0 <= round_div_near(p, q) <= c,
{
    lemma_div_pos_is_pos(2 * p + q, 2 * q);
    assert(2 * p + q <= c * (2 * q) + q) by (nonlinear_arith)
        requires p <= c * q;
    lemma_div_is_ordered(2 * p + q, c * (2 * q) + q, 2 * q);
    lemma_div_multiples_vanish_fancy(c, q, 2 * q);
}

/// At the far end of the interpolation the endpoint is reproduced exactly.
pub proof fn lemma_round_div_near_exact(m: int, q: int)
    requires
        1 <= q,
    ensures
        round_div_near(m * q, q) == m,
{
    if m >= 0 {
        assert(2 * (m * q) + q == m * (2 * q) + q) by (nonlinear_arith);
        assert(0 <= m * q) by (nonlinear_arith)
            requires 0 <= m && 1 <= q;
        lemma_div_multiples_vanish_fancy(m, q, 2 * q);
    } else {
        assert(2 * (-(m * q)) + q == (-m) * (2 * q) + q) by (nonlinear_arith);
        assert(m * q < 0) by (nonlinear_arith)
            requires m < 0 && 1 <= q;
        lemma_div_multiples_vanish_fancy(-m, q, 2 * q);
    }
}

/// Division rounded to nearest, for magnitudes that arise from in-bounds
/// segment interpolation.
fn round_div_i128(p: i128, q: i128) -> (r: i128)
    requires
        1 <= q <= 0x7fff_ffff_ffff_ffff,
        -0x7fff_ffff_ffff_ffff_ffff <= p <= 0x7fff_ffff_ffff_ffff_ffff,
    ensures
        r == round_div_near(p as int, q as int),
{
    if p >= 0 {
        let r: i128 = (2 * p + q) / (2 * q);
        proof {
            lemma_div_pos_is_pos(2 * p + q, 2 * q);
        }
        r
    } else {
        let r: i128 = (2 * (-p) + q) / (2 * q);
        proof {
            lemma_div_pos_is_pos(2 * (-p) + q, 2 * q);
        }
        -r
    }
}

/// The interpolated coordinate lies between the two endpoints.
pub proof fn lemma_lerp_coord_range(u: int, v: int, j: int, n: int)
    requires
        1 <= n,
        0 <= j <= n,
    ensures
        v >= u ==> u <= lerp_coord(u, v, j, n) <= v,
        v < u ==> v <= lerp_coord(u, v, j, n) <= u,
{
    if v >= u {
        assert(0 <= (v - u) * j <= (v - u) * n) by (nonlinear_arith)
            requires 0 <= j <= n && v - u >= 0;
        lemma_round_div_near_range((v - u) * j, n, v - u);
    } else if j == 0 {
        assert((v - u) * 0 == 0) by (nonlinear_arith);
        lemma_round_div_near_range(0, n, 0);
    } else {
        assert((v - u) * j < 0) by (nonlinear_arith)
            requires 0 < j && v - u < 0;
        assert(0 <= (u - v) * j <= (u - v) * n) by (nonlinear_arith)
            requires 0 <= j <= n && u - v >= 0;
        lemma_round_div_near_range((u - v) * j, n, u - v);
        assert((u - v) * j == -((v - u) * j)) by (nonlinear_arith);
        assert(round_div_near((v - u) * j, n) == -round_div_near((u - v) * j, n));
    }
}

/// Point a fraction `j / n` of the way from `a` to `b`.
pub fn lerp_point(a: Vec2i, b: Vec2i, j: u64, n: u64) -> (p: Vec2i)
    requires
        in_bounds(a),
        in_bounds(b),
        1 <= n <= 4_000_000_000,
        j <= n,
    ensures
        p == lerp_spec(a, b, j as int, n as int),
        in_bounds(p),
{
    proof {
        lemma_lerp_coord_range(a.x as int, b.x as int, j as int, n as int);
        lemma_lerp_coord_range(a.y as int, b.y as int, j as int, n as int);
        assert(-0x7fff_ffff_ffff_ffff_ffff <= (b.x - a.x) * j <= 0x7fff_ffff_ffff_ffff_ffff)
            by (nonlinear_arith)
            requires -2_000_000_000 <= b.x - a.x <= 2_000_000_000 && 0 <= j <= 4_000_000_000;
        assert(-0x7fff_ffff_ffff_ffff_ffff <= (b.y - a.y) * j <= 0x7fff_ffff_ffff_ffff_ffff)
            by (nonlinear_arith)
            requires -2_000_000_000 <= b.y - a.y <= 2_000_000_000 && 0 <= j <= 4_000_000_000;
    }
    let dx: i128 = (b.x as i128) - (a.x as i128);
    let dy: i128 = (b.y as i128) - (a.y as i128);
    let ox: i128 = round_div_i128(dx * (j as i128), n as i128);
    let oy: i128 = round_div_i128(dy * (j as i128), n as i128);
    Vec2i { x: (a.x as i128 + ox) as i64, y: (a.y as i128 + oy) as i64 }
}

/// Interpolating all the way reproduces the end vertex.
pub proof fn lemma_lerp_at_end(a: Vec2i, b: Vec2i, n: int)
    requires
        1 <= n,
        in_bounds(a),
        in_bounds(b),
    ensures
        lerp_spec(a, b, n, n) == b,
{
    assert((b.x - a.x) * n == (b.x - a.x) * n);
    lemma_round_div_near_exact(b.x - a.x, n);
    lemma_round_div_near_exact(b.y - a.y, n);
    assert(lerp_spec(a, b, n, n).x == b.x);
    assert(lerp_spec(a, b, n, n).y == b.y);
}

/// Number of points sampled along the segment from `a` to `b` at density `d`.
pub fn seg_sample_count(a: Vec2i, b: Vec2i, d: i64) -> (n: u64)
    requires
        in_bounds(a),
        in_bounds(b),
        0 < d <= MAX_DENSITY,
    ensures
        n == seg_samples(a, b, d as int),
        1 <= n <= 4_000_000_000,
{
    let q: u64 = dist2_u64(a, b);
    proof {
        assert(0 <= dist2(a, b) <= 8_000_000_000_000_000_000) by (nonlinear_arith)
            requires -1_000_000_000 <= a.x <= 1_000_000_000 && -1_000_000_000 <= a.y
                <= 1_000_000_000 && -1_000_000_000 <= b.x <= 1_000_000_000 && -1_000_000_000 <= b.y
                <= 1_000_000_000;
        assert(0 <= (d as int) * (d as int) <= 1_000_000_000_000) by (nonlinear_arith)
            requires 0 < d <= 1_000_000;
        assert(0 <= (4 * (q as int)) * ((d as int) * (d as int))
            <= 32_000_000_000_000_000_000_000_000_000_000) by (nonlinear_arith)
            requires 0 <= q <= 8_000_000_000_000_000_000 && 0 <= (d as int) * (d as int)
                <= 1_000_000_000_000;
        assert((4 * (q as int)) * ((d as int) * (d as int)) == 4 * (q as int) * (d as int) * (
        d as int)) by (nonlinear_arith);
    }
    let t4: u128 = (4 * (q as u128)) * ((d as u128) * (d as u128));
    let m: u128 = isqrt(t4);
    proof {
        assert((m as int) * (m as int) <= t4);
        assert(m < 6_000_000_000_000_000) by (nonlinear_arith)
            requires (m as int) * (m as int) <= t4
                <= 32_000_000_000_000_000_000_000_000_000_000u128 && m >= 0;
        lemma_div_pos_is_pos((m as int) + 1_000_000, 2_000_000);
        lemma_div_is_ordered((m as int) + 1_000_000, 6_000_000_001_000_000int, 2_000_000);
    }
    let r: u128 = (m + 1_000_000) / 2_000_000;
    if r >= 1 {
        r as u64
    } else {
        1
    }
}

} // verus!
