//! The look-at view matrix.
//!
//! Built from an eye position, a forward direction (already a
//! direction, not a point to look at), and an up vector, by
//! Gram-Schmidt orthogonalization: the direction is normalized, the
//! side vector is the cross product of up with it, normalized in
//! turn, and the true up is the cross product of forward with side.
//! The translation column holds the negated dot products of the eye
//! with each basis vector.  Normalization divides by an exact integer
//! square root of the squared length, so it is undefined for a zero
//! vector; both squared lengths are required to be positive.

use crate::fixed::{
    lemma_mul_bound, lemma_tdiv_bound, lemma_tdiv_cancel, lemma_tdiv_mul_exact, tdiv, tdiv_i128,
    MAX_COORD, SCALE,
};
use crate::matrix::Mat4;
use vstd::prelude::*;
use vstd::arithmetic::div_mod::{lemma_div_by_multiple, lemma_fundamental_div_mod};

verus! {

/// A vector of three fixed-point coordinates.
#[derive(Clone, Copy, PartialEq, Eq, Structural)]
pub struct Vec3 {
    pub x: i64,
    pub y: i64,
    pub z: i64,
}

impl Vec3 {
    /// A vector from its three fixed-point coordinates.
    pub fn new(x: i64, y: i64, z: i64) -> (v: Vec3)
        ensures
            v.x == x && v.y == y && v.z == z,
    {
        Vec3 { x, y, z }
    }
}

/// The coordinates of a vector as mathematical integers.
pub open spec fn vm(v: Vec3) -> (int, int, int) {
    (v.x as int, v.y as int, v.z as int)
}

/// Squared length, in `SCALE^2` fixed scale.
pub open spec fn norm2(v: (int, int, int)) -> int {
    v.0 * v.0 + v.1 * v.1 + v.2 * v.2
}

/// `r` is the integer square root of `n`, rounded down.
pub open spec fn is_isqrt(n: int, r: int) -> bool {
    0 <= r && r * r <= n && n < (r + 1) * (r + 1)
}

/// The integer square root of `n`, rounded down.
pub open spec fn isqrt_spec(n: int) -> int {
    choose|r: int| is_isqrt(n, r)
}

/// The rounded-down square root is unique, so the witness `r` is it.
pub proof fn lemma_isqrt_unique(n: int, r: int)
    requires
        is_isqrt(n, r),
    ensures
        isqrt_spec(n) == r,
{
    assert(exists|q: int| is_isqrt(n, q));
    let r2 = isqrt_spec(n);
    assert(is_isqrt(n, r2));
    if r2 < r {
        assert((r2 + 1) * (r2 + 1) <= r * r) by (nonlinear_arith)
            requires 0 <= r2 + 1 <= r;
    }
    if r < r2 {
        assert((r + 1) * (r + 1) <= r2 * r2) by (nonlinear_arith)
            requires 0 <= r + 1 <= r2;
    }
}

/// The vector scaled to unit length, each coordinate divided by the
/// rounded-down square root of the squared length.
pub open spec fn normalize_model(v: (int, int, int)) -> (int, int, int) {
    let n = isqrt_spec(norm2(v));
    (
        tdiv(v.0 * (SCALE as int), n),
        tdiv(v.1 * (SCALE as int), n),
        tdiv(v.2 * (SCALE as int), n),
    )
}

/// The cross product, scaled back to fixed point.
pub open spec fn cross_model(a: (int, int, int), b: (int, int, int)) -> (int, int, int) {
    (
        tdiv(a.1 * b.2 - a.2 * b.1, SCALE as int),
        tdiv(a.2 * b.0 - a.0 * b.2, SCALE as int),
        tdiv(a.0 * b.1 - a.1 * b.0, SCALE as int),
    )
}

/// The negated dot product, scaled back to fixed point: one
/// translation entry of the view matrix.
pub open spec fn neg_dot_model(p: (int, int, int), w: (int, int, int)) -> int {
    tdiv(-(p.0 * w.0 + p.1 * w.1 + p.2 * w.2), SCALE as int)
}

/// The view matrix: columns hold the side, up and forward basis
/// vectors row-wise, and the last column the negated dot products of
/// the eye position with each basis vector.
pub open spec fn look_at_model(
    eye: (int, int, int),
    direction: (int, int, int),
    up: (int, int, int),
) -> Seq<Seq<int>> {
    let f = normalize_model(direction);
    let s = cross_model(up, f);
    let sn = normalize_model(s);
    let u = cross_model(f, sn);
    seq![
        seq![sn.0, u.0, f.0, 0],
        seq![sn.1, u.1, f.1, 0],
        seq![sn.2, u.2, f.2, 0],
        seq![
            neg_dot_model(eye, sn),
            neg_dot_model(eye, u),
            neg_dot_model(eye, f),
            SCALE as int,
        ],
    ]
}

/// Normalization removes magnitude: scaling a vector by a positive
/// integer factor leaves its normalization unchanged, whenever the
/// vector's squared length is a perfect square, so that its length is
/// exactly representable.
pub proof fn lemma_normalize_scale(v: (int, int, int), k: int, m: int)
    requires
        k >= 1,
        m >= 1,
        m * m == norm2(v),
    ensures
        normalize_model((k * v.0, k * v.1, k * v.2)) == normalize_model(v),
{
    let kv = (k * v.0, k * v.1, k * v.2);
    lemma_scale_norm2(v.0, v.1, v.2, k, m);
    assert((k * m) * (k * m) < (k * m + 1) * (k * m + 1) && k * m >= 1) by (nonlinear_arith)
        requires k >= 1 && m >= 1;
    lemma_isqrt_unique(norm2(kv), k * m);
    assert(m * m < (m + 1) * (m + 1)) by (nonlinear_arith)
        requires m >= 1;
    lemma_isqrt_unique(norm2(v), m);
    assert((k * v.0) * (SCALE as int) == k * (v.0 * (SCALE as int)) && (k * v.1) * (SCALE as int)
        == k * (v.1 * (SCALE as int)) && (k * v.2) * (SCALE as int) == k * (v.2 * (SCALE
        as int))) by (nonlinear_arith);
    lemma_tdiv_cancel(v.0 * (SCALE as int), m, k);
    lemma_tdiv_cancel(v.1 * (SCALE as int), m, k);
    lemma_tdiv_cancel(v.2 * (SCALE as int), m, k);
}

/// The view matrix is invariant to scaling the direction by any
/// positive integer factor, whenever the direction's squared length
/// is a perfect square: the normalization step removes the magnitude
/// before anything else reads the direction.
pub proof fn lemma_look_at_direction_scale(
    eye: (int, int, int),
    dir: (int, int, int),
    up: (int, int, int),
    k: int,
    m: int,
)
    requires
        k >= 1,
        m >= 1,
        m * m == norm2(dir),
    ensures
        look_at_model(eye, (k * dir.0, k * dir.1, k * dir.2), up) == look_at_model(eye, dir, up),
{
    lemma_normalize_scale(dir, k, m);
    assert(look_at_model(eye, (k * dir.0, k * dir.1, k * dir.2), up) =~~= look_at_model(
        eye,
        dir,
        up,
    ));
}

/// The view matrix is invariant to scaling the up vector by any
/// positive integer factor, whenever the side vector it produces is
/// exact: each raw cross-product numerator must be a multiple of
/// `SCALE`, and the side vector's squared length a perfect square.
pub proof fn lemma_look_at_up_scale(
    eye: (int, int, int),
    dir: (int, int, int),
    up: (int, int, int),
    k: int,
    m2: int,
)
    requires
        k >= 1,
        m2 >= 1,
        ({
            let f = normalize_model(dir);
            (up.1 * f.2 - up.2 * f.1) % (SCALE as int) == 0 && (up.2 * f.0 - up.0 * f.2) % (SCALE
                as int) == 0 && (up.0 * f.1 - up.1 * f.0) % (SCALE as int) == 0 && m2 * m2
                == norm2(cross_model(up, f))
        }),
    ensures
        look_at_model(eye, dir, (k * up.0, k * up.1, k * up.2)) == look_at_model(eye, dir, up),
{
    let sc = SCALE as int;
    let f = normalize_model(dir);
    let s = cross_model(up, f);
    let ku = (k * up.0, k * up.1, k * up.2);
    let s2 = cross_model(ku, f);
    let d0 = up.1 * f.2 - up.2 * f.1;
    let d1 = up.2 * f.0 - up.0 * f.2;
    let d2 = up.0 * f.1 - up.1 * f.0;
    lemma_fundamental_div_mod(d0, sc);
    lemma_fundamental_div_mod(d1, sc);
    lemma_fundamental_div_mod(d2, sc);
    let q0 = d0 / sc;
    let q1 = d1 / sc;
    let q2 = d2 / sc;
    assert(d0 == q0 * sc && d1 == q1 * sc && d2 == q2 * sc) by (nonlinear_arith)
        requires
            d0 == sc * q0 + 0 && d1 == sc * q1 + 0 && d2 == sc * q2 + 0,
    ;
    lemma_tdiv_mul_exact(q0, sc);
    lemma_tdiv_mul_exact(q1, sc);
    lemma_tdiv_mul_exact(q2, sc);
    assert(s.0 == q0 && s.1 == q1 && s.2 == q2);
    lemma_scale_cross_term(up.1, up.2, f.1, f.2, k, q0, sc);
    lemma_scale_cross_term(up.2, up.0, f.2, f.0, k, q1, sc);
    lemma_scale_cross_term(up.0, up.1, f.0, f.1, k, q2, sc);
    assert(ku.1 * f.2 - ku.2 * f.1 == (k * q0) * sc);
    assert(ku.2 * f.0 - ku.0 * f.2 == (k * q1) * sc);
    assert(ku.0 * f.1 - ku.1 * f.0 == (k * q2) * sc);
    lemma_tdiv_mul_exact(k * q0, sc);
    lemma_tdiv_mul_exact(k * q1, sc);
    lemma_tdiv_mul_exact(k * q2, sc);
    assert(s2.0 == k * s.0 && s2.1 == k * s.1 && s2.2 == k * s.2);
    lemma_normalize_scale(s, k, m2);
    assert(normalize_model(s2) == normalize_model(s));
    assert(look_at_model(eye, dir, ku) =~~= look_at_model(eye, dir, up));
}

/// Scaling the coordinates of a vector by `k` scales its squared
/// length by `k * k`, so a length of `m` becomes one of `k * m`.
proof fn lemma_scale_norm2(v0: int, v1: int, v2: int, k: int, m: int)
    requires
        m * m == v0 * v0 + v1 * v1 + v2 * v2,
    ensures
        (k * v0) * (k * v0) + (k * v1) * (k * v1) + (k * v2) * (k * v2) == (k * m) * (k * m),
{
    assert((k * v0) * (k * v0) == (k * k) * (v0 * v0)) by (nonlinear_arith);
    assert((k * v1) * (k * v1) == (k * k) * (v1 * v1)) by (nonlinear_arith);
    assert((k * v2) * (k * v2) == (k * k) * (v2 * v2)) by (nonlinear_arith);
    assert((k * k) * (v0 * v0) + (k * k) * (v1 * v1) + (k * k) * (v2 * v2) == (k * k) * (v0 * v0
        + v1 * v1 + v2 * v2)) by (nonlinear_arith);
    assert((k * k) * (m * m) == (k * m) * (k * m)) by (nonlinear_arith);
}

/// Scaling both minuend factors of a cross-product term by `k`
/// scales an exact term by `k`.
proof fn lemma_scale_cross_term(a: int, b: int, x: int, y: int, k: int, q: int, sc: int)
    by (nonlinear_arith)
    requires
        a * y - b * x == q * sc,
    ensures
        (k * a) * y - (k * b) * x == (k * q) * sc,
{
}

/// Integer square root by bisection.
fn isqrt(n: u128) -> (r: u128)
    requires
        n <= 13_000_000_000_000_000_000_000_000u128,
    ensures
        is_isqrt(n as int, r as int),
        r <= 4_000_000_000_000u128,
{
    let mut lo: u128 = 0;
    let mut hi: u128 = 4_000_000_000_000;
    assert(4_000_000_000_000 * 4_000_000_000_000u128 > n as int);
    while lo + 1 < hi
        invariant
            lo < hi,
            hi <= 4_000_000_000_000,
            n <= 13_000_000_000_000_000_000_000_000u128,
            lo * lo <= n as int,
            hi * hi > n as int,
        decreases hi - lo,
    {
        let mid: u128 = lo + (hi - lo) / 2;
        assert(mid * mid <= 16_000_000_000_000_000_000_000_000u128) by (nonlinear_arith)
            requires mid <= 4_000_000_000_000u128;
        if mid * mid <= n {
            lo = mid;
        } else {
            hi = mid;
        }
    }
    assert((lo + 1) * (lo + 1) > n as int);
    lo
}

/// A coordinate's magnitude never exceeds the rounded-down square
/// root of the squared length.
proof fn lemma_coord_le_isqrt(x: int, n2: int, n: int)
    by (nonlinear_arith)
    requires
        x * x <= n2,
        is_isqrt(n2, n),
    ensures
        -n <= x <= n,
{
}

/// The vector scaled to unit length; coordinates come out within
/// one fixed-point unit of magnitude.
fn normalize(v: &Vec3) -> (w: Vec3)
    requires
        -2 * MAX_COORD <= v.x <= 2 * MAX_COORD,
        -2 * MAX_COORD <= v.y <= 2 * MAX_COORD,
        -2 * MAX_COORD <= v.z <= 2 * MAX_COORD,
        norm2(vm(*v)) >= 1,
    ensures
        vm(w) == normalize_model(vm(*v)),
        -SCALE <= w.x <= SCALE,
        -SCALE <= w.y <= SCALE,
        -SCALE <= w.z <= SCALE,
{
    proof {
        lemma_mul_bound(v.x as int, v.x as int, 2_000_000_000_000, 2_000_000_000_000);
        lemma_mul_bound(v.y as int, v.y as int, 2_000_000_000_000, 2_000_000_000_000);
        lemma_mul_bound(v.z as int, v.z as int, 2_000_000_000_000, 2_000_000_000_000);
        assert(v.x as int * v.x as int >= 0 && v.y as int * v.y as int >= 0 && v.z as int * v.z
            as int >= 0) by (nonlinear_arith);
    }
    let n2: i128 = (v.x as i128) * (v.x as i128) + (v.y as i128) * (v.y as i128) + (v.z as i128)
        * (v.z as i128);
    let n = isqrt(n2 as u128);
    let ni: i128 = n as i128;
    proof {
        lemma_isqrt_unique(n2 as int, n as int);
        assert(n >= 1);
        lemma_coord_le_isqrt(v.x as int, n2 as int, n as int);
        lemma_coord_le_isqrt(v.y as int, n2 as int, n as int);
        lemma_coord_le_isqrt(v.z as int, n2 as int, n as int);
        lemma_mul_bound(v.x as int, SCALE as int, n as int, SCALE as int);
        lemma_mul_bound(v.y as int, SCALE as int, n as int, SCALE as int);
        lemma_mul_bound(v.z as int, SCALE as int, n as int, SCALE as int);
        lemma_tdiv_bound(v.x as int * SCALE as int, n as int, n as int * SCALE as int);
        lemma_tdiv_bound(v.y as int * SCALE as int, n as int, n as int * SCALE as int);
        lemma_tdiv_bound(v.z as int * SCALE as int, n as int, n as int * SCALE as int);
        assert(n as int * SCALE as int == SCALE as int * n as int) by (nonlinear_arith);
        lemma_div_by_multiple(SCALE as int, n as int);
    }
    let wx = tdiv_i128((v.x as i128) * (SCALE as i128), ni);
    let wy = tdiv_i128((v.y as i128) * (SCALE as i128), ni);
    let wz = tdiv_i128((v.z as i128) * (SCALE as i128), ni);
    Vec3 { x: wx, y: wy, z: wz }
}

/// The cross product of two bounded vectors.
fn cross(a: &Vec3, b: &Vec3) -> (w: Vec3)
    requires
        -MAX_COORD <= a.x <= MAX_COORD,
        -MAX_COORD <= a.y <= MAX_COORD,
        -MAX_COORD <= a.z <= MAX_COORD,
        -MAX_COORD <= b.x <= MAX_COORD,
        -MAX_COORD <= b.y <= MAX_COORD,
        -MAX_COORD <= b.z <= MAX_COORD,
    ensures
        vm(w) == cross_model(vm(*a), vm(*b)),
{
    proof {
        lemma_mul_bound(a.x as int, b.y as int, MAX_COORD as int, MAX_COORD as int);
        lemma_mul_bound(a.x as int, b.z as int, MAX_COORD as int, MAX_COORD as int);
        lemma_mul_bound(a.y as int, b.x as int, MAX_COORD as int, MAX_COORD as int);
        lemma_mul_bound(a.y as int, b.z as int, MAX_COORD as int, MAX_COORD as int);
        lemma_mul_bound(a.z as int, b.x as int, MAX_COORD as int, MAX_COORD as int);
        lemma_mul_bound(a.z as int, b.y as int, MAX_COORD as int, MAX_COORD as int);
        lemma_cross_num_bound(vm(*a), vm(*b), MAX_COORD as int, MAX_COORD as int);
        lemma_tdiv_bound(
            (a.y as int) * (b.z as int) - (a.z as int) * (b.y as int),
            SCALE as int,
            2 * (MAX_COORD as int * MAX_COORD as int),
        );
        lemma_tdiv_bound(
            (a.z as int) * (b.x as int) - (a.x as int) * (b.z as int),
            SCALE as int,
            2 * (MAX_COORD as int * MAX_COORD as int),
        );
        lemma_tdiv_bound(
            (a.x as int) * (b.y as int) - (a.y as int) * (b.x as int),
            SCALE as int,
            2 * (MAX_COORD as int * MAX_COORD as int),
        );
    }
    let wx = tdiv_i128(
        (a.y as i128) * (b.z as i128) - (a.z as i128) * (b.y as i128),
        SCALE as i128,
    );
    let wy = tdiv_i128(
        (a.z as i128) * (b.x as i128) - (a.x as i128) * (b.z as i128),
        SCALE as i128,
    );
    let wz = tdiv_i128(
        (a.x as i128) * (b.y as i128) - (a.y as i128) * (b.x as i128),
        SCALE as i128,
    );
    Vec3 { x: wx, y: wy, z: wz }
}

/// Each raw cross-product numerator is bounded by twice the product
/// of the coordinate bounds.
proof fn lemma_cross_num_bound(a: (int, int, int), b: (int, int, int), ba: int, bb: int)
    requires
        0 <= ba,
        0 <= bb,
        -ba <= a.0 <= ba && -ba <= a.1 <= ba && -ba <= a.2 <= ba,
        -bb <= b.0 <= bb && -bb <= b.1 <= bb && -bb <= b.2 <= bb,
    ensures
        -(2 * (ba * bb)) <= a.1 * b.2 - a.2 * b.1 <= 2 * (ba * bb),
        -(2 * (ba * bb)) <= a.2 * b.0 - a.0 * b.2 <= 2 * (ba * bb),
        -(2 * (ba * bb)) <= a.0 * b.1 - a.1 * b.0 <= 2 * (ba * bb),
{
    lemma_mul_bound(a.0, b.1, ba, bb);
    lemma_mul_bound(a.0, b.2, ba, bb);
    lemma_mul_bound(a.1, b.0, ba, bb);
    lemma_mul_bound(a.1, b.2, ba, bb);
    lemma_mul_bound(a.2, b.0, ba, bb);
    lemma_mul_bound(a.2, b.1, ba, bb);
}

/// Each coordinate of a cross product of bounded vectors is bounded
/// by twice the product of the bounds, scaled down.
proof fn lemma_cross_model_bound(a: (int, int, int), b: (int, int, int), ba: int, bb: int)
    requires
        0 <= ba,
        0 <= bb,
        -ba <= a.0 <= ba && -ba <= a.1 <= ba && -ba <= a.2 <= ba,
        -bb <= b.0 <= bb && -bb <= b.1 <= bb && -bb <= b.2 <= bb,
    ensures
        ({
            let w = cross_model(a, b);
            let cap = tdiv(2 * (ba * bb), SCALE as int);
            -cap <= w.0 <= cap && -cap <= w.1 <= cap && -cap <= w.2 <= cap
        }),
{
    lemma_cross_num_bound(a, b, ba, bb);
    lemma_tdiv_bound(a.1 * b.2 - a.2 * b.1, SCALE as int, 2 * (ba * bb));
    lemma_tdiv_bound(a.2 * b.0 - a.0 * b.2, SCALE as int, 2 * (ba * bb));
    lemma_tdiv_bound(a.0 * b.1 - a.1 * b.0, SCALE as int, 2 * (ba * bb));
}

/// One translation entry: the negated dot product of the eye with a
/// basis vector whose coordinates are within two fixed-point units.
fn neg_dot(p: &Vec3, w: &Vec3) -> (d: i64)
    requires
        -MAX_COORD <= p.x <= MAX_COORD,
        -MAX_COORD <= p.y <= MAX_COORD,
        -MAX_COORD <= p.z <= MAX_COORD,
        -2 * SCALE <= w.x <= 2 * SCALE,
        -2 * SCALE <= w.y <= 2 * SCALE,
        -2 * SCALE <= w.z <= 2 * SCALE,
    ensures
        d as int == neg_dot_model(vm(*p), vm(*w)),
{
    proof {
        lemma_mul_bound(p.x as int, w.x as int, MAX_COORD as int, 2 * SCALE as int);
        lemma_mul_bound(p.y as int, w.y as int, MAX_COORD as int, 2 * SCALE as int);
        lemma_mul_bound(p.z as int, w.z as int, MAX_COORD as int, 2 * SCALE as int);
        lemma_tdiv_bound(
            -((p.x as int) * (w.x as int) + (p.y as int) * (w.y as int) + (p.z as int) * (w.z
                as int)),
            SCALE as int,
            3 * (MAX_COORD as int * (2 * SCALE as int)),
        );
    }
    let s: i128 = (p.x as i128) * (w.x as i128) + (p.y as i128) * (w.y as i128) + (p.z as i128)
        * (w.z as i128);
    tdiv_i128(-s, SCALE as i128)
}

/// The view matrix from an eye position, a forward direction and an
/// up vector.  The direction must have positive length, and the up
/// vector must not be parallel to it, so that the side vector also
/// has positive length; both conditions mirror the divisions by zero
/// that the construction would otherwise run into.
pub fn look_at_matrix(eye: &Vec3, direction: &Vec3, up: &Vec3) -> (m: Mat4)
    requires
        -MAX_COORD <= eye.x <= MAX_COORD,
        -MAX_COORD <= eye.y <= MAX_COORD,
        -MAX_COORD <= eye.z <= MAX_COORD,
        -MAX_COORD <= direction.x <= MAX_COORD,
        -MAX_COORD <= direction.y <= MAX_COORD,
        -MAX_COORD <= direction.z <= MAX_COORD,
        -MAX_COORD <= up.x <= MAX_COORD,
        -MAX_COORD <= up.y <= MAX_COORD,
        -MAX_COORD <= up.z <= MAX_COORD,
        norm2(vm(*direction)) >= 1,
        norm2(cross_model(vm(*up), normalize_model(vm(*direction)))) >= 1,
    ensures
        m@ == look_at_model(vm(*eye), vm(*direction), vm(*up)),
{
    let f = normalize(direction);
    proof {
        lemma_cross_model_bound(vm(*up), vm(f), MAX_COORD as int, SCALE as int);
    }
    let s = cross(up, &f);
    let sn = normalize(&s);
    let u = cross(&f, &sn);
    proof {
        lemma_cross_model_bound(vm(f), vm(sn), SCALE as int, SCALE as int);
    }
    let p0 = neg_dot(eye, &sn);
    let p1 = neg_dot(eye, &u);
    let p2 = neg_dot(eye, &f);
    let m = Mat4 {
        e: [
            [sn.x, u.x, f.x, 0],
            [sn.y, u.y, f.y, 0],
            [sn.z, u.z, f.z, 0],
            [p0, p1, p2, SCALE],
        ],
    };
    proof {
        assert(m@ =~~= look_at_model(vm(*eye), vm(*direction), vm(*up)));
    }
    m
}

} // verus!
