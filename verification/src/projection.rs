//! Perspective projection.
//!
//! The aspect ratio is taken as viewport height over width — the
//! inverse of the more common convention — because the shading stage
//! this matrix is built for expects exactly that; keep the convention
//! as it is.  The focal scalar is the reciprocal of the tangent of
//! half the field of view, evaluated by the caller and handed in as a
//! fixed-point scalar.

use crate::fixed::{fp_div, fp_mul, lemma_mul_bound, lemma_tdiv_bound, tdiv, tdiv_i128, MAX_COORD, SCALE};
use crate::matrix::Mat4;
use vstd::prelude::*;
use vstd::arithmetic::div_mod::lemma_div_pos_is_pos;

verus! {

/// The perspective matrix for the given aspect ratio (height over
/// width), focal scalar `1/tan(fov/2)`, and near and far planes.
pub open spec fn perspective_model(aspect: int, focal: int, znear: int, zfar: int) -> Seq<
    Seq<int>,
> {
    seq![
        seq![fp_mul(focal, aspect), 0, 0, 0],
        seq![0, focal, 0, 0],
        seq![0, 0, fp_div(zfar + znear, zfar - znear), SCALE as int],
        seq![0, 0, -tdiv(2 * zfar * znear, zfar - znear), 0],
    ]
}

/// Standard perspective projection with the height-over-width aspect
/// convention.  The two depth entries divide by `zfar - znear`, so the
/// far plane must lie strictly beyond the near plane; the two fit
/// conditions only keep those quotients inside `i64`.
pub fn perspective_matrix(aspect: i64, focal: i64, znear: i64, zfar: i64) -> (m: Mat4)
    requires
        0 <= aspect <= MAX_COORD,
        0 < focal <= MAX_COORD,
        0 < znear < zfar <= MAX_COORD,
        tdiv((zfar + znear) * (SCALE as int), zfar - znear) <= i64::MAX as int,
        tdiv(2 * zfar * znear, zfar - znear) <= i64::MAX as int,
    ensures
        m@ == perspective_model(aspect as int, focal as int, znear as int, zfar as int),
{
    proof {
        lemma_mul_bound(focal as int, aspect as int, MAX_COORD as int, MAX_COORD as int);
        lemma_tdiv_bound(
            (focal as int) * (aspect as int),
            SCALE as int,
            MAX_COORD as int * MAX_COORD as int,
        );
        lemma_div_pos_is_pos((zfar + znear) * (SCALE as int), zfar - znear);
        lemma_mul_bound(zfar as int, znear as int, MAX_COORD as int, MAX_COORD as int);
        lemma_div_pos_is_pos(2 * zfar * znear, zfar - znear);
        assert(2 * zfar * znear >= 0 && (2 * (zfar as int)) * (znear as int) == 2 * ((zfar as int)
            * (znear as int))) by (nonlinear_arith)
            requires zfar > 0 && znear > 0;
    }
    let e00: i64 = tdiv_i128((focal as i128) * (aspect as i128), SCALE as i128);
    let e22: i64 = tdiv_i128(
        ((zfar + znear) as i128) * (SCALE as i128),
        (zfar - znear) as i128,
    );
    let e32: i64 = -tdiv_i128(
        2 * (zfar as i128) * (znear as i128),
        (zfar - znear) as i128,
    );
    let m = Mat4 {
        e: [
            [e00, 0, 0, 0],
            [0, focal, 0, 0],
            [0, 0, e22, SCALE],
            [0, 0, e32, 0],
        ],
    };
    proof {
        assert(m@ =~~= perspective_model(aspect as int, focal as int, znear as int, zfar as int));
    }
    m
}

} // verus!
