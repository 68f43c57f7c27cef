//! Right-handed axis rotations embedded in homogeneous 4x4 matrices.
//!
//! A rotation is built from the cosine and sine of its angle, handed
//! in as fixed-point scalars; evaluating the trigonometric functions
//! is left to the caller, so the construction itself stays exact.

use crate::fixed::{tdiv, MAX_COORD, SCALE};
use crate::matrix::{
    compose, det3_model, identity_model, lemma_mat_bounded_widen, lemma_mul_model_bounded,
    mat_bounded, mul_entry_model, mul_model, transpose_model, Mat4,
};
use vstd::prelude::*;
use vstd::arithmetic::div_mod::{lemma_div_by_multiple, lemma_div_of0};

verus! {

/// The coordinate axis a rotation turns around.
#[derive(Clone, Copy, PartialEq, Eq, Structural)]
pub enum Axis {
    X,
    Y,
    Z,
}

/// The rotation matrix around `axis` whose angle has cosine `c` and
/// sine `s` (both in fixed point), with zero translation.
pub open spec fn rot_model(axis: Axis, c: int, s: int) -> Seq<Seq<int>> {
    match axis {
        Axis::X => seq![
            seq![SCALE as int, 0, 0, 0],
            seq![0, c, s, 0],
            seq![0, -s, c, 0],
            seq![0, 0, 0, SCALE as int],
        ],
        Axis::Y => seq![
            seq![c, 0, s, 0],
            seq![0, SCALE as int, 0, 0],
            seq![-s, 0, c, 0],
            seq![0, 0, 0, SCALE as int],
        ],
        Axis::Z => seq![
            seq![c, s, 0, 0],
            seq![-s, c, 0, 0],
            seq![0, 0, SCALE as int, 0],
            seq![0, 0, 0, SCALE as int],
        ],
    }
}

/// The standard right-handed rotation around `axis`, given the
/// cosine and sine of the angle as fixed-point scalars.
pub fn rotation_matrix(axis: Axis, c: i64, s: i64) -> (m: Mat4)
    requires
        -SCALE <= c <= SCALE,
        -SCALE <= s <= SCALE,
    ensures
        m@ == rot_model(axis, c as int, s as int),
        mat_bounded(m@, SCALE as int),
{
    let m = match axis {
        Axis::X => Mat4 {
            e: [
                [SCALE, 0, 0, 0],
                [0, c, s, 0],
                [0, -s, c, 0],
                [0, 0, 0, SCALE],
            ],
        },
        Axis::Y => Mat4 {
            e: [
                [c, 0, s, 0],
                [0, SCALE, 0, 0],
                [-s, 0, c, 0],
                [0, 0, 0, SCALE],
            ],
        },
        Axis::Z => Mat4 {
            e: [
                [c, s, 0, 0],
                [-s, c, 0, 0],
                [0, 0, SCALE, 0],
                [0, 0, 0, SCALE],
            ],
        },
    };
    proof {
        assert(m@ =~~= rot_model(axis, c as int, s as int));
    }
    m
}

/// The combined model transform: the three axis rotations composed
/// by matrix multiplication in the fixed order X, then Y, then Z,
/// then the static scale/translate matrix.
pub fn model_matrix(
    cx: i64,
    sx: i64,
    cy: i64,
    sy: i64,
    cz: i64,
    sz: i64,
    normalizer: &Mat4,
) -> (m: Mat4)
    requires
        -SCALE <= cx <= SCALE,
        -SCALE <= sx <= SCALE,
        -SCALE <= cy <= SCALE,
        -SCALE <= sy <= SCALE,
        -SCALE <= cz <= SCALE,
        -SCALE <= sz <= SCALE,
        mat_bounded(normalizer@, MAX_COORD as int),
    ensures
        m@ == mul_model(
            mul_model(
                mul_model(
                    rot_model(Axis::X, cx as int, sx as int),
                    rot_model(Axis::Y, cy as int, sy as int),
                ),
                rot_model(Axis::Z, cz as int, sz as int),
            ),
            normalizer@,
        ),
{
    let rx = rotation_matrix(Axis::X, cx, sx);
    let ry = rotation_matrix(Axis::Y, cy, sy);
    let rz = rotation_matrix(Axis::Z, cz, sz);
    let xy = compose(&rx, &ry);
    proof {
        lemma_mul_model_bounded(rx@, ry@, SCALE as int, SCALE as int);
        assert(tdiv(4 * ((SCALE as int) * (SCALE as int)), SCALE as int) == 4_000_000);
        lemma_mat_bounded_widen(xy@, 4_000_000, MAX_COORD as int);
    }
    let xyz = compose(&xy, &rz);
    proof {
        lemma_mul_model_bounded(xy@, rz@, 4_000_000, SCALE as int);
        assert(tdiv(4 * (4_000_000 * (SCALE as int)), SCALE as int) == 16_000_000);
        lemma_mat_bounded_widen(xyz@, 16_000_000, MAX_COORD as int);
    }
    compose(&xyz, normalizer)
}

/// A rotation by the angle zero, whose cosine is one and whose sine
/// is zero, is the identity matrix, around every axis.
pub proof fn lemma_rotation_zero_is_identity(axis: Axis)
    ensures
        rot_model(axis, SCALE as int, 0) == identity_model(),
{
    match axis {
        Axis::X => {
            assert(rot_model(axis, SCALE as int, 0) =~~= identity_model());
        },
        Axis::Y => {
            assert(rot_model(axis, SCALE as int, 0) =~~= identity_model());
        },
        Axis::Z => {
            assert(rot_model(axis, SCALE as int, 0) =~~= identity_model());
        },
    }
}

/// A rotation matrix is orthogonal: for every cosine/sine pair that
/// lies exactly on the unit circle, its transpose composes with it to
/// the identity (so the transpose is its inverse), and the
/// determinant of its rotation block is one (in `SCALE^3` scale).
pub proof fn lemma_rotation_orthogonal(axis: Axis, c: int, s: int)
    requires
        c * c + s * s == (SCALE as int) * (SCALE as int),
    ensures
        mul_model(transpose_model(rot_model(axis, c, s)), rot_model(axis, c, s))
            == identity_model(),
        det3_model(rot_model(axis, c, s)) == (SCALE as int) * (SCALE as int) * (SCALE as int),
{
    let sc = SCALE as int;
    let r = rot_model(axis, c, s);
    let t = transpose_model(r);
    lemma_div_of0(sc);
    lemma_div_by_multiple(sc, sc);
    assert(sc * sc >= 0) by (nonlinear_arith)
        requires sc > 0;
    assert(tdiv(sc * sc, sc) == sc);
    assert(c * c + s * s >= 0 && c * (-s) + s * c == 0 && (-s) * c + c * s == 0 && (-s) * (-s)
        == s * s && c * (sc * c) - s * (-(sc * s)) == sc * (c * c + s * s) && c * (sc * c) + (-s)
        * (0 - sc * s) == sc * (c * c + s * s)) by (nonlinear_arith);
    assert(tdiv(c * c + s * s, sc) == sc);
    match axis {
        Axis::X => {
            assert forall|cc: int, rr: int| 0 <= cc < 4 && 0 <= rr < 4 implies #[trigger]
                mul_entry_model(t, r, cc, rr) == identity_model()[cc][rr] by {
                lemma_rot_product_entry(axis, c, s, cc, rr);
            }
            assert(mul_model(t, r) =~~= identity_model());
            assert(det3_model(r) == sc * (c * c - (-s) * s)) by (nonlinear_arith)
                requires
                    det3_model(r) == r[0][0] * (r[1][1] * r[2][2] - r[2][1] * r[1][2]) - r[1][0]
                        * (r[0][1] * r[2][2] - r[2][1] * r[0][2]) + r[2][0] * (r[0][1] * r[1][2]
                        - r[1][1] * r[0][2]),
                    r[0][0] == sc && r[1][0] == 0 && r[2][0] == 0,
                    r[1][1] == c && r[2][1] == -s && r[1][2] == s && r[2][2] == c,
            ;
            assert(sc * (c * c - (-s) * s) == sc * sc * sc) by (nonlinear_arith)
                requires c * c + s * s == sc * sc;
        },
        Axis::Y => {
            assert forall|cc: int, rr: int| 0 <= cc < 4 && 0 <= rr < 4 implies #[trigger]
                mul_entry_model(t, r, cc, rr) == identity_model()[cc][rr] by {
                lemma_rot_product_entry(axis, c, s, cc, rr);
            }
            assert(mul_model(t, r) =~~= identity_model());
            assert(det3_model(r) == c * (sc * c) + (-s) * (0 - sc * s)) by (nonlinear_arith)
                requires
                    det3_model(r) == r[0][0] * (r[1][1] * r[2][2] - r[2][1] * r[1][2]) - r[1][0]
                        * (r[0][1] * r[2][2] - r[2][1] * r[0][2]) + r[2][0] * (r[0][1] * r[1][2]
                        - r[1][1] * r[0][2]),
                    r[0][0] == c && r[1][0] == 0 && r[2][0] == -s,
                    r[1][1] == sc && r[2][1] == 0 && r[0][1] == 0,
                    r[0][2] == s && r[1][2] == 0 && r[2][2] == c,
            ;
            assert(c * (sc * c) + (-s) * (0 - sc * s) == sc * sc * sc) by (nonlinear_arith)
                requires c * c + s * s == sc * sc;
        },
        Axis::Z => {
            assert forall|cc: int, rr: int| 0 <= cc < 4 && 0 <= rr < 4 implies #[trigger]
                mul_entry_model(t, r, cc, rr) == identity_model()[cc][rr] by {
                lemma_rot_product_entry(axis, c, s, cc, rr);
            }
            assert(mul_model(t, r) =~~= identity_model());
            assert(det3_model(r) == (c * c + s * s) * sc) by (nonlinear_arith)
                requires
                    det3_model(r) == r[0][0] * (r[1][1] * r[2][2] - r[2][1] * r[1][2]) - r[1][0]
                        * (r[0][1] * r[2][2] - r[2][1] * r[0][2]) + r[2][0] * (r[0][1] * r[1][2]
                        - r[1][1] * r[0][2]),
                    r[0][0] == c && r[1][0] == -s && r[2][0] == 0,
                    r[0][1] == s && r[1][1] == c && r[2][1] == 0,
                    r[0][2] == 0 && r[1][2] == 0 && r[2][2] == sc,
            ;
            assert((c * c + s * s) * sc == sc * sc * sc) by (nonlinear_arith)
                requires c * c + s * s == sc * sc;
        },
    }
}

/// One entry of the product of a rotation's transpose with the
/// rotation itself: the dot product of two of the rotation's rows.
proof fn lemma_rot_product_entry(axis: Axis, c: int, s: int, cc: int, rr: int)
    requires
        c * c + s * s == (SCALE as int) * (SCALE as int),
        0 <= cc < 4,
        0 <= rr < 4,
    ensures
        mul_entry_model(transpose_model(rot_model(axis, c, s)), rot_model(axis, c, s), cc, rr)
            == identity_model()[cc][rr],
{
    let sc = SCALE as int;
    let r = rot_model(axis, c, s);
    let t = transpose_model(r);
    let a0 = t[0][rr];
    let a1 = t[1][rr];
    let a2 = t[2][rr];
    let a3 = t[3][rr];
    let b0 = r[cc][0];
    let b1 = r[cc][1];
    let b2 = r[cc][2];
    let b3 = r[cc][3];
    assert(a0 == r[rr][0] && a1 == r[rr][1] && a2 == r[rr][2] && a3 == r[rr][3]);
    lemma_div_of0(sc);
    lemma_div_by_multiple(sc, sc);
    assert(sc * sc >= 0) by (nonlinear_arith)
        requires sc > 0;
    assert(tdiv(sc * sc, sc) == sc);
    if cc == rr {
        match axis {
            Axis::X => {
                if rr == 0 {
                    assert(a0 == sc && a1 == 0 && a2 == 0 && a3 == 0);
                } else if rr == 1 {
                    assert(a0 == 0 && a1 == c && a2 == s && a3 == 0);
                } else if rr == 2 {
                    assert(a0 == 0 && a1 == -s && a2 == c && a3 == 0);
                } else {
                    assert(a0 == 0 && a1 == 0 && a2 == 0 && a3 == sc);
                }
            },
            Axis::Y => {
                if rr == 0 {
                    assert(a0 == c && a1 == 0 && a2 == s && a3 == 0);
                } else if rr == 1 {
                    assert(a0 == 0 && a1 == sc && a2 == 0 && a3 == 0);
                } else if rr == 2 {
                    assert(a0 == -s && a1 == 0 && a2 == c && a3 == 0);
                } else {
                    assert(a0 == 0 && a1 == 0 && a2 == 0 && a3 == sc);
                }
            },
            Axis::Z => {
                if rr == 0 {
                    assert(a0 == c && a1 == s && a2 == 0 && a3 == 0);
                } else if rr == 1 {
                    assert(a0 == -s && a1 == c && a2 == 0 && a3 == 0);
                } else if rr == 2 {
                    assert(a0 == 0 && a1 == 0 && a2 == sc && a3 == 0);
                } else {
                    assert(a0 == 0 && a1 == 0 && a2 == 0 && a3 == sc);
                }
            },
        }
        assert(b0 == a0 && b1 == a1 && b2 == a2 && b3 == a3);
        assert(a0 * b0 + a1 * b1 + a2 * b2 + a3 * b3 == sc * sc) by (nonlinear_arith)
            requires
                c * c + s * s == sc * sc,
                b0 == a0 && b1 == a1 && b2 == a2 && b3 == a3,
                (a0 == sc && a1 == 0 && a2 == 0 && a3 == 0) || (a0 == 0 && a1 == sc && a2 == 0
                    && a3 == 0) || (a0 == 0 && a1 == 0 && a2 == sc && a3 == 0) || (a0 == 0 && a1
                    == 0 && a2 == 0 && a3 == sc) || (a0 == 0 && a1 == c && a2 == s && a3 == 0)
                    || (a0 == 0 && a1 == -s && a2 == c && a3 == 0) || (a0 == c && a1 == 0 && a2
                    == s && a3 == 0) || (a0 == -s && a1 == 0 && a2 == c && a3 == 0) || (a0 == c
                    && a1 == s && a2 == 0 && a3 == 0) || (a0 == -s && a1 == c && a2 == 0 && a3
                    == 0),
        ;
        assert(mul_entry_model(t, r, cc, rr) == tdiv(sc * sc, sc));
        assert(identity_model()[cc][rr] == sc);
    } else {
        assert(a0 * b0 + a1 * b1 + a2 * b2 + a3 * b3 == 0) by (nonlinear_arith)
            requires
                a0 == r[rr][0] && a1 == r[rr][1] && a2 == r[rr][2] && a3 == r[rr][3],
                b0 == r[cc][0] && b1 == r[cc][1] && b2 == r[cc][2] && b3 == r[cc][3],
                cc != rr,
                0 <= cc < 4,
                0 <= rr < 4,
                rot_entry_table(axis, c, s, r),
        ;
        assert(mul_entry_model(t, r, cc, rr) == tdiv(0, sc));
        assert(identity_model()[cc][rr] == 0);
    }
}

/// Every entry of a rotation matrix, spelled out, so that the dot
/// product of two of its columns is a single arithmetic fact.
pub open spec fn rot_entry_table(axis: Axis, c: int, s: int, r: Seq<Seq<int>>) -> bool {
    match axis {
        Axis::X => r[0][0] == SCALE as int && r[1][0] == 0 && r[2][0] == 0 && r[3][0] == 0 && r[0][1]
            == 0 && r[1][1] == c && r[2][1] == -s && r[3][1] == 0 && r[0][2] == 0 && r[1][2] == s
            && r[2][2] == c && r[3][2] == 0 && r[0][3] == 0 && r[1][3] == 0 && r[2][3] == 0
            && r[3][3] == SCALE as int,
        Axis::Y => r[0][0] == c && r[1][0] == 0 && r[2][0] == -s && r[3][0] == 0 && r[0][1] == 0
            && r[1][1] == SCALE as int && r[2][1] == 0 && r[3][1] == 0 && r[0][2] == s && r[1][2]
            == 0 && r[2][2] == c && r[3][2] == 0 && r[0][3] == 0 && r[1][3] == 0 && r[2][3] == 0
            && r[3][3] == SCALE as int,
        Axis::Z => r[0][0] == c && r[1][0] == -s && r[2][0] == 0 && r[3][0] == 0 && r[0][1] == s
            && r[1][1] == c && r[2][1] == 0 && r[3][1] == 0 && r[0][2] == 0 && r[1][2] == 0
            && r[2][2] == SCALE as int && r[3][2] == 0 && r[0][3] == 0 && r[1][3] == 0 && r[2][3]
            == 0 && r[3][3] == SCALE as int,
    }
}

} // verus!
