//! Homogeneous 4x4 matrices over fixed-point scalars.
//!
//! A matrix is stored column-major, as in the rendering pipeline it
//! feeds: `e[c][r]` is the entry of column `c`, row `r`, and the
//! translation of an affine transform sits in column 3.  The model of
//! a matrix is a sequence of four columns of four mathematical
//! integers, each still in fixed-point scale.

use crate::fixed::{fp_mul, lemma_mul_bound, lemma_tdiv_bound, tdiv, tdiv_i128, MAX_COORD, SCALE};
use vstd::prelude::*;
use vstd::arithmetic::div_mod::lemma_div_by_multiple;

verus! {

/// A 4x4 matrix of fixed-point scalars, column-major.
pub struct Mat4 {
    pub e: [[i64; 4]; 4],
}

/// One column of a raw entry array, as mathematical integers.
pub open spec fn col(m: [[i64; 4]; 4], c: int) -> Seq<int> {
    seq![m[c][0] as int, m[c][1] as int, m[c][2] as int, m[c][3] as int]
}

impl View for Mat4 {
    type V = Seq<Seq<int>>;

    open spec fn view(&self) -> Seq<Seq<int>> {
        seq![col(self.e, 0), col(self.e, 1), col(self.e, 2), col(self.e, 3)]
    }
}

/// Four columns of four entries each.
pub open spec fn wf_model(m: Seq<Seq<int>>) -> bool {
    m.len() == 4 && forall|c: int| 0 <= c < 4 ==> (#[trigger] m[c]).len() == 4
}

/// Every entry has magnitude at most `b`.
pub open spec fn mat_bounded(m: Seq<Seq<int>>, b: int) -> bool {
    forall|c: int, r: int| 0 <= c < 4 && 0 <= r < 4 ==> -b <= #[trigger] m[c][r] <= b
}

/// The identity transform: ones (in fixed point) on the diagonal.
pub open spec fn identity_model() -> Seq<Seq<int>> {
    seq![
        seq![SCALE as int, 0, 0, 0],
        seq![0, SCALE as int, 0, 0],
        seq![0, 0, SCALE as int, 0],
        seq![0, 0, 0, SCALE as int],
    ]
}

/// The all-zero matrix.
pub open spec fn zero_model() -> Seq<Seq<int>> {
    seq![seq![0, 0, 0, 0], seq![0, 0, 0, 0], seq![0, 0, 0, 0], seq![0, 0, 0, 0]]
}

/// Uniform scale `s` on the diagonal with translation `(tx, ty, tz)`
/// in the last column.
pub open spec fn scale_translate_model(s: int, tx: int, ty: int, tz: int) -> Seq<Seq<int>> {
    seq![
        seq![s, 0, 0, 0],
        seq![0, s, 0, 0],
        seq![0, 0, s, 0],
        seq![tx, ty, tz, SCALE as int],
    ]
}

/// Entry `(c, r)` of the matrix product `a * b`: the dot product of
/// row `r` of `a` with column `c` of `b`, scaled back to fixed point.
pub open spec fn mul_entry_model(a: Seq<Seq<int>>, b: Seq<Seq<int>>, c: int, r: int) -> int {
    tdiv(
        a[0][r] * b[c][0] + a[1][r] * b[c][1] + a[2][r] * b[c][2] + a[3][r] * b[c][3],
        SCALE as int,
    )
}

/// The matrix product `a * b`, the transform that applies `b` first
/// and `a` second.
pub open spec fn mul_model(a: Seq<Seq<int>>, b: Seq<Seq<int>>) -> Seq<Seq<int>> {
    Seq::new(4, |c: int| Seq::new(4, |r: int| mul_entry_model(a, b, c, r)))
}

/// The transpose: entry `(c, r)` becomes entry `(r, c)`.
pub open spec fn transpose_model(m: Seq<Seq<int>>) -> Seq<Seq<int>> {
    Seq::new(4, |c: int| Seq::new(4, |r: int| m[r][c]))
}

/// Determinant of the upper-left 3x3 block, in `SCALE^3` fixed scale
/// (so the real determinant one corresponds to `SCALE * SCALE * SCALE`).
pub open spec fn det3_model(m: Seq<Seq<int>>) -> int {
    m[0][0] * (m[1][1] * m[2][2] - m[2][1] * m[1][2])
        - m[1][0] * (m[0][1] * m[2][2] - m[2][1] * m[0][2])
        + m[2][0] * (m[0][1] * m[1][2] - m[1][1] * m[0][2])
}

/// The identity transform.
pub fn identity() -> (m: Mat4)
    ensures
        m@ == identity_model(),
        mat_bounded(m@, SCALE as int),
{
    let m = Mat4 {
        e: [
            [SCALE, 0, 0, 0],
            [0, SCALE, 0, 0],
            [0, 0, SCALE, 0],
            [0, 0, 0, SCALE],
        ],
    };
    proof {
        assert(m@ =~~= identity_model());
    }
    m
}

/// The all-zero matrix, used as an inert additive offset.
pub fn zero_matrix() -> (m: Mat4)
    ensures
        m@ == zero_model(),
        mat_bounded(m@, 0),
{
    let m = Mat4 { e: [[0, 0, 0, 0], [0, 0, 0, 0], [0, 0, 0, 0], [0, 0, 0, 0]] };
    proof {
        assert(m@ =~~= zero_model());
    }
    m
}

/// A uniform scale combined with a translation.
pub fn scale_translate_matrix(s: i64, tx: i64, ty: i64, tz: i64) -> (m: Mat4)
    requires
        -MAX_COORD <= s <= MAX_COORD,
        -MAX_COORD <= tx <= MAX_COORD,
        -MAX_COORD <= ty <= MAX_COORD,
        -MAX_COORD <= tz <= MAX_COORD,
    ensures
        m@ == scale_translate_model(s as int, tx as int, ty as int, tz as int),
        mat_bounded(m@, MAX_COORD as int),
{
    let m = Mat4 {
        e: [
            [s, 0, 0, 0],
            [0, s, 0, 0],
            [0, 0, s, 0],
            [tx, ty, tz, SCALE],
        ],
    };
    proof {
        assert(m@ =~~= scale_translate_model(s as int, tx as int, ty as int, tz as int));
    }
    m
}

/// Entry `(c, r)` of the product of two bounded matrices, accumulated
/// in `i128` and scaled back down.
fn mul_entry(a: &Mat4, b: &Mat4, c: usize, r: usize) -> (v: i64)
    requires
        c < 4,
        r < 4,
        mat_bounded(a@, MAX_COORD as int),
        mat_bounded(b@, MAX_COORD as int),
    ensures
        v as int == mul_entry_model(a@, b@, c as int, r as int),
{
    proof {
        let ci = c as int;
        let ri = r as int;
        assert forall|k: int| 0 <= k < 4 implies -(MAX_COORD * MAX_COORD) <= #[trigger] (a@[k][ri]
            * b@[ci][k]) <= MAX_COORD * MAX_COORD by {
            lemma_mul_bound(a@[k][ri], b@[ci][k], MAX_COORD as int, MAX_COORD as int);
        }
        lemma_tdiv_bound(
            a@[0][ri] * b@[ci][0] + a@[1][ri] * b@[ci][1] + a@[2][ri] * b@[ci][2] + a@[3][ri]
                * b@[ci][3],
            SCALE as int,
            4 * (MAX_COORD * MAX_COORD),
        );
    }
    let s: i128 = (a.e[0][r] as i128) * (b.e[c][0] as i128) + (a.e[1][r] as i128) * (b.e[c][1]
        as i128) + (a.e[2][r] as i128) * (b.e[c][2] as i128) + (a.e[3][r] as i128) * (b.e[c][3]
        as i128);
    tdiv_i128(s, SCALE as i128)
}

/// Matrix multiplication: `compose(a, b)` is the transform that
/// applies `b` first and `a` second, so a chain reads left to right.
pub fn compose(a: &Mat4, b: &Mat4) -> (m: Mat4)
    requires
        mat_bounded(a@, MAX_COORD as int),
        mat_bounded(b@, MAX_COORD as int),
    ensures
        m@ == mul_model(a@, b@),
{
    let m = Mat4 {
        e: [
            [mul_entry(a, b, 0, 0), mul_entry(a, b, 0, 1), mul_entry(a, b, 0, 2), mul_entry(a, b, 0, 3)],
            [mul_entry(a, b, 1, 0), mul_entry(a, b, 1, 1), mul_entry(a, b, 1, 2), mul_entry(a, b, 1, 3)],
            [mul_entry(a, b, 2, 0), mul_entry(a, b, 2, 1), mul_entry(a, b, 2, 2), mul_entry(a, b, 2, 3)],
            [mul_entry(a, b, 3, 0), mul_entry(a, b, 3, 1), mul_entry(a, b, 3, 2), mul_entry(a, b, 3, 3)],
        ],
    };
    proof {
        assert(m@ =~~= mul_model(a@, b@));
    }
    m
}

/// Bound on every entry of a product from bounds on the factors.
pub proof fn lemma_mul_model_bounded(a: Seq<Seq<int>>, b: Seq<Seq<int>>, ba: int, bb: int)
    requires
        0 <= ba,
        0 <= bb,
        mat_bounded(a, ba),
        mat_bounded(b, bb),
    ensures
        mat_bounded(mul_model(a, b), tdiv(4 * (ba * bb), SCALE as int)),
{
    let cap = tdiv(4 * (ba * bb), SCALE as int);
    assert(4 * (ba * bb) >= 0) by (nonlinear_arith)
        requires 0 <= ba && 0 <= bb;
    assert forall|c: int, r: int| 0 <= c < 4 && 0 <= r < 4 implies -cap <= #[trigger] mul_model(
        a,
        b,
    )[c][r] <= cap by {
        assert forall|k: int| 0 <= k < 4 implies -(ba * bb) <= #[trigger] (a[k][r] * b[c][k])
            <= ba * bb by {
            lemma_mul_bound(a[k][r], b[c][k], ba, bb);
        }
        lemma_tdiv_bound(
            a[0][r] * b[c][0] + a[1][r] * b[c][1] + a[2][r] * b[c][2] + a[3][r] * b[c][3],
            SCALE as int,
            4 * (ba * bb),
        );
    }
}

/// A magnitude bound on every entry also holds for any larger bound.
pub proof fn lemma_mat_bounded_widen(m: Seq<Seq<int>>, b1: int, b2: int)
    requires
        mat_bounded(m, b1),
        b1 <= b2,
    ensures
        mat_bounded(m, b2),
{
    assert forall|c: int, r: int| 0 <= c < 4 && 0 <= r < 4 implies -b2 <= #[trigger] m[c][r]
        <= b2 by {
        assert(-b1 <= m[c][r] <= b1);
    }
}

/// Multiplying by the identity on either side leaves a matrix
/// unchanged: scaling an entry by `SCALE` and dividing it back out is
/// exact for every integer entry.
pub proof fn lemma_identity_neutral(m: Seq<Seq<int>>)
    requires
        wf_model(m),
    ensures
        mul_model(identity_model(), m) == m,
        mul_model(m, identity_model()) == m,
{
    let s = SCALE as int;
    assert forall|c: int, r: int| 0 <= c < 4 && 0 <= r < 4 implies #[trigger] mul_entry_model(
        identity_model(),
        m,
        c,
        r,
    ) == m[c][r] && mul_entry_model(m, identity_model(), c, r) == m[c][r] by {
        let v = m[c][r];
        let i = identity_model();
        let x0 = m[c][0];
        let x1 = m[c][1];
        let x2 = m[c][2];
        let x3 = m[c][3];
        let c0 = i[0][r];
        let c1 = i[1][r];
        let c2 = i[2][r];
        let c3 = i[3][r];
        assert((c0 == s && c1 == 0 && c2 == 0 && c3 == 0 && v == x0) || (c0 == 0 && c1 == s && c2
            == 0 && c3 == 0 && v == x1) || (c0 == 0 && c1 == 0 && c2 == s && c3 == 0 && v == x2)
            || (c0 == 0 && c1 == 0 && c2 == 0 && c3 == s && v == x3));
        assert(c0 * x0 + c1 * x1 + c2 * x2 + c3 * x3 == s * v && s * v == v * s) by (
        nonlinear_arith)
            requires
                (c0 == s && c1 == 0 && c2 == 0 && c3 == 0 && v == x0) || (c0 == 0 && c1 == s && c2
                    == 0 && c3 == 0 && v == x1) || (c0 == 0 && c1 == 0 && c2 == s && c3 == 0 && v
                    == x2) || (c0 == 0 && c1 == 0 && c2 == 0 && c3 == s && v == x3),
        ;
        assert(mul_entry_model(identity_model(), m, c, r) == tdiv(v * s, s));
        let y0 = m[0][r];
        let y1 = m[1][r];
        let y2 = m[2][r];
        let y3 = m[3][r];
        let d0 = i[c][0];
        let d1 = i[c][1];
        let d2 = i[c][2];
        let d3 = i[c][3];
        assert((d0 == s && d1 == 0 && d2 == 0 && d3 == 0 && v == y0) || (d0 == 0 && d1 == s && d2
            == 0 && d3 == 0 && v == y1) || (d0 == 0 && d1 == 0 && d2 == s && d3 == 0 && v == y2)
            || (d0 == 0 && d1 == 0 && d2 == 0 && d3 == s && v == y3));
        assert(y0 * d0 + y1 * d1 + y2 * d2 + y3 * d3 == v * s) by (nonlinear_arith)
            requires
                (d0 == s && d1 == 0 && d2 == 0 && d3 == 0 && v == y0) || (d0 == 0 && d1 == s && d2
                    == 0 && d3 == 0 && v == y1) || (d0 == 0 && d1 == 0 && d2 == s && d3 == 0 && v
                    == y2) || (d0 == 0 && d1 == 0 && d2 == 0 && d3 == s && v == y3),
        ;
        assert(mul_entry_model(m, identity_model(), c, r) == tdiv(v * s, s));
        assert(s * v == v * s) by (nonlinear_arith);
        if v >= 0 {
            assert(v * s >= 0) by (nonlinear_arith)
                requires v >= 0 && s > 0;
            lemma_div_by_multiple(v, s);
        } else {
            assert(v * s < 0 && -(v * s) == (-v) * s) by (nonlinear_arith)
                requires v < 0 && s > 0;
            lemma_div_by_multiple(-v, s);
        }
    }
    assert(mul_model(identity_model(), m) =~~= m);
    assert(mul_model(m, identity_model()) =~~= m);
}

} // verus!
