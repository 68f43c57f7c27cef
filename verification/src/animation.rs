//! Animation state: one angle per rotation axis in use.
//!
//! Angles are fixed-point radians in `[0, TWO_PI)`.  Each frame adds
//! a fixed positive step to every angle; an angle that reaches or
//! passes the full turn is reset to zero, so the range invariant
//! holds after every update.

use vstd::prelude::*;
use vstd::arithmetic::div_mod::{lemma_fundamental_div_mod_converse_mod, lemma_mod_self_0};

verus! {

/// A full turn of two pi radians, in fixed-point units.
pub const TWO_PI: i64 = 6_283_185;

/// The largest per-frame step: keeps the sum of an in-range angle and
/// the step inside `i64`.
pub const MAX_STEP: i64 = 9_223_372_036_854_775_807 - 6_283_185;

/// An angle lies in `[0, TWO_PI)`.
pub open spec fn angle_in_range(a: int) -> bool {
    0 <= a < TWO_PI as int
}

/// One update of a single angle: add the step, and reset to zero on
/// reaching or passing the full turn.
pub open spec fn advance1(a: int, step: int) -> int {
    if a + step >= TWO_PI as int {
        0
    } else {
        a + step
    }
}

/// The value of an angle after `k` updates with the same step.
pub open spec fn advance_iter(a: int, step: int, k: nat) -> int
    decreases k,
{
    if k == 0 {
        a
    } else {
        advance1(advance_iter(a, step, (k - 1) as nat), step)
    }
}

/// Every angle of a state lies in `[0, TWO_PI)`.
pub open spec fn wf_state(s: Seq<i64>) -> bool {
    forall|i: int| 0 <= i < s.len() ==> angle_in_range(#[trigger] s[i] as int)
}

/// The ordered list of animation angles, one per rotation axis.
pub struct AnimationState {
    pub angles: Vec<i64>,
}

impl View for AnimationState {
    type V = Seq<i64>;

    open spec fn view(&self) -> Seq<i64> {
        self.angles@
    }
}

impl AnimationState {
    /// A state from its initial angles, each already in range.
    pub fn new(angles: Vec<i64>) -> (s: AnimationState)
        requires
            wf_state(angles@),
        ensures
            s@ == angles@,
            wf_state(s@),
    {
        AnimationState { angles }
    }

    /// How many angles the state holds.
    pub fn len(&self) -> (n: usize)
        ensures
            n == self@.len(),
    {
        self.angles.len()
    }

    /// The angle at `i`.
    pub fn angle(&self, i: usize) -> (a: i64)
        requires
            i < self@.len(),
        ensures
            a == self@[i as int],
    {
        self.angles[i]
    }

    /// Add `step` to every angle, resetting an angle that reaches or
    /// passes the full turn to zero, so that every angle stays in
    /// `[0, TWO_PI)`.
    pub fn advance(&mut self, step: i64)
        requires
            0 < step <= MAX_STEP,
            wf_state(old(self)@),
        ensures
            final(self)@.len() == old(self)@.len(),
            forall|i: int| 0 <= i < old(self)@.len() ==> #[trigger] final(self)@[i] as int
                == advance1(old(self)@[i] as int, step as int),
            wf_state(final(self)@),
    {
        let n = self.angles.len();
        let mut out: Vec<i64> = Vec::new();
        let mut i: usize = 0;
        while i < n
            invariant
                0 < step <= MAX_STEP,
                wf_state(old(self)@),
                n == old(self)@.len(),
                self@ == old(self)@,
                i <= n,
                out@.len() == i as int,
                forall|j: int| 0 <= j < i as int ==> #[trigger] out@[j] as int == advance1(
                    old(self)@[j] as int,
                    step as int,
                ),
            decreases n - i,
        {
            let a = self.angles[i];
            let next = if a + step >= TWO_PI {
                0
            } else {
                a + step
            };
            out.push(next);
            i += 1;
        }
        self.angles = out;
    }
}

/// Repeated updates keep an in-range angle in `[0, TWO_PI)`, for
/// every positive step and every number of calls.
pub proof fn lemma_advance_iter_in_range(a: int, step: int, k: nat)
    requires
        angle_in_range(a),
        step > 0,
    ensures
        angle_in_range(advance_iter(a, step, k)),
    decreases k,
{
    if k > 0 {
        lemma_advance_iter_in_range(a, step, (k - 1) as nat);
    }
}

/// As long as the angle has not wrapped past the full turn, `k`
/// updates land exactly on `(a + k * step) % TWO_PI`: the sum while
/// it is below the full turn, and zero on hitting it exactly.  Once a
/// reset cuts a sum strictly above the full turn back to zero, the
/// two sides drift apart, so the hypothesis bounds the total advance
/// by one full turn.
pub proof fn lemma_advance_iter_mod(a: int, step: int, k: nat)
    requires
        angle_in_range(a),
        step > 0,
        a + k * step <= TWO_PI as int,
    ensures
        advance_iter(a, step, k) == (a + k * step) % (TWO_PI as int),
    decreases k,
{
    let t = TWO_PI as int;
    if k == 0 {
        assert(k * step == 0) by (nonlinear_arith)
            requires k == 0;
        lemma_fundamental_div_mod_converse_mod(a, t, 0, a);
    } else {
        assert((k - 1) * step == k * step - step) by (nonlinear_arith);
        lemma_advance_iter_mod(a, step, (k - 1) as nat);
        let prev = advance_iter(a, step, (k - 1) as nat);
        assert(a + (k - 1) * step < t);
        lemma_fundamental_div_mod_converse_mod(a + (k - 1) * step, t, 0, a + (k - 1) * step);
        assert(prev == a + (k - 1) * step);
        if a + k * step == t {
            lemma_mod_self_0(t);
            assert(advance_iter(a, step, k) == 0);
        } else {
            lemma_fundamental_div_mod_converse_mod(a + k * step, t, 0, a + k * step);
        }
    }
}

} // verus!
