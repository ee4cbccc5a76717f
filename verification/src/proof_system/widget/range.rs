//! The range gate: each of four consecutive accumulators exceeds four times
//! the one before it by a quad, a number from 0 to 3.

use crate::algebra::{lemma_product_vanishes, lemma_sum_vanishes};
use crate::field::{reduce, Scalar};
use crate::term::Term;
use vstd::prelude::*;

verus! {

/// The integer expression that vanishes exactly when `f` is 0, 1, 2 or 3.
pub open spec fn delta(f: int) -> int {
    f * (f - 1) * (f - 2) * (f - 3)
}

/// The four quad checks of one row, each weighted by a power of `kappa`.
pub open spec fn gate_identity(
    kappa: int,
    w_l: int,
    w_r: int,
    w_o: int,
    w_4: int,
    w_4_next: int,
) -> int {
    delta(w_o - 4 * w_4) + delta(w_r - 4 * w_o) * kappa + delta(w_l - 4 * w_r) * (kappa * kappa)
        + delta(w_4_next - 4 * w_l) * (kappa * kappa * kappa)
}

/// This widget's share of the quotient at one point: its checks, weighted by
/// powers of the challenge's square, switched on by the selector and
/// weighted by the challenge.
pub open spec fn quotient_term(
    q_range: int,
    challenge: int,
    w_l: int,
    w_r: int,
    w_o: int,
    w_4: int,
    w_4_next: int,
) -> int {
    reduce(
        gate_identity(challenge * challenge, w_l, w_r, w_o, w_4, w_4_next) * q_range * challenge,
    )
}

/// Whether a row meets the range gate's equations: the selector is off, or
/// each accumulator exceeds four times the one before it by a quad.
pub open spec fn is_satisfied(
    q_range: int,
    w_l: int,
    w_r: int,
    w_o: int,
    w_4: int,
    w_4_next: int,
) -> bool {
    reduce(q_range) == 0 || {
        &&& reduce(delta(w_o - 4 * w_4)) == 0
        &&& reduce(delta(w_r - 4 * w_o)) == 0
        &&& reduce(delta(w_l - 4 * w_r)) == 0
        &&& reduce(delta(w_4_next - 4 * w_l)) == 0
    }
}

/// On a row that meets the range gate's equations, this widget's share of
/// the quotient is zero, whatever the challenge.
pub proof fn lemma_satisfied_term_vanishes(
    q_range: int,
    challenge: int,
    w_l: int,
    w_r: int,
    w_o: int,
    w_4: int,
    w_4_next: int,
)
    requires
        is_satisfied(q_range, w_l, w_r, w_o, w_4, w_4_next),
    ensures
        quotient_term(q_range, challenge, w_l, w_r, w_o, w_4, w_4_next) == 0,
{
    let kappa = challenge * challenge;
    let identity = gate_identity(kappa, w_l, w_r, w_o, w_4, w_4_next);
    if reduce(q_range) != 0 {
        let b_1 = delta(w_o - 4 * w_4);
        let b_2 = delta(w_r - 4 * w_o) * kappa;
        let b_3 = delta(w_l - 4 * w_r) * (kappa * kappa);
        let b_4 = delta(w_4_next - 4 * w_l) * (kappa * kappa * kappa);
        lemma_product_vanishes(delta(w_r - 4 * w_o), kappa);
        lemma_product_vanishes(delta(w_l - 4 * w_r), kappa * kappa);
        lemma_product_vanishes(delta(w_4_next - 4 * w_l), kappa * kappa * kappa);
        lemma_sum_vanishes(b_1, b_2);
        lemma_sum_vanishes(b_1 + b_2, b_3);
        lemma_sum_vanishes(b_1 + b_2 + b_3, b_4);
        assert(reduce(identity) == 0);
    }
    lemma_product_vanishes(identity, q_range);
    lemma_product_vanishes(identity * q_range, challenge);
}

/// `delta` of a term.
pub(crate) fn delta_term(f: &Term) -> (r: Term)
    requires
        f.wf(),
    ensures
        r.wf(),
        r.meaning@ == delta(f.meaning@),
{
    let f_1 = f.sub(&Term::constant(1));
    let f_2 = f.sub(&Term::constant(2));
    let f_3 = f.sub(&Term::constant(3));
    f.mul(&f_1).mul(&f_2).mul(&f_3)
}

/// The selector of the range gate, as evaluations over the coset.
pub struct ProverKey {
    pub q_range: Vec<Scalar>,
}

impl ProverKey {
    /// The selector holds exactly `len` evaluations.
    pub open spec fn covers(&self, len: nat) -> bool {
        self.q_range@.len() == len
    }

    /// This widget's share of the quotient at point `i`, for the given
    /// challenge and wires.
    pub open spec fn term_at(
        &self,
        i: int,
        challenge: int,
        w_l: int,
        w_r: int,
        w_o: int,
        w_4: int,
        w_4_next: int,
    ) -> int {
        quotient_term(self.q_range@[i]@, challenge, w_l, w_r, w_o, w_4, w_4_next)
    }

    /// Whether the selector holds exactly `len` evaluations.
    pub fn is_covering(&self, len: usize) -> (r: bool)
        ensures
            r == self.covers(len as nat),
    {
        self.q_range.len() == len
    }

    /// This widget's share of the quotient at the point of the given index.
    pub fn compute_quotient_i(
        &self,
        index: usize,
        range_separation_challenge: &Scalar,
        w_l_i: &Scalar,
        w_r_i: &Scalar,
        w_o_i: &Scalar,
        w_4_i: &Scalar,
        w_4_i_next: &Scalar,
    ) -> (r: Scalar)
        requires
            exists|len: nat| self.covers(len) && index < len,
        ensures
            r@ == self.term_at(
                index as int,
                range_separation_challenge@,
                w_l_i@,
                w_r_i@,
                w_o_i@,
                w_4_i@,
                w_4_i_next@,
            ),
    {
        let four = Term::constant(4);
        let q_range = Term::of(&self.q_range[index]);
        let challenge = Term::of(range_separation_challenge);
        let w_l = Term::of(w_l_i);
        let w_r = Term::of(w_r_i);
        let w_o = Term::of(w_o_i);
        let w_4 = Term::of(w_4_i);
        let w_4_next = Term::of(w_4_i_next);

        let kappa = challenge.square();
        let kappa_sq = kappa.square();
        let kappa_cu = kappa_sq.mul(&kappa);

        let b_1 = delta_term(&w_o.sub(&four.mul(&w_4)));
        let b_2 = delta_term(&w_r.sub(&four.mul(&w_o))).mul(&kappa);
        let b_3 = delta_term(&w_l.sub(&four.mul(&w_r))).mul(&kappa_sq);
        let b_4 = delta_term(&w_4_next.sub(&four.mul(&w_l))).mul(&kappa_cu);

        b_1.add(&b_2).add(&b_3).add(&b_4).mul(&q_range).mul(&challenge).value
    }
}

} // verus!
