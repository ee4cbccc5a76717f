//! The logic gate: one step of a bitwise AND or XOR of two numbers, taken
//! two bits at a time.

use crate::algebra::{lemma_product_vanishes, lemma_sum_vanishes};
use crate::field::{reduce, Scalar};
use crate::term::Term;
use crate::proof_system::widget::range::{delta, delta_term};
use vstd::prelude::*;

verus! {

/// The integer expression that ties the quad `w` of the product and the quad
/// `c` of the result to the quads `a` and `b` of the operands. The selector
/// `q_c` tells AND from XOR.
pub open spec fn delta_xor_and(a: int, b: int, w: int, c: int, q_c: int) -> int {
    let f = w * (w * (4 * w - 18 * (a + b) + 81) + 18 * (a * a + b * b) - 81 * (a + b) + 83);
    let e = 3 * (a + b + c) - 2 * f;
    let b = q_c * (9 * c - 3 * (a + b));
    b + e
}

/// The five checks of one row, each weighted by a power of `kappa`.
pub open spec fn gate_identity(
    q_c: int,
    kappa: int,
    w_l: int,
    w_l_next: int,
    w_r: int,
    w_r_next: int,
    w_o: int,
    w_4: int,
    w_4_next: int,
) -> int {
    let a = w_l_next - 4 * w_l;
    let b = w_r_next - 4 * w_r;
    let d = w_4_next - 4 * w_4;
    (w_o - a * b) * (kappa * kappa * kappa) + delta(a) + delta(b) * kappa + delta(d) * (kappa
        * kappa) + delta_xor_and(a, b, w_o, d, q_c) * (kappa * kappa * kappa * kappa)
}

/// This widget's share of the quotient at one point: its checks, weighted by
/// powers of the challenge's square, switched on by the selector and
/// weighted by the challenge.
pub open spec fn quotient_term(
    q_c: int,
    q_logic: int,
    challenge: int,
    w_l: int,
    w_l_next: int,
    w_r: int,
    w_r_next: int,
    w_o: int,
    w_4: int,
    w_4_next: int,
) -> int {
    reduce(
        q_logic * gate_identity(
            q_c,
            challenge * challenge,
            w_l,
            w_l_next,
            w_r,
            w_r_next,
            w_o,
            w_4,
            w_4_next,
        ) * challenge,
    )
}

/// Whether a row meets the logic gate's equations: the selector is off, or
/// the three accumulators grow by quads, the wire `w_o` holds the product of
/// the operands' quads, and the result's quad is their AND or XOR.
pub open spec fn is_satisfied(
    q_c: int,
    q_logic: int,
    w_l: int,
    w_l_next: int,
    w_r: int,
    w_r_next: int,
    w_o: int,
    w_4: int,
    w_4_next: int,
) -> bool {
    let a = w_l_next - 4 * w_l;
    let b = w_r_next - 4 * w_r;
    let d = w_4_next - 4 * w_4;
    reduce(q_logic) == 0 || {
        &&& reduce(delta(a)) == 0
        &&& reduce(delta(b)) == 0
        &&& reduce(delta(d)) == 0
        &&& reduce(w_o - a * b) == 0
        &&& reduce(delta_xor_and(a, b, w_o, d, q_c)) == 0
    }
}

/// On a row that meets the logic gate's equations, this widget's share of
/// the quotient is zero, whatever the challenge.
pub proof fn lemma_satisfied_term_vanishes(
    q_c: int,
    q_logic: int,
    challenge: int,
    w_l: int,
    w_l_next: int,
    w_r: int,
    w_r_next: int,
    w_o: int,
    w_4: int,
    w_4_next: int,
)
    requires
        is_satisfied(q_c, q_logic, w_l, w_l_next, w_r, w_r_next, w_o, w_4, w_4_next),
    ensures
        quotient_term(q_c, q_logic, challenge, w_l, w_l_next, w_r, w_r_next, w_o, w_4, w_4_next)
            == 0,
{
    let kappa = challenge * challenge;
    let identity = gate_identity(q_c, kappa, w_l, w_l_next, w_r, w_r_next, w_o, w_4, w_4_next);
    if reduce(q_logic) != 0 {
        let a = w_l_next - 4 * w_l;
        let b = w_r_next - 4 * w_r;
        let d = w_4_next - 4 * w_4;
        let c_3 = (w_o - a * b) * (kappa * kappa * kappa);
        let c_0 = delta(a);
        let c_1 = delta(b) * kappa;
        let c_2 = delta(d) * (kappa * kappa);
        let c_4 = delta_xor_and(a, b, w_o, d, q_c) * (kappa * kappa * kappa * kappa);
        lemma_product_vanishes(w_o - a * b, kappa * kappa * kappa);
        lemma_product_vanishes(delta(b), kappa);
        lemma_product_vanishes(delta(d), kappa * kappa);
        lemma_product_vanishes(delta_xor_and(a, b, w_o, d, q_c), kappa * kappa * kappa * kappa);
        lemma_sum_vanishes(c_3, c_0);
        lemma_sum_vanishes(c_3 + c_0, c_1);
        lemma_sum_vanishes(c_3 + c_0 + c_1, c_2);
        lemma_sum_vanishes(c_3 + c_0 + c_1 + c_2, c_4);
        assert(reduce(identity) == 0);
    }
    lemma_product_vanishes(q_logic, identity);
    lemma_product_vanishes(q_logic * identity, challenge);
}

/// `delta_xor_and` of terms.
fn delta_xor_and_term(a: &Term, b: &Term, w: &Term, c: &Term, q_c: &Term) -> (r: Term)
    requires
        a.wf(),
        b.wf(),
        w.wf(),
        c.wf(),
        q_c.wf(),
    ensures
        r.wf(),
        r.meaning@ == delta_xor_and(a.meaning@, b.meaning@, w.meaning@, c.meaning@, q_c.meaning@),
{
    let nine = Term::constant(9);
    let two = Term::constant(2);
    let three = Term::constant(3);
    let four = Term::constant(4);
    let eighteen = Term::constant(18);
    let eighty_one = Term::constant(81);
    let eighty_three = Term::constant(83);

    let a_plus_b = a.add(b);
    let inner = four.mul(w).sub(&eighteen.mul(&a_plus_b)).add(&eighty_one);
    let squares = a.square().add(&b.square());
    let f = w.mul(
        &w.mul(&inner).add(&eighteen.mul(&squares)).sub(&eighty_one.mul(&a_plus_b)).add(
            &eighty_three,
        ),
    );
    let e = three.mul(&a_plus_b.add(c)).sub(&two.mul(&f));
    let b = q_c.mul(&nine.mul(c).sub(&three.mul(&a_plus_b)));
    b.add(&e)
}

/// The selectors of the logic gate, each as evaluations over the coset.
pub struct ProverKey {
    pub q_c: Vec<Scalar>,
    pub q_logic: Vec<Scalar>,
}

impl ProverKey {
    /// Every selector holds exactly `len` evaluations.
    pub open spec fn covers(&self, len: nat) -> bool {
        &&& self.q_c@.len() == len
        &&& self.q_logic@.len() == len
    }

    /// This widget's share of the quotient at point `i`, for the given
    /// challenge and wires.
    pub open spec fn term_at(
        &self,
        i: int,
        challenge: int,
        w_l: int,
        w_l_next: int,
        w_r: int,
        w_r_next: int,
        w_o: int,
        w_4: int,
        w_4_next: int,
    ) -> int {
        quotient_term(
            self.q_c@[i]@,
            self.q_logic@[i]@,
            challenge,
            w_l,
            w_l_next,
            w_r,
            w_r_next,
            w_o,
            w_4,
            w_4_next,
        )
    }

    /// Whether every selector holds exactly `len` evaluations.
    pub fn is_covering(&self, len: usize) -> (r: bool)
        ensures
            r == self.covers(len as nat),
    {
        self.q_c.len() == len && self.q_logic.len() == len
    }

    /// This widget's share of the quotient at the point of the given index.
    pub fn compute_quotient_i(
        &self,
        index: usize,
        logic_separation_challenge: &Scalar,
        w_l_i: &Scalar,
        w_l_i_next: &Scalar,
        w_r_i: &Scalar,
        w_r_i_next: &Scalar,
        w_o_i: &Scalar,
        w_4_i: &Scalar,
        w_4_i_next: &Scalar,
    ) -> (r: Scalar)
        requires
            exists|len: nat| self.covers(len) && index < len,
        ensures
            r@ == self.term_at(
                index as int,
                logic_separation_challenge@,
                w_l_i@,
                w_l_i_next@,
                w_r_i@,
                w_r_i_next@,
                w_o_i@,
                w_4_i@,
                w_4_i_next@,
            ),
    {
        let four = Term::constant(4);
        let q_logic = Term::of(&self.q_logic[index]);
        let q_c = Term::of(&self.q_c[index]);
        let challenge = Term::of(logic_separation_challenge);
        let w_l = Term::of(w_l_i);
        let w_l_next = Term::of(w_l_i_next);
        let w_r = Term::of(w_r_i);
        let w_r_next = Term::of(w_r_i_next);
        let w_o = Term::of(w_o_i);
        let w_4 = Term::of(w_4_i);
        let w_4_next = Term::of(w_4_i_next);

        let kappa = challenge.square();
        let kappa_sq = kappa.square();
        let kappa_cu = kappa_sq.mul(&kappa);
        let kappa_qu = kappa_cu.mul(&kappa);

        let a = w_l_next.sub(&four.mul(&w_l));
        let c_0 = delta_term(&a);

        let b = w_r_next.sub(&four.mul(&w_r));
        let c_1 = delta_term(&b).mul(&kappa);

        let d = w_4_next.sub(&four.mul(&w_4));
        let c_2 = delta_term(&d).mul(&kappa_sq);

        let c_3 = w_o.sub(&a.mul(&b)).mul(&kappa_cu);

        let c_4 = delta_xor_and_term(&a, &b, &w_o, &d, &q_c).mul(&kappa_qu);

        q_logic.mul(&c_3.add(&c_0).add(&c_1).add(&c_2).add(&c_4)).mul(&challenge).value
    }
}

} // verus!
