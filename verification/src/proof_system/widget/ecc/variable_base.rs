//! The sum of two points of the curve, both given by wires, as a gate.

use crate::algebra::{lemma_product_vanishes, lemma_sum_vanishes};
use crate::field::{reduce, Scalar};
use crate::term::Term;
use crate::proof_system::widget::ecc::{edwards_d, edwards_d_scalar};
use vstd::prelude::*;

verus! {

/// The check that the wire `x1_y2` holds the product of `x_1` and `y_2`.
pub open spec fn xy_consistency(x_1: int, y_2: int, x1_y2: int) -> int {
    x_1 * y_2 - x1_y2
}

/// The check of the sum's first coordinate.
pub open spec fn x3_consistency(y_1: int, x_2: int, x_3: int, x1_y2: int) -> int {
    let y1_x2 = y_1 * x_2;
    let x3_lhs = x1_y2 + y1_x2;
    let x3_rhs = x_3 + x_3 * edwards_d() * x1_y2 * y1_x2;
    x3_lhs - x3_rhs
}

/// The check of the sum's second coordinate.
pub open spec fn y3_consistency(x_1: int, y_1: int, x_2: int, y_2: int, y_3: int, x1_y2: int) -> int {
    let y1_x2 = y_1 * x_2;
    let y1_y2 = y_1 * y_2;
    let x1_x2 = x_1 * x_2;
    let y3_lhs = y1_y2 + x1_x2;
    let y3_rhs = y_3 - y_3 * edwards_d() * x1_y2 * y1_x2;
    y3_lhs - y3_rhs
}

/// The three checks of one row, each weighted by a power of `kappa`. The
/// first point is on the wires `w_l` and `w_r`, the second on `w_o` and
/// `w_4`, and the sum on the next row's `w_l` and `w_r`.
pub open spec fn gate_identity(
    kappa: int,
    w_l: int,
    w_l_next: int,
    w_r: int,
    w_r_next: int,
    w_o: int,
    w_4: int,
    w_4_next: int,
) -> int {
    xy_consistency(w_l, w_4, w_4_next) + x3_consistency(w_r, w_o, w_l_next, w_4_next) * kappa
        + y3_consistency(w_l, w_r, w_o, w_4, w_r_next, w_4_next) * (kappa * kappa)
}

/// This widget's share of the quotient at one point: its checks, weighted by
/// powers of the challenge's square, switched on by the selector and
/// weighted by the challenge.
pub open spec fn quotient_term(
    q_variable_group_add: int,
    challenge: int,
    w_l: int,
    w_l_next: int,
    w_r: int,
    w_r_next: int,
    w_o: int,
    w_4: int,
    w_4_next: int,
) -> int {
    reduce(
        gate_identity(
            challenge * challenge,
            w_l,
            w_l_next,
            w_r,
            w_r_next,
            w_o,
            w_4,
            w_4_next,
        ) * q_variable_group_add * challenge,
    )
}

/// Whether a row meets the variable-base gate's equations: the selector is
/// off, or the next row holds the sum of the two points.
pub open spec fn is_satisfied(
    q_variable_group_add: int,
    w_l: int,
    w_l_next: int,
    w_r: int,
    w_r_next: int,
    w_o: int,
    w_4: int,
    w_4_next: int,
) -> bool {
    reduce(q_variable_group_add) == 0 || {
        &&& reduce(xy_consistency(w_l, w_4, w_4_next)) == 0
        &&& reduce(x3_consistency(w_r, w_o, w_l_next, w_4_next)) == 0
        &&& reduce(y3_consistency(w_l, w_r, w_o, w_4, w_r_next, w_4_next)) == 0
    }
}

/// On a row that meets the variable-base gate's equations, this widget's
/// share of the quotient is zero, whatever the challenge.
pub proof fn lemma_satisfied_term_vanishes(
    q_variable_group_add: int,
    challenge: int,
    w_l: int,
    w_l_next: int,
    w_r: int,
    w_r_next: int,
    w_o: int,
    w_4: int,
    w_4_next: int,
)
    requires
        is_satisfied(q_variable_group_add, w_l, w_l_next, w_r, w_r_next, w_o, w_4, w_4_next),
    ensures
        quotient_term(
            q_variable_group_add,
            challenge,
            w_l,
            w_l_next,
            w_r,
            w_r_next,
            w_o,
            w_4,
            w_4_next,
        ) == 0,
{
    let kappa = challenge * challenge;
    let identity = gate_identity(kappa, w_l, w_l_next, w_r, w_r_next, w_o, w_4, w_4_next);
    if reduce(q_variable_group_add) != 0 {
        let xy = xy_consistency(w_l, w_4, w_4_next);
        let x3 = x3_consistency(w_r, w_o, w_l_next, w_4_next);
        let y3 = y3_consistency(w_l, w_r, w_o, w_4, w_r_next, w_4_next);
        lemma_product_vanishes(x3, kappa);
        lemma_product_vanishes(y3, kappa * kappa);
        lemma_sum_vanishes(xy, x3 * kappa);
        lemma_sum_vanishes(xy + x3 * kappa, y3 * (kappa * kappa));
        assert(reduce(identity) == 0);
    }
    lemma_product_vanishes(identity, q_variable_group_add);
    lemma_product_vanishes(identity * q_variable_group_add, challenge);
}

/// The selector of the variable-base gate, as evaluations over the coset.
pub struct ProverKey {
    pub q_variable_group_add: Vec<Scalar>,
}

impl ProverKey {
    /// The selector holds exactly `len` evaluations.
    pub open spec fn covers(&self, len: nat) -> bool {
        self.q_variable_group_add@.len() == len
    }

    /// This widget's share of the quotient at point `i`, for the given
    /// challenge and wires.
    pub open spec fn term_at(
        &self,
        i: int,
        challenge: int,
        w_l: int,
        w_l_next: int,
        w_r: int,
        w_r_next: int,
        w_o: int,
        w_4: int,
        w_4_next: int,
    ) -> int {
        quotient_term(
            self.q_variable_group_add@[i]@,
            challenge,
            w_l,
            w_l_next,
            w_r,
            w_r_next,
            w_o,
            w_4,
            w_4_next,
        )
    }

    /// Whether the selector holds exactly `len` evaluations.
    pub fn is_covering(&self, len: usize) -> (r: bool)
        ensures
            r == self.covers(len as nat),
    {
        self.q_variable_group_add.len() == len
    }

    /// This widget's share of the quotient at the point of the given index.
    pub fn compute_quotient_i(
        &self,
        index: usize,
        curve_add_separation_challenge: &Scalar,
        w_l_i: &Scalar,
        w_l_i_next: &Scalar,
        w_r_i: &Scalar,
        w_r_i_next: &Scalar,
        w_o_i: &Scalar,
        w_4_i: &Scalar,
        w_4_i_next: &Scalar,
    ) -> (r: Scalar)
        requires
            exists|len: nat| self.covers(len) && index < len,
        ensures
            r@ == self.term_at(
                index as int,
                curve_add_separation_challenge@,
                w_l_i@,
                w_l_i_next@,
                w_r_i@,
                w_r_i_next@,
                w_o_i@,
                w_4_i@,
                w_4_i_next@,
            ),
    {
        let edwards_d = Term::of(&edwards_d_scalar());
        let q_variable_group_add = Term::of(&self.q_variable_group_add[index]);
        let challenge = Term::of(curve_add_separation_challenge);

        let kappa = challenge.square();

        let x_1 = Term::of(w_l_i);
        let x_3 = Term::of(w_l_i_next);
        let y_1 = Term::of(w_r_i);
        let y_3 = Term::of(w_r_i_next);
        let x_2 = Term::of(w_o_i);
        let y_2 = Term::of(w_4_i);
        let x1_y2 = Term::of(w_4_i_next);

        let xy_consistency = x_1.mul(&y_2).sub(&x1_y2);

        let y1_x2 = y_1.mul(&x_2);
        let y1_y2 = y_1.mul(&y_2);
        let x1_x2 = x_1.mul(&x_2);

        let x3_lhs = x1_y2.add(&y1_x2);
        let x3_rhs = x_3.add(&x_3.mul(&edwards_d).mul(&x1_y2).mul(&y1_x2));
        let x3_consistency = x3_lhs.sub(&x3_rhs).mul(&kappa);

        let y3_lhs = y1_y2.add(&x1_x2);
        let y3_rhs = y_3.sub(&y_3.mul(&edwards_d).mul(&x1_y2).mul(&y1_x2));
        let y3_consistency = y3_lhs.sub(&y3_rhs).mul(&kappa.square());

        xy_consistency.add(&x3_consistency).add(&y3_consistency).mul(&q_variable_group_add).mul(
            &challenge,
        ).value
    }
}

} // verus!
