//! One step of multiplying a fixed point of the curve by a scalar, as a gate:
//! the accumulated point grows by the fixed point's next multiple,
//! by its negative or by nothing, as the scalar's next signed bit says.

use crate::algebra::{lemma_product_vanishes, lemma_sum_vanishes};
use crate::field::{reduce, Scalar};
use crate::term::Term;
use crate::proof_system::widget::ecc::{edwards_d, edwards_d_scalar};
use vstd::prelude::*;

verus! {

/// The signed bit that one row adds to the accumulated scalar.
pub open spec fn extract_bit(accumulated_bit: int, accumulated_bit_next: int) -> int {
    accumulated_bit_next - accumulated_bit - accumulated_bit
}

/// The integer expression that vanishes exactly when `bit` is -1, 0 or 1.
pub open spec fn bit_consistency(bit: int) -> int {
    bit * (bit - 1) * (bit + 1)
}

/// The check that the wire `xy_alpha` holds the product of the coordinates of
/// the point to add. `q_c` holds that product for the bit 1.
pub open spec fn xy_consistency(bit: int, q_c: int, xy_alpha: int) -> int {
    bit * q_c - xy_alpha
}

/// The check of the accumulated point's next first coordinate. `x_beta` and
/// `y_beta` are the coordinates of the fixed point's multiple.
pub open spec fn x_accumulator_consistency(
    bit: int,
    x_beta: int,
    y_beta: int,
    acc_x: int,
    acc_x_next: int,
    acc_y: int,
    xy_alpha: int,
) -> int {
    let y_alpha = bit * bit * (y_beta - 1) + 1;
    let x_alpha = bit * x_beta;
    let lhs = acc_x_next + acc_x_next * xy_alpha * acc_x * acc_y * edwards_d();
    let rhs = acc_x * y_alpha + acc_y * x_alpha;
    lhs - rhs
}

/// The check of the accumulated point's next second coordinate.
pub open spec fn y_accumulator_consistency(
    bit: int,
    x_beta: int,
    y_beta: int,
    acc_x: int,
    acc_y: int,
    acc_y_next: int,
    xy_alpha: int,
) -> int {
    let y_alpha = bit * bit * (y_beta - 1) + 1;
    let x_alpha = bit * x_beta;
    let lhs = acc_y_next - acc_y_next * xy_alpha * acc_x * acc_y * edwards_d();
    let rhs = acc_y * y_alpha + acc_x * x_alpha;
    lhs - rhs
}

/// The four checks of one row, each weighted by a power of `kappa`.
pub open spec fn gate_identity(
    q_l: int,
    q_r: int,
    q_c: int,
    kappa: int,
    w_l: int,
    w_l_next: int,
    w_r: int,
    w_r_next: int,
    w_o: int,
    w_4: int,
    w_4_next: int,
) -> int {
    let bit = extract_bit(w_4, w_4_next);
    bit_consistency(bit) + x_accumulator_consistency(bit, q_l, q_r, w_l, w_l_next, w_r, w_o) * (
    kappa * kappa) + y_accumulator_consistency(bit, q_l, q_r, w_l, w_r, w_r_next, w_o) * (kappa
        * kappa * kappa) + xy_consistency(bit, q_c, w_o) * kappa
}

/// This widget's share of the quotient at one point: its checks, weighted by
/// powers of the challenge's square, switched on by the selector and
/// weighted by the challenge.
pub open spec fn quotient_term(
    q_l: int,
    q_r: int,
    q_c: int,
    q_fixed_group_add: int,
    challenge: int,
    w_l: int,
    w_l_next: int,
    w_r: int,
    w_r_next: int,
    w_o: int,
    w_4: int,
    w_4_next: int,
) -> int {
    reduce(
        q_fixed_group_add * gate_identity(
            q_l,
            q_r,
            q_c,
            challenge * challenge,
            w_l,
            w_l_next,
            w_r,
            w_r_next,
            w_o,
            w_4,
            w_4_next,
        ) * challenge,
    )
}

/// Whether a row meets the fixed-base gate's equations: the selector is off,
/// or the bit is a signed bit and the accumulated point has grown by the
/// point that the bit selects.
pub open spec fn is_satisfied(
    q_l: int,
    q_r: int,
    q_c: int,
    q_fixed_group_add: int,
    w_l: int,
    w_l_next: int,
    w_r: int,
    w_r_next: int,
    w_o: int,
    w_4: int,
    w_4_next: int,
) -> bool {
    let bit = extract_bit(w_4, w_4_next);
    reduce(q_fixed_group_add) == 0 || {
        &&& reduce(bit_consistency(bit)) == 0
        &&& reduce(x_accumulator_consistency(bit, q_l, q_r, w_l, w_l_next, w_r, w_o)) == 0
        &&& reduce(y_accumulator_consistency(bit, q_l, q_r, w_l, w_r, w_r_next, w_o)) == 0
        &&& reduce(xy_consistency(bit, q_c, w_o)) == 0
    }
}

/// On a row that meets the fixed-base gate's equations, this widget's share
/// of the quotient is zero, whatever the challenge.
pub proof fn lemma_satisfied_term_vanishes(
    q_l: int,
    q_r: int,
    q_c: int,
    q_fixed_group_add: int,
    challenge: int,
    w_l: int,
    w_l_next: int,
    w_r: int,
    w_r_next: int,
    w_o: int,
    w_4: int,
    w_4_next: int,
)
    requires
        is_satisfied(
            q_l,
            q_r,
            q_c,
            q_fixed_group_add,
            w_l,
            w_l_next,
            w_r,
            w_r_next,
            w_o,
            w_4,
            w_4_next,
        ),
    ensures
        quotient_term(
            q_l,
            q_r,
            q_c,
            q_fixed_group_add,
            challenge,
            w_l,
            w_l_next,
            w_r,
            w_r_next,
            w_o,
            w_4,
            w_4_next,
        ) == 0,
{
    let kappa = challenge * challenge;
    let identity = gate_identity(
        q_l,
        q_r,
        q_c,
        kappa,
        w_l,
        w_l_next,
        w_r,
        w_r_next,
        w_o,
        w_4,
        w_4_next,
    );
    if reduce(q_fixed_group_add) != 0 {
        let bit = extract_bit(w_4, w_4_next);
        let c_0 = bit_consistency(bit);
        let x_acc = x_accumulator_consistency(bit, q_l, q_r, w_l, w_l_next, w_r, w_o);
        let y_acc = y_accumulator_consistency(bit, q_l, q_r, w_l, w_r, w_r_next, w_o);
        let xy = xy_consistency(bit, q_c, w_o);
        lemma_product_vanishes(x_acc, kappa * kappa);
        lemma_product_vanishes(y_acc, kappa * kappa * kappa);
        lemma_product_vanishes(xy, kappa);
        lemma_sum_vanishes(c_0, x_acc * (kappa * kappa));
        lemma_sum_vanishes(c_0 + x_acc * (kappa * kappa), y_acc * (kappa * kappa * kappa));
        lemma_sum_vanishes(
            c_0 + x_acc * (kappa * kappa) + y_acc * (kappa * kappa * kappa),
            xy * kappa,
        );
        assert(reduce(identity) == 0);
    }
    lemma_product_vanishes(q_fixed_group_add, identity);
    lemma_product_vanishes(q_fixed_group_add * identity, challenge);
}

/// The selectors of the fixed-base gate, each as evaluations over the coset.
pub struct ProverKey {
    pub q_l: Vec<Scalar>,
    pub q_r: Vec<Scalar>,
    pub q_c: Vec<Scalar>,
    pub q_fixed_group_add: Vec<Scalar>,
}

impl ProverKey {
    /// Every selector holds exactly `len` evaluations.
    pub open spec fn covers(&self, len: nat) -> bool {
        &&& self.q_l@.len() == len
        &&& self.q_r@.len() == len
        &&& self.q_c@.len() == len
        &&& self.q_fixed_group_add@.len() == len
    }

    /// This widget's share of the quotient at point `i`, for the given
    /// challenge and wires.
    pub open spec fn term_at(
        &self,
        i: int,
        challenge: int,
        w_l: int,
        w_l_next: int,
        w_r: int,
        w_r_next: int,
        w_o: int,
        w_4: int,
        w_4_next: int,
    ) -> int {
        quotient_term(
            self.q_l@[i]@,
            self.q_r@[i]@,
            self.q_c@[i]@,
            self.q_fixed_group_add@[i]@,
            challenge,
            w_l,
            w_l_next,
            w_r,
            w_r_next,
            w_o,
            w_4,
            w_4_next,
        )
    }

    /// Whether every selector holds exactly `len` evaluations.
    pub fn is_covering(&self, len: usize) -> (r: bool)
        ensures
            r == self.covers(len as nat),
    {
        self.q_l.len() == len && self.q_r.len() == len && self.q_c.len() == len
            && self.q_fixed_group_add.len() == len
    }

    /// This widget's share of the quotient at the point of the given index.
    pub fn compute_quotient_i(
        &self,
        index: usize,
        ecc_separation_challenge: &Scalar,
        w_l_i: &Scalar,
        w_l_i_next: &Scalar,
        w_r_i: &Scalar,
        w_r_i_next: &Scalar,
        w_o_i: &Scalar,
        w_4_i: &Scalar,
        w_4_i_next: &Scalar,
    ) -> (r: Scalar)
        requires
            exists|len: nat| self.covers(len) && index < len,
        ensures
            r@ == self.term_at(
                index as int,
                ecc_separation_challenge@,
                w_l_i@,
                w_l_i_next@,
                w_r_i@,
                w_r_i_next@,
                w_o_i@,
                w_4_i@,
                w_4_i_next@,
            ),
    {
        let one = Term::constant(1);
        let edwards_d = Term::of(&edwards_d_scalar());
        let q_fixed_group_add = Term::of(&self.q_fixed_group_add[index]);
        let q_c = Term::of(&self.q_c[index]);
        let challenge = Term::of(ecc_separation_challenge);

        let kappa = challenge.square();
        let kappa_sq = kappa.square();
        let kappa_cu = kappa_sq.mul(&kappa);

        let x_beta = Term::of(&self.q_l[index]);
        let y_beta = Term::of(&self.q_r[index]);

        let acc_x = Term::of(w_l_i);
        let acc_x_next = Term::of(w_l_i_next);
        let acc_y = Term::of(w_r_i);
        let acc_y_next = Term::of(w_r_i_next);

        let xy_alpha = Term::of(w_o_i);

        let accumulated_bit = Term::of(w_4_i);
        let accumulated_bit_next = Term::of(w_4_i_next);
        let bit = accumulated_bit_next.sub(&accumulated_bit).sub(&accumulated_bit);

        // The bit is -1, 0 or 1.
        let bit_consistency = bit.mul(&bit.sub(&one)).mul(&bit.add(&one));

        // The point to add: the multiple, its negative or the neutral point.
        let y_alpha = bit.square().mul(&y_beta.sub(&one)).add(&one);
        let x_alpha = bit.mul(&x_beta);

        let xy_consistency = bit.mul(&q_c).sub(&xy_alpha).mul(&kappa);

        let x_3 = acc_x_next;
        let lhs = x_3.add(&x_3.mul(&xy_alpha).mul(&acc_x).mul(&acc_y).mul(&edwards_d));
        let rhs = acc_x.mul(&y_alpha).add(&acc_y.mul(&x_alpha));
        let x_acc_consistency = lhs.sub(&rhs).mul(&kappa_sq);

        let y_3 = acc_y_next;
        let lhs = y_3.sub(&y_3.mul(&xy_alpha).mul(&acc_x).mul(&acc_y).mul(&edwards_d));
        let rhs = acc_y.mul(&y_alpha).add(&acc_x.mul(&x_alpha));
        let y_acc_consistency = lhs.sub(&rhs).mul(&kappa_cu);

        let checks = bit_consistency.add(&x_acc_consistency).add(&y_acc_consistency).add(
            &xy_consistency,
        );

        q_fixed_group_add.mul(&checks).mul(&challenge).value
    }
}

} // verus!
