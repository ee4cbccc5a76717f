//! The arithmetic gate: a weighted sum of the four wires and of the product
//! of the first two.

use crate::field::{reduce, Scalar};
use crate::term::Term;
use vstd::prelude::*;

verus! {

/// This widget's equation at one point, as an integer expression in the
/// selectors and the wires.
pub open spec fn gate_identity(
    q_m: int,
    q_l: int,
    q_r: int,
    q_o: int,
    q_4: int,
    q_c: int,
    w_l: int,
    w_r: int,
    w_o: int,
    w_4: int,
) -> int {
    w_l * w_r * q_m + w_l * q_l + w_r * q_r + w_o * q_o + w_4 * q_4 + q_c
}

/// This widget's share of the quotient at one point: its equation, switched on
/// by the selector `q_arith`.
pub open spec fn quotient_term(
    q_m: int,
    q_l: int,
    q_r: int,
    q_o: int,
    q_4: int,
    q_c: int,
    q_arith: int,
    w_l: int,
    w_r: int,
    w_o: int,
    w_4: int,
) -> int {
    reduce(gate_identity(q_m, q_l, q_r, q_o, q_4, q_c, w_l, w_r, w_o, w_4) * q_arith)
}

/// Whether a row meets the arithmetic gate's equation, with the public input
/// `pi` of that row.
pub open spec fn is_satisfied(
    q_m: int,
    q_l: int,
    q_r: int,
    q_o: int,
    q_4: int,
    q_c: int,
    q_arith: int,
    w_l: int,
    w_r: int,
    w_o: int,
    w_4: int,
    pi: int,
) -> bool {
    reduce(gate_identity(q_m, q_l, q_r, q_o, q_4, q_c, w_l, w_r, w_o, w_4) * q_arith + pi) == 0
}

/// The selectors of the arithmetic gate, each as evaluations over the coset.
pub struct ProverKey {
    pub q_m: Vec<Scalar>,
    pub q_l: Vec<Scalar>,
    pub q_r: Vec<Scalar>,
    pub q_o: Vec<Scalar>,
    pub q_c: Vec<Scalar>,
    pub q_4: Vec<Scalar>,
    pub q_arith: Vec<Scalar>,
}

impl ProverKey {
    /// Every selector holds exactly `len` evaluations.
    pub open spec fn covers(&self, len: nat) -> bool {
        &&& self.q_m@.len() == len
        &&& self.q_l@.len() == len
        &&& self.q_r@.len() == len
        &&& self.q_o@.len() == len
        &&& self.q_c@.len() == len
        &&& self.q_4@.len() == len
        &&& self.q_arith@.len() == len
    }

    /// This widget's share of the quotient at point `i`, for the given wires.
    pub open spec fn term_at(&self, i: int, w_l: int, w_r: int, w_o: int, w_4: int) -> int {
        quotient_term(
            self.q_m@[i]@,
            self.q_l@[i]@,
            self.q_r@[i]@,
            self.q_o@[i]@,
            self.q_4@[i]@,
            self.q_c@[i]@,
            self.q_arith@[i]@,
            w_l,
            w_r,
            w_o,
            w_4,
        )
    }

    /// Whether every selector holds exactly `len` evaluations.
    pub fn is_covering(&self, len: usize) -> (r: bool)
        ensures
            r == self.covers(len as nat),
    {
        self.q_m.len() == len && self.q_l.len() == len && self.q_r.len() == len
            && self.q_o.len() == len && self.q_c.len() == len && self.q_4.len() == len
            && self.q_arith.len() == len
    }

    /// This widget's share of the quotient at the point of the given index.
    pub fn compute_quotient_i(
        &self,
        index: usize,
        w_l_i: &Scalar,
        w_r_i: &Scalar,
        w_o_i: &Scalar,
        w_4_i: &Scalar,
    ) -> (r: Scalar)
        requires
            exists|len: nat| self.covers(len) && index < len,
        ensures
            r@ == self.term_at(index as int, w_l_i@, w_r_i@, w_o_i@, w_4_i@),
    {
        let q_m = Term::of(&self.q_m[index]);
        let q_l = Term::of(&self.q_l[index]);
        let q_r = Term::of(&self.q_r[index]);
        let q_o = Term::of(&self.q_o[index]);
        let q_c = Term::of(&self.q_c[index]);
        let q_4 = Term::of(&self.q_4[index]);
        let q_arith = Term::of(&self.q_arith[index]);
        let w_l = Term::of(w_l_i);
        let w_r = Term::of(w_r_i);
        let w_o = Term::of(w_o_i);
        let w_4 = Term::of(w_4_i);

        let a_1 = w_l.mul(&w_r).mul(&q_m);
        let a_2 = w_l.mul(&q_l);
        let a_3 = w_r.mul(&q_r);
        let a_4 = w_o.mul(&q_o);
        let a_5 = w_4.mul(&q_4);
        let sum = a_1.add(&a_2).add(&a_3).add(&a_4).add(&a_5).add(&q_c);
        sum.mul(&q_arith).value
    }
}

} // verus!
