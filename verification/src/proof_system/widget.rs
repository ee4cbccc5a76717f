//! The kinds of gates of the constraint system. Each has a prover key, holding
//! its selector polynomials as evaluations over the coset of the fourfold
//! domain, and computes its share of the quotient at one point of that coset.

use crate::field::Scalar;
use vstd::prelude::*;

pub mod arithmetic;
pub mod ecc;
pub mod logic;
pub mod permutation;
pub mod range;

verus! {

/// What the prover keeps of a preprocessed circuit: the keys of the widgets,
/// and the values of the vanishing polynomial of the circuit's domain at the
/// points of the coset of the fourfold domain.
pub struct ProverKey {
    pub arithmetic: arithmetic::ProverKey,
    pub range: range::ProverKey,
    pub logic: logic::ProverKey,
    pub fixed_base: ecc::fixed_base::ProverKey,
    pub variable_base: ecc::variable_base::ProverKey,
    pub permutation: permutation::ProverKey,
    pub v_h_coset_4n: Vec<Scalar>,
}

impl ProverKey {
    /// Every polynomial of the key holds exactly `len` evaluations.
    pub open spec fn covers(&self, len: nat) -> bool {
        &&& self.arithmetic.covers(len)
        &&& self.range.covers(len)
        &&& self.logic.covers(len)
        &&& self.fixed_base.covers(len)
        &&& self.variable_base.covers(len)
        &&& self.permutation.covers(len)
        &&& self.v_h_coset_4n@.len() == len
    }

    /// Whether every polynomial of the key holds exactly `len` evaluations.
    pub fn is_covering(&self, len: usize) -> (r: bool)
        ensures
            r == self.covers(len as nat),
    {
        self.arithmetic.is_covering(len) && self.range.is_covering(len)
            && self.logic.is_covering(len) && self.fixed_base.is_covering(len)
            && self.variable_base.is_covering(len) && self.permutation.is_covering(len)
            && self.v_h_coset_4n.len() == len
    }

    /// The values of the vanishing polynomial over the coset.
    pub fn v_h_coset_4n(&self) -> (v: &Vec<Scalar>)
        ensures
            v == &self.v_h_coset_4n,
    {
        &self.v_h_coset_4n
    }
}

} // verus!
