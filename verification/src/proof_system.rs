//! The proof system: the prover's quotient polynomial and the verifier.

pub mod quotient_poly;
pub mod proof_verifier;
pub mod widget;
