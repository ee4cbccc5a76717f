//! The algebraic core of a PLONK proof system over the scalar field of
//! BLS12-381: the prover's quotient polynomial and the verifier's life cycle.
//!
//! The quotient polynomial of a circuit is the sum of all the circuit's
//! checks, divided by the vanishing polynomial of the circuit's domain. It is
//! a polynomial exactly if every check holds on every row of the circuit.
//! [`proof_system::quotient_poly::compute`] computes it from the polynomials
//! of the wires, of the running product of the permutation argument and of
//! the public inputs.
//!
//! Field arithmetic and the transforms between coefficients and values are
//! `arkworks`'; the transcript is `merlin`'s. The contracts state what these
//! compute, and what is built on them is proved from there.

pub mod algebra;
pub mod constraint_system;
pub mod domain;
pub mod error;
pub mod field;
pub mod interpolation;
pub mod polynomial;
pub mod proof_system;
pub mod roots;
pub mod term;
pub mod transcript;
