//! The gates for arithmetic on the twisted Edwards curve that is defined over
//! the field: `-x^2 + y^2 = 1 + d x^2 y^2`.

use crate::field::{lemma_modulus_value, limbs_value, reduce, Scalar};
use vstd::prelude::*;

pub mod fixed_base;
pub mod variable_base;

verus! {

/// The curve's coefficient `d`, which is `-10240 / 10241` in the field.
pub open spec fn edwards_d() -> int {
    0x2a9318e74bfa2b48f5fd9207e6bd7fd4292d7f6d37579d2601065fd6d6343eb1int
}

/// `edwards_d` is the quotient that its name stands for.
pub proof fn lemma_edwards_d_is_quotient()
    ensures
        0 <= edwards_d() < crate::field::modulus(),
        reduce(edwards_d() * 10241 + 10240) == 0,
{
    lemma_modulus_value();
    assert(edwards_d() * 10241 + 10240 == 3761 * crate::field::modulus());
    vstd::arithmetic::div_mod::lemma_mod_multiples_basic(3761, crate::field::modulus());
}

/// The curve's coefficient `d`: the scalar that is `-10240 / 10241`.
pub fn edwards_d_scalar() -> (d: Scalar)
    ensures
        d@ == edwards_d(),
        reduce(d@ * 10241 + 10240) == 0,
{
    let limbs: [u64; 4] = [
        0x01065fd6d6343eb1,
        0x292d7f6d37579d26,
        0xf5fd9207e6bd7fd4,
        0x2a9318e74bfa2b48,
    ];
    proof {
        lemma_modulus_value();
        lemma_edwards_d_is_quotient();
        assert(limbs_value(limbs@) == edwards_d());
    }
    match Scalar::from_limbs(limbs) {
        Some(d) => d,
        None => Scalar::zero(),
    }
}

} // verus!
