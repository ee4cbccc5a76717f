//! Polynomials over the field, by their coefficients.

use crate::domain::{poly_eval, resized};
use crate::field::{fmul, fpow, lemma_modulus_positive, values, Scalar};
use vstd::prelude::*;

verus! {

/// A sequence of coefficients without the zeros at its end.
pub open spec fn trimmed(coeffs: Seq<int>) -> Seq<int>
    decreases coeffs.len(),
{
    if coeffs.len() > 0 && coeffs.last() == 0 {
        trimmed(coeffs.drop_last())
    } else {
        coeffs
    }
}

/// Trimming takes nothing but zeros away: padded with zeros again, the
/// coefficients are what they were.
pub proof fn lemma_trimmed_resized(coeffs: Seq<int>)
    ensures
        trimmed(coeffs).len() <= coeffs.len(),
        resized(trimmed(coeffs), coeffs.len()) == coeffs,
        trimmed(coeffs).len() > 0 ==> trimmed(coeffs).last() != 0,
    decreases coeffs.len(),
{
    if coeffs.len() > 0 && coeffs.last() == 0 {
        let shorter = coeffs.drop_last();
        lemma_trimmed_resized(shorter);
        assert(resized(trimmed(coeffs), coeffs.len()) =~= coeffs) by {
            assert forall|i: int| 0 <= i < coeffs.len() implies resized(
                trimmed(coeffs),
                coeffs.len(),
            )[i] == coeffs[i] by {
                if i < shorter.len() {
                    assert(resized(trimmed(shorter), shorter.len())[i] == shorter[i]);
                }
            }
        }
    } else {
        assert(resized(coeffs, coeffs.len()) =~= coeffs);
    }
}

/// Zeros at the end of the coefficients do not change a polynomial's values.
pub proof fn lemma_eval_resized(coeffs: Seq<int>, len: nat, x: int)
    requires
        coeffs.len() <= len,
    ensures
        poly_eval(resized(coeffs, len), x) == poly_eval(coeffs, x),
        0 <= poly_eval(coeffs, x) < crate::field::modulus(),
    decreases len,
{
    lemma_modulus_positive();
    if coeffs.len() == len {
        assert(resized(coeffs, len) =~= coeffs);
        if len > 0 {
            vstd::arithmetic::div_mod::lemma_mod_bound(
                poly_eval(coeffs.drop_last(), x) + fmul(coeffs.last(), fpow(x, (len - 1) as nat)),
                crate::field::modulus(),
            );
        }
    } else {
        let padded = resized(coeffs, len);
        lemma_eval_resized(coeffs, (len - 1) as nat, x);
        assert(padded.drop_last() =~= resized(coeffs, (len - 1) as nat));
        assert(padded.last() == 0);
        assert(0 * fpow(x, (len - 1) as nat) == 0);
        vstd::arithmetic::div_mod::lemma_small_mod(0, crate::field::modulus() as nat);
        vstd::arithmetic::div_mod::lemma_small_mod(
            poly_eval(coeffs, x) as nat,
            crate::field::modulus() as nat,
        );
    }
}

/// A polynomial, by its coefficients from the constant term upwards.
#[derive(Clone, Debug)]
pub struct Polynomial {
    pub coeffs: Vec<Scalar>,
}

impl View for Polynomial {
    type V = Seq<int>;

    open spec fn view(&self) -> Seq<int> {
        values(self.coeffs@)
    }
}

impl Polynomial {
    /// The polynomial with the given coefficients. Zeros at their end are
    /// dropped.
    pub fn from_coefficients_vec(coeffs: Vec<Scalar>) -> (r: Polynomial)
        ensures
            r@ == trimmed(values(coeffs@)),
    {
        let mut coeffs = coeffs;
        let ghost given = values(coeffs@);
        while coeffs.len() > 0 && coeffs[coeffs.len() - 1].is_zero()
            invariant
                trimmed(values(coeffs@)) == trimmed(given),
            decreases coeffs.len(),
        {
            proof {
                assert(values(coeffs@).drop_last() =~= values(coeffs@.drop_last()));
            }
            coeffs.pop();
        }
        Polynomial { coeffs }
    }

    /// The number of coefficients held.
    pub fn len(&self) -> (n: usize)
        ensures
            n == self@.len(),
    {
        self.coeffs.len()
    }
}

} // verus!
