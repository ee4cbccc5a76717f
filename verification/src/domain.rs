//! Evaluation domains: the multiplicative subgroups of the field whose size
//! is a power of two, and their cosets by the field's generator.
//!
//! The transforms are `ark-poly`'s radix-2 FFTs. Their contracts say what the
//! transforms compute: the values of a polynomial at the points of the domain,
//! and the polynomial that takes given values there. The points are the
//! powers of the domain's generator, which is a power of the field's root of
//! unity of order `2^32`.

use crate::algebra::is_canonical;
use crate::error::Error;
use crate::field::{fadd, fmul, fpow, modulus, values, Scalar};
use crate::interpolation::{lemma_coset_transform_round_trip, lemma_transform_round_trip};
use crate::roots::lemma_root_of_unity_is_primitive;
use ark_bls12_381::Fr;
use ark_ff::{BigInteger256, PrimeField};
use ark_poly::{EvaluationDomain as ArkEvaluationDomain, Radix2EvaluationDomain};
use vstd::arithmetic::power2::{lemma_pow2_strictly_increases, lemma_pow2_unfold, pow2};
use vstd::prelude::*;

verus! {

/// The largest `k` for which the field has a subgroup of size `2^k`.
pub const TWO_ADICITY: u32 = 32;

/// Whether a domain of `n` points exists: `n` is a power of two, not above
/// `2^32`, and a number that can index memory.
pub open spec fn is_domain_size(n: int) -> bool {
    n <= usize::MAX && exists|k: nat| k <= TWO_ADICITY && n == #[trigger] pow2(k)
}

/// The value at `x` of the polynomial with the given coefficients, lowest
/// degree first.
pub open spec fn poly_eval(coeffs: Seq<int>, x: int) -> int
    decreases coeffs.len(),
{
    if coeffs.len() == 0 {
        0
    } else {
        fadd(
            poly_eval(coeffs.drop_last(), x),
            fmul(coeffs.last(), fpow(x, (coeffs.len() - 1) as nat)),
        )
    }
}

/// The field's root of unity of order `2^32`.
pub open spec fn two_adic_root_of_unity() -> int {
    0x16a2a19edfe81f20d09b681922c813b4b63683508c2280b93829971f439f0d2bint
}

/// The generator of the domain of `size` points, a power of two up to
/// `2^32`: the two-adic root of unity, squared once for every halving from
/// `2^32` down to `size`.
pub open spec fn root_of_unity(size: nat) -> int {
    fpow(two_adic_root_of_unity(), (0x1_0000_0000int / (size as int)) as nat)
}

/// Whether `omega` generates the domain of `size` points, a power of two:
/// its power to half the size is minus one.
pub open spec fn is_primitive_root(omega: int, size: nat) -> bool {
    if size <= 1 {
        omega == 1
    } else {
        is_canonical(omega) && fpow(omega, size / 2) == modulus() - 1
    }
}

/// The `i`-th point of the domain of `size` points.
pub open spec fn domain_element(size: nat, i: nat) -> int {
    fpow(root_of_unity(size), i)
}

/// The field's multiplicative generator, by which a domain is shifted to its
/// coset.
pub open spec fn coset_shift() -> int {
    7
}

/// The `i`-th point of the coset of the domain of `size` points.
pub open spec fn coset_element(size: nat, i: nat) -> int {
    fmul(coset_shift(), domain_element(size, i))
}

/// A sequence cut or padded with zeros to length `n`.
pub open spec fn resized(s: Seq<int>, n: nat) -> Seq<int> {
    Seq::new(
        n,
        |i: int|
            if i < s.len() {
                s[i]
            } else {
                0
            },
    )
}

/// The values of a polynomial at the points of a domain, in their order.
pub open spec fn evaluations_over_domain(coeffs: Seq<int>, size: nat) -> Seq<int> {
    Seq::new(size, |i: int| poly_eval(coeffs, domain_element(size, i as nat)))
}

/// The values of a polynomial at the points of a domain's coset, in their
/// order.
pub open spec fn evaluations_over_coset(coeffs: Seq<int>, size: nat) -> Seq<int> {
    Seq::new(size, |i: int| poly_eval(coeffs, coset_element(size, i as nat)))
}

/// Whether `coeffs` is a polynomial of a degree below `size` that takes the
/// given values at the points of the domain of `size` points.
pub open spec fn takes_values_over_domain(coeffs: Seq<int>, size: nat, values: Seq<int>) -> bool {
    &&& coeffs.len() == size
    &&& forall|j: int| 0 <= j < size ==> is_canonical(#[trigger] coeffs[j])
    &&& evaluations_over_domain(coeffs, size) == values
}

/// Whether `coeffs` is a polynomial of a degree below `size` that takes the
/// given values at the points of the coset of the domain of `size` points.
pub open spec fn takes_values_over_coset(coeffs: Seq<int>, size: nat, values: Seq<int>) -> bool {
    &&& coeffs.len() == size
    &&& forall|j: int| 0 <= j < size ==> is_canonical(#[trigger] coeffs[j])
    &&& evaluations_over_coset(coeffs, size) == values
}

/// The polynomial of a degree below `size` that takes the values `evals`,
/// cut or padded with zeros to `size` of them, at the points of the domain
/// of `size` points.
pub open spec fn interpolation(size: nat, evals: Seq<int>) -> Seq<int> {
    choose|p: Seq<int>| takes_values_over_domain(p, size, resized(evals, size))
}

/// The polynomial of a degree below `size` that takes the values `evals`,
/// cut or padded with zeros to `size` of them, at the points of the coset of
/// the domain of `size` points.
pub open spec fn coset_interpolation(size: nat, evals: Seq<int>) -> Seq<int> {
    choose|p: Seq<int>| takes_values_over_coset(p, size, resized(evals, size))
}

/// The `group_gen` of `ark-poly`'s `Radix2EvaluationDomain` of the given
/// size: the field's two-adic root of unity, squared once for every halving
/// from `2^32` down to the size.
#[verifier::external_body]
fn radix2_group_gen(size: usize) -> (g: Scalar)
    requires
        is_domain_size(size as int),
    ensures
        g@ == root_of_unity(size as nat),
{
    let g = Radix2EvaluationDomain::<Fr>::new(size).unwrap().group_gen;
    let [l0, l1, l2, l3] = g.into_repr().0;
    Scalar { l0, l1, l2, l3 }
}

/// `ark-poly`'s `EvaluationDomain::fft` on a radix-2 domain: the coefficients
/// are cut or padded with zeros to the domain's size, and the result holds
/// the polynomial's value at each point of the domain.
#[verifier::external_body]
fn radix2_fft(size: usize, coeffs: &Vec<Scalar>) -> (evals: Vec<Scalar>)
    requires
        is_domain_size(size as int),
    ensures
        values(evals@) == evaluations_over_domain(
            resized(values(coeffs@), size as nat),
            size as nat,
        ),
{
    let input: Vec<Fr> = coeffs.iter().map(
        |s| Fr::from_repr(BigInteger256([s.l0, s.l1, s.l2, s.l3])).unwrap(),
    ).collect();
    let output = Radix2EvaluationDomain::<Fr>::new(size).unwrap().fft(&input);
    output.iter().map(
        |x| {
            let [l0, l1, l2, l3] = x.into_repr().0;
            Scalar { l0, l1, l2, l3 }
        },
    ).collect()
}

/// `ark-poly`'s `EvaluationDomain::ifft` on a radix-2 domain: the values are
/// cut or padded with zeros to the domain's size, and the result holds the
/// coefficients of the polynomial that takes them at the domain's points.
#[verifier::external_body]
fn radix2_ifft(size: usize, evals: &Vec<Scalar>) -> (coeffs: Vec<Scalar>)
    requires
        is_domain_size(size as int),
    ensures
        coeffs@.len() == size,
        evaluations_over_domain(values(coeffs@), size as nat) == resized(
            values(evals@),
            size as nat,
        ),
{
    let input: Vec<Fr> = evals.iter().map(
        |s| Fr::from_repr(BigInteger256([s.l0, s.l1, s.l2, s.l3])).unwrap(),
    ).collect();
    let output = Radix2EvaluationDomain::<Fr>::new(size).unwrap().ifft(&input);
    output.iter().map(
        |x| {
            let [l0, l1, l2, l3] = x.into_repr().0;
            Scalar { l0, l1, l2, l3 }
        },
    ).collect()
}

/// `ark-poly`'s `EvaluationDomain::coset_fft` on a radix-2 domain: as the
/// plain transform, at the points of the coset.
#[verifier::external_body]
fn radix2_coset_fft(size: usize, coeffs: &Vec<Scalar>) -> (evals: Vec<Scalar>)
    requires
        is_domain_size(size as int),
    ensures
        values(evals@) == evaluations_over_coset(
            resized(values(coeffs@), size as nat),
            size as nat,
        ),
{
    let input: Vec<Fr> = coeffs.iter().map(
        |s| Fr::from_repr(BigInteger256([s.l0, s.l1, s.l2, s.l3])).unwrap(),
    ).collect();
    let output = Radix2EvaluationDomain::<Fr>::new(size).unwrap().coset_fft(&input);
    output.iter().map(
        |x| {
            let [l0, l1, l2, l3] = x.into_repr().0;
            Scalar { l0, l1, l2, l3 }
        },
    ).collect()
}

/// `ark-poly`'s `EvaluationDomain::coset_ifft` on a radix-2 domain: as the
/// plain inverse transform, from values at the points of the coset.
#[verifier::external_body]
fn radix2_coset_ifft(size: usize, evals: &Vec<Scalar>) -> (coeffs: Vec<Scalar>)
    requires
        is_domain_size(size as int),
    ensures
        coeffs@.len() == size,
        evaluations_over_coset(values(coeffs@), size as nat) == resized(
            values(evals@),
            size as nat,
        ),
{
    let input: Vec<Fr> = evals.iter().map(
        |s| Fr::from_repr(BigInteger256([s.l0, s.l1, s.l2, s.l3])).unwrap(),
    ).collect();
    let output = Radix2EvaluationDomain::<Fr>::new(size).unwrap().coset_ifft(&input);
    output.iter().map(
        |x| {
            let [l0, l1, l2, l3] = x.into_repr().0;
            Scalar { l0, l1, l2, l3 }
        },
    ).collect()
}

/// A multiplicative subgroup of the field with a power of two as its size.
#[derive(Clone, Copy, Debug)]
pub struct EvaluationDomain {
    size: usize,
    log_size_of_group: u32,
    group_gen: Scalar,
}

impl EvaluationDomain {
    /// A domain has a size for which one exists, and knows its logarithm.
    #[verifier::type_invariant]
    pub closed spec fn inv(self) -> bool {
        &&& self.log_size_of_group <= TWO_ADICITY
        &&& self.size == pow2(self.log_size_of_group as nat)
        &&& self.group_gen@ == root_of_unity(self.size as nat)
    }

    /// The generator, for contracts.
    pub closed spec fn spec_group_gen(&self) -> Scalar {
        self.group_gen
    }

    /// The number of points, for contracts.
    pub closed spec fn spec_size(&self) -> usize {
        self.size
    }

    /// What the invariant says of the size and of the generator.
    pub proof fn lemma_size(self)
        requires
            self.inv(),
        ensures
            is_domain_size(self.spec_size() as int),
            self.spec_size() >= 1,
            self.spec_group_gen()@ == root_of_unity(self.spec_size() as nat),
            is_primitive_root(root_of_unity(self.spec_size() as nat), self.spec_size() as nat),
    {
        assert(self.size == pow2(self.log_size_of_group as nat));
        vstd::arithmetic::power2::lemma_pow2_pos(self.log_size_of_group as nat);
        lemma_root_of_unity_is_primitive(self.size as nat);
    }

    /// The domain of exactly `size` points, where one exists.
    pub fn new(size: usize) -> (r: Result<EvaluationDomain, Error>)
        ensures
            match r {
                Ok(d) => is_domain_size(size as int) && d.spec_size() == size,
                Err(e) => e == Error::InvalidDomainSize && !is_domain_size(size as int),
            },
    {
        let mut power: u64 = 1;
        let mut log: u32 = 0;
        proof {
            vstd::arithmetic::power2::lemma2_to64();
        }
        while power < size as u64 && log < TWO_ADICITY
            invariant
                log <= TWO_ADICITY,
                power == pow2(log as nat),
                power <= 0x1_0000_0000,
                forall|j: nat| j < log ==> #[trigger] pow2(j) < size,
            decreases TWO_ADICITY - log,
        {
            proof {
                lemma_pow2_unfold((log + 1) as nat);
                vstd::arithmetic::power2::lemma2_to64();
                if log < 32 {
                    lemma_pow2_strictly_increases(log as nat, 32);
                }
                assert forall|j: nat| j < log + 1 implies #[trigger] pow2(j) < size by {
                    if j == log {
                    }
                }
            }
            power = power * 2;
            log = log + 1;
        }
        if power == size as u64 {
            let group_gen = radix2_group_gen(size);
            Ok(EvaluationDomain { size, log_size_of_group: log, group_gen })
        } else {
            proof {
                assert forall|k: nat| k <= TWO_ADICITY implies size != #[trigger] pow2(k) by {
                    if k < log {
                    } else if k > log {
                        lemma_pow2_strictly_increases(log as nat, k);
                    }
                }
            }
            Err(Error::InvalidDomainSize)
        }
    }

    /// The domain of four times as many points, where one exists.
    pub fn fourfold(&self) -> (r: Result<EvaluationDomain, Error>)
        ensures
            match r {
                Ok(d) => is_domain_size(4 * self.size()) && d.size() == 4 * self.size(),
                Err(e) => e == Error::InvalidDomainSize && !is_domain_size(4 * self.size()),
            },
    {
        match self.size.checked_mul(4) {
            Some(size) => EvaluationDomain::new(size),
            None => Err(Error::InvalidDomainSize),
        }
    }

    /// The number of points.
    #[verifier::when_used_as_spec(spec_size)]
    pub fn size(&self) -> (n: usize)
        ensures
            n == self.spec_size(),
    {
        self.size
    }

    /// The logarithm of the number of points.
    pub fn log_size_of_group(&self) -> (k: u32)
        ensures
            k <= TWO_ADICITY,
            self.size() == pow2(k as nat),
    {
        proof {
            use_type_invariant(self);
        }
        self.log_size_of_group
    }

    /// The generator of the domain: its point of index one.
    pub fn group_gen(&self) -> (g: Scalar)
        ensures
            g@ == root_of_unity(self.size() as nat),
            is_primitive_root(g@, self.size() as nat),
    {
        proof {
            use_type_invariant(self);
            self.lemma_size();
        }
        self.group_gen
    }

    /// The values at the domain's points of the polynomial with the given
    /// coefficients. Coefficients beyond the domain's size are left out.
    pub fn fft(&self, coeffs: &Vec<Scalar>) -> (evals: Vec<Scalar>)
        ensures
            values(evals@) == evaluations_over_domain(
                resized(values(coeffs@), self.size() as nat),
                self.size() as nat,
            ),
    {
        proof {
            use_type_invariant(self);
            self.lemma_size();
        }
        radix2_fft(self.size, coeffs)
    }

    /// The coefficients of the polynomial that takes the given values at the
    /// domain's points. Values beyond the domain's size are left out, and
    /// missing ones are taken as zero.
    pub fn ifft(&self, evals: &Vec<Scalar>) -> (coeffs: Vec<Scalar>)
        ensures
            values(coeffs@) == interpolation(self.size() as nat, values(evals@)),
            coeffs@.len() == self.size(),
            evaluations_over_domain(values(coeffs@), self.size() as nat) == resized(
                values(evals@),
                self.size() as nat,
            ),
            forall|p: Seq<int>| #[trigger]
                takes_values_over_domain(
                    p,
                    self.size() as nat,
                    resized(values(evals@), self.size() as nat),
                ) ==> values(coeffs@) == p,
    {
        proof {
            use_type_invariant(self);
            self.lemma_size();
        }
        let coeffs = radix2_ifft(self.size, evals);
        proof {
            let n = self.size as nat;
            assert forall|j: int| 0 <= j < n implies is_canonical(#[trigger] values(coeffs@)[j]) by {
                coeffs@[j].lemma_canonical();
            }
            assert forall|p: Seq<int>| #[trigger]
                takes_values_over_domain(p, n, resized(values(evals@), n)) implies values(coeffs@)
                == p by {
                lemma_transform_round_trip(n, p, values(coeffs@));
            }
            assert(takes_values_over_domain(values(coeffs@), n, resized(values(evals@), n)));
        }
        coeffs
    }

    /// The values at the points of the domain's coset of the polynomial with
    /// the given coefficients. Coefficients beyond the domain's size are left
    /// out.
    pub fn coset_fft(&self, coeffs: &Vec<Scalar>) -> (evals: Vec<Scalar>)
        ensures
            values(evals@) == evaluations_over_coset(
                resized(values(coeffs@), self.size() as nat),
                self.size() as nat,
            ),
    {
        proof {
            use_type_invariant(self);
            self.lemma_size();
        }
        radix2_coset_fft(self.size, coeffs)
    }

    /// The coefficients of the polynomial that takes the given values at the
    /// points of the domain's coset. Values beyond the domain's size are left
    /// out, and missing ones are taken as zero.
    pub fn coset_ifft(&self, evals: &Vec<Scalar>) -> (coeffs: Vec<Scalar>)
        ensures
            values(coeffs@) == coset_interpolation(self.size() as nat, values(evals@)),
            coeffs@.len() == self.size(),
            evaluations_over_coset(values(coeffs@), self.size() as nat) == resized(
                values(evals@),
                self.size() as nat,
            ),
            forall|p: Seq<int>| #[trigger]
                takes_values_over_coset(
                    p,
                    self.size() as nat,
                    resized(values(evals@), self.size() as nat),
                ) ==> values(coeffs@) == p,
    {
        proof {
            use_type_invariant(self);
            self.lemma_size();
        }
        let coeffs = radix2_coset_ifft(self.size, evals);
        proof {
            let n = self.size as nat;
            assert forall|j: int| 0 <= j < n implies is_canonical(#[trigger] values(coeffs@)[j]) by {
                coeffs@[j].lemma_canonical();
            }
            assert forall|p: Seq<int>| #[trigger]
                takes_values_over_coset(p, n, resized(values(evals@), n)) implies values(coeffs@)
                == p by {
                lemma_coset_transform_round_trip(n, p, values(coeffs@));
            }
            assert(takes_values_over_coset(values(coeffs@), n, resized(values(evals@), n)));
        }
        coeffs
    }
}

} // verus!
