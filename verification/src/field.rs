//! The scalar field of BLS12-381.
//!
//! A [`Scalar`] holds the canonical representative of a residue as four
//! little-endian 64-bit limbs. Its view is that representative as an integer.
//! The arithmetic itself is done by `ark-ff`; the contracts of the operations
//! state the result as an integer modulo [`modulus`].

use ark_bls12_381::Fr;
use ark_ff::{BigInteger256, Field, PrimeField};
use vstd::arithmetic::div_mod::{lemma_mul_mod_noop_general, lemma_small_mod};
use vstd::prelude::*;

verus! {

/// The order of the field.
pub closed spec fn modulus() -> int {
    0x73eda753299d7d483339d80809a1d80553bda402fffe5bfeffffffff00000001int
}

/// The value of [`modulus`], for proofs that need the number itself.
pub proof fn lemma_modulus_value()
    ensures
        modulus() == 0x73eda753299d7d483339d80809a1d80553bda402fffe5bfeffffffff00000001int,
{
}

/// What every proof about residues needs to know of the modulus.
pub proof fn lemma_modulus_positive()
    ensures
        modulus() > 1,
{
}

/// The canonical representative of `x`.
pub open spec fn reduce(x: int) -> int {
    x % modulus()
}

/// Sum in the field.
pub open spec fn fadd(a: int, b: int) -> int {
    reduce(a + b)
}

/// Difference in the field.
pub open spec fn fsub(a: int, b: int) -> int {
    reduce(a - b)
}

/// Product in the field.
pub open spec fn fmul(a: int, b: int) -> int {
    reduce(a * b)
}

/// The number that four limbs denote, least significant first.
pub open spec fn limbs_value(limbs: Seq<u64>) -> int {
    limbs[0] + limbs[1] * 0x1_0000_0000_0000_0000int
        + limbs[2] * 0x1_0000_0000_0000_0000_0000_0000_0000_0000int
        + limbs[3] * 0x1_0000_0000_0000_0000_0000_0000_0000_0000_0000_0000_0000_0000int
}

/// The power `b^e` in the field.
pub open spec fn fpow(b: int, e: nat) -> int
    decreases e,
{
    if e == 0 {
        1
    } else {
        fmul(b, fpow(b, (e - 1) as nat))
    }
}

/// The views of a sequence of scalars.
pub open spec fn values(s: Seq<Scalar>) -> Seq<int> {
    Seq::new(s.len(), |i: int| s[i]@)
}

/// Whether `x` is the canonical inverse of `a`.
pub open spec fn is_inverse_of(x: int, a: int) -> bool {
    0 <= x < modulus() && fmul(a, x) == 1
}

/// The inverse of `a` in the field, where `a` has one.
pub open spec fn finv(a: int) -> int {
    choose|x: int| is_inverse_of(x, a)
}

/// A residue has at most one canonical inverse.
pub proof fn lemma_inverse_unique(a: int, x: int, y: int)
    requires
        is_inverse_of(x, a),
        is_inverse_of(y, a),
    ensures
        x == y,
{
    let m = modulus();
    // x = x * (a * y) = (x * a) * y = y, all modulo m
    lemma_mul_mod_noop_general(x, a * y, m);
    lemma_mul_mod_noop_general(a * x, y, m);
    assert(x * (a * y) == (a * x) * y) by (nonlinear_arith);
    lemma_small_mod(x as nat, m as nat);
    lemma_small_mod(y as nat, m as nat);
    assert((x * 1) % m == x);
    assert((1 * y) % m == y);
}

/// An element of the field.
#[derive(Clone, Copy, Debug, PartialEq, Eq, Structural)]
pub struct Scalar {
    pub(crate) l0: u64,
    pub(crate) l1: u64,
    pub(crate) l2: u64,
    pub(crate) l3: u64,
}

impl View for Scalar {
    type V = int;

    /// The residue that the scalar stands for.
    closed spec fn view(&self) -> int {
        self.limbs_number() % modulus()
    }
}

impl Scalar {
    /// The number that the limbs denote.
    pub closed spec fn limbs_number(self) -> int {
        self.l0 + self.l1 * 0x1_0000_0000_0000_0000int
            + self.l2 * 0x1_0000_0000_0000_0000_0000_0000_0000_0000int
            + self.l3 * 0x1_0000_0000_0000_0000_0000_0000_0000_0000_0000_0000_0000_0000int
    }

    /// Every scalar holds the canonical representative of its residue.
    #[verifier::type_invariant]
    pub closed spec fn is_canonical(self) -> bool {
        self.limbs_number() < modulus()
    }

    /// The view of a scalar is a canonical representative.
    pub proof fn lemma_canonical(self)
        ensures
            0 <= self@ < modulus(),
            reduce(self@) == self@,
    {
        vstd::arithmetic::div_mod::lemma_mod_bound(self.limbs_number(), modulus());
        lemma_small_mod(self@ as nat, modulus() as nat);
    }

    /// The scalar with the given limbs, least significant first, if they
    /// denote a number below the modulus.
    pub fn from_limbs(limbs: [u64; 4]) -> (r: Option<Scalar>)
        ensures
            match r {
                Some(s) => limbs_value(limbs@) < modulus() && s@ == limbs_value(limbs@),
                None => limbs_value(limbs@) >= modulus(),
            },
    {
        let l0: u64 = limbs[0];
        let l1: u64 = limbs[1];
        let l2: u64 = limbs[2];
        let l3: u64 = limbs[3];
        let below = if l3 != 0x73eda753299d7d48 {
            l3 < 0x73eda753299d7d48
        } else if l2 != 0x3339d80809a1d805 {
            l2 < 0x3339d80809a1d805
        } else if l1 != 0x53bda402fffe5bfe {
            l1 < 0x53bda402fffe5bfe
        } else {
            l0 < 0xffffffff00000001
        };
        if below {
            let s = Scalar { l0, l1, l2, l3 };
            proof {
                lemma_small_mod(s.limbs_number() as nat, modulus() as nat);
            }
            Some(s)
        } else {
            None
        }
    }

    /// The limbs of the canonical representative, least significant first.
    pub fn to_limbs(&self) -> (limbs: [u64; 4])
        ensures
            limbs_value(limbs@) == self@,
    {
        proof {
            use_type_invariant(self);
            lemma_small_mod(self.limbs_number() as nat, modulus() as nat);
        }
        [self.l0, self.l1, self.l2, self.l3]
    }

    /// The scalar `x`.
    pub fn from_u64(x: u64) -> (r: Scalar)
        ensures
            r@ == x,
    {
        let s = Scalar { l0: x, l1: 0, l2: 0, l3: 0 };
        proof {
            lemma_small_mod(s.limbs_number() as nat, modulus() as nat);
        }
        s
    }

    /// The additive identity.
    pub fn zero() -> (r: Scalar)
        ensures
            r@ == 0,
    {
        let s = Scalar { l0: 0, l1: 0, l2: 0, l3: 0 };
        proof {
            lemma_small_mod(s.limbs_number() as nat, modulus() as nat);
        }
        s
    }

    /// The multiplicative identity.
    pub fn one() -> (r: Scalar)
        ensures
            r@ == 1,
    {
        let s = Scalar { l0: 1, l1: 0, l2: 0, l3: 0 };
        proof {
            lemma_small_mod(s.limbs_number() as nat, modulus() as nat);
        }
        s
    }

    /// Whether this is the additive identity.
    pub fn is_zero(&self) -> (r: bool)
        ensures
            r <==> self@ == 0,
    {
        proof {
            use_type_invariant(self);
            lemma_small_mod(self.limbs_number() as nat, modulus() as nat);
        }
        self.l0 == 0 && self.l1 == 0 && self.l2 == 0 && self.l3 == 0
    }
}

/// `ark-ff`'s addition of two elements of `Fr`: the canonical representative
/// of the sum of the two representatives.
#[verifier::external_body]
fn fr_add(a: &Scalar, b: &Scalar) -> (r: Scalar)
    ensures
        r@ == fadd(a@, b@),
{
    let x = Fr::from_repr(BigInteger256([a.l0, a.l1, a.l2, a.l3])).unwrap();
    let y = Fr::from_repr(BigInteger256([b.l0, b.l1, b.l2, b.l3])).unwrap();
    let [l0, l1, l2, l3] = (x + y).into_repr().0;
    Scalar { l0, l1, l2, l3 }
}

/// `ark-ff`'s subtraction of two elements of `Fr`: the canonical
/// representative of the difference of the two representatives.
#[verifier::external_body]
fn fr_sub(a: &Scalar, b: &Scalar) -> (r: Scalar)
    ensures
        r@ == fsub(a@, b@),
{
    let x = Fr::from_repr(BigInteger256([a.l0, a.l1, a.l2, a.l3])).unwrap();
    let y = Fr::from_repr(BigInteger256([b.l0, b.l1, b.l2, b.l3])).unwrap();
    let [l0, l1, l2, l3] = (x - y).into_repr().0;
    Scalar { l0, l1, l2, l3 }
}

/// `ark-ff`'s multiplication of two elements of `Fr`: the canonical
/// representative of the product of the two representatives.
#[verifier::external_body]
fn fr_mul(a: &Scalar, b: &Scalar) -> (r: Scalar)
    ensures
        r@ == fmul(a@, b@),
{
    let x = Fr::from_repr(BigInteger256([a.l0, a.l1, a.l2, a.l3])).unwrap();
    let y = Fr::from_repr(BigInteger256([b.l0, b.l1, b.l2, b.l3])).unwrap();
    let [l0, l1, l2, l3] = (x * y).into_repr().0;
    Scalar { l0, l1, l2, l3 }
}

/// `ark-ff`'s `Field::square` on `Fr`: the canonical representative of the
/// representative's square.
#[verifier::external_body]
fn fr_square(a: &Scalar) -> (r: Scalar)
    ensures
        r@ == fmul(a@, a@),
{
    let x = Fr::from_repr(BigInteger256([a.l0, a.l1, a.l2, a.l3])).unwrap();
    let [l0, l1, l2, l3] = x.square().into_repr().0;
    Scalar { l0, l1, l2, l3 }
}

/// `ark-ff`'s negation in `Fr`: the canonical representative of the
/// representative's negative.
#[verifier::external_body]
fn fr_neg(a: &Scalar) -> (r: Scalar)
    ensures
        r@ == reduce(-a@),
{
    let x = Fr::from_repr(BigInteger256([a.l0, a.l1, a.l2, a.l3])).unwrap();
    let [l0, l1, l2, l3] = (-x).into_repr().0;
    Scalar { l0, l1, l2, l3 }
}

/// `ark-ff`'s `Field::inverse` on `Fr`: nothing for zero, and for any other
/// element the one whose product with it is one.
#[verifier::external_body]
fn fr_inverse(a: &Scalar) -> (r: Option<Scalar>)
    ensures
        r is None <==> a@ == 0,
        r is Some ==> fmul(a@, r->Some_0@) == 1,
{
    let x = Fr::from_repr(BigInteger256([a.l0, a.l1, a.l2, a.l3])).unwrap();
    x.inverse().map(|y| {
        let [l0, l1, l2, l3] = y.into_repr().0;
        Scalar { l0, l1, l2, l3 }
    })
}

impl Scalar {
    /// The sum of two scalars.
    pub fn add(&self, rhs: &Scalar) -> (r: Scalar)
        ensures
            r@ == fadd(self@, rhs@),
    {
        fr_add(self, rhs)
    }

    /// The difference of two scalars.
    pub fn sub(&self, rhs: &Scalar) -> (r: Scalar)
        ensures
            r@ == fsub(self@, rhs@),
    {
        fr_sub(self, rhs)
    }

    /// The product of two scalars.
    pub fn mul(&self, rhs: &Scalar) -> (r: Scalar)
        ensures
            r@ == fmul(self@, rhs@),
    {
        fr_mul(self, rhs)
    }

    /// The square of a scalar.
    pub fn square(&self) -> (r: Scalar)
        ensures
            r@ == fmul(self@, self@),
    {
        fr_square(self)
    }

    /// The additive inverse of a scalar.
    pub fn neg(&self) -> (r: Scalar)
        ensures
            r@ == reduce(-self@),
    {
        fr_neg(self)
    }

    /// The multiplicative inverse of a scalar, which every scalar but zero
    /// has.
    pub fn invert(&self) -> (r: Option<Scalar>)
        ensures
            match r {
                Some(x) => self@ != 0 && is_inverse_of(x@, self@) && x@ == finv(self@),
                None => self@ == 0,
            },
    {
        let r = fr_inverse(self);
        proof {
            if let Some(x) = r {
                x.lemma_canonical();
                lemma_inverse_unique(self@, x@, finv(self@));
            }
        }
        r
    }
}

} // verus!
