//! Field computations that carry their meaning along.
//!
//! The widgets compute long expressions in the field, step by step, each
//! step reducing modulo the field's order. What such a computation gives is
//! the residue of the same expression over the integers. A [`Term`] shows it:
//! beside each scalar it holds, as a ghost, the integer expression that the
//! scalar is the residue of.

use crate::algebra::{lemma_fadd_reduce, lemma_fmul_reduce, lemma_fsub_reduce};
use crate::field::{reduce, Scalar};
use vstd::prelude::*;

verus! {

/// A scalar together with an integer that it is the residue of. A computation
/// on terms carries along the integer expression that its result stands for.
pub struct Term {
    pub value: Scalar,
    pub meaning: Ghost<int>,
}

impl Term {
    /// The value is the residue of the meaning.
    pub open spec fn wf(&self) -> bool {
        self.value@ == reduce(self.meaning@)
    }

    /// A scalar, standing for its own representative.
    pub fn of(s: &Scalar) -> (t: Term)
        ensures
            t.wf(),
            t.value == *s,
            t.meaning@ == s@,
    {
        proof {
            s.lemma_canonical();
        }
        Term { value: *s, meaning: Ghost(s@) }
    }

    /// The scalar `x`, standing for the integer `x`.
    pub fn constant(x: u64) -> (t: Term)
        ensures
            t.wf(),
            t.meaning@ == x,
    {
        let s = Scalar::from_u64(x);
        Term::of(&s)
    }

    /// The sum of two terms, standing for the sum of their integers.
    pub fn add(&self, rhs: &Term) -> (t: Term)
        requires
            self.wf(),
            rhs.wf(),
        ensures
            t.wf(),
            t.meaning@ == self.meaning@ + rhs.meaning@,
    {
        proof {
            lemma_fadd_reduce(self.meaning@, rhs.meaning@);
        }
        Term { value: self.value.add(&rhs.value), meaning: Ghost(self.meaning@ + rhs.meaning@) }
    }

    /// The difference of two terms, standing for the difference of their
    /// integers.
    pub fn sub(&self, rhs: &Term) -> (t: Term)
        requires
            self.wf(),
            rhs.wf(),
        ensures
            t.wf(),
            t.meaning@ == self.meaning@ - rhs.meaning@,
    {
        proof {
            lemma_fsub_reduce(self.meaning@, rhs.meaning@);
        }
        Term { value: self.value.sub(&rhs.value), meaning: Ghost(self.meaning@ - rhs.meaning@) }
    }

    /// The product of two terms, standing for the product of their
    /// integers.
    pub fn mul(&self, rhs: &Term) -> (t: Term)
        requires
            self.wf(),
            rhs.wf(),
        ensures
            t.wf(),
            t.meaning@ == self.meaning@ * rhs.meaning@,
    {
        proof {
            lemma_fmul_reduce(self.meaning@, rhs.meaning@);
        }
        Term { value: self.value.mul(&rhs.value), meaning: Ghost(self.meaning@ * rhs.meaning@) }
    }

    /// The square of a term, standing for the square of its integer.
    pub fn square(&self) -> (t: Term)
        requires
            self.wf(),
        ensures
            t.wf(),
            t.meaning@ == self.meaning@ * self.meaning@,
    {
        proof {
            lemma_fmul_reduce(self.meaning@, self.meaning@);
        }
        Term { value: self.value.square(), meaning: Ghost(self.meaning@ * self.meaning@) }
    }

    /// The negative of a term, standing for the negative of its integer.
    pub fn neg(&self) -> (t: Term)
        requires
            self.wf(),
        ensures
            t.wf(),
            t.meaning@ == -self.meaning@,
    {
        proof {
            lemma_fsub_reduce(self.meaning@, 0);
        }
        Term { value: self.value.neg(), meaning: Ghost(-self.meaning@) }
    }
}

} // verus!
