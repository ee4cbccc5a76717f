//! The permutation argument: the wires agree wherever the circuit says that
//! two of them hold the same variable. A running product `z` over the rows
//! shows it, one factor per wire and row.

use crate::algebra::{
    lemma_fadd_reduce, lemma_fmul_reduce, lemma_product_vanishes, lemma_sum_vanishes, lemma_units,
};
use crate::field::{fmul, is_inverse_of, lemma_modulus_positive, modulus, reduce, Scalar};
use crate::term::Term;
use vstd::prelude::*;

verus! {

/// The coset representative that tells the second wire's positions from the
/// first's.
pub const K1: u64 = 7;

/// The coset representative of the third wire's positions.
pub const K2: u64 = 13;

/// The coset representative of the fourth wire's positions.
pub const K3: u64 = 17;

/// The product over the four wires of `w + beta * position + gamma`, with
/// each wire at its own position `x`, `K1 x`, `K2 x`, `K3 x`, times the
/// running product.
pub open spec fn identity_product(
    x: int,
    w_l: int,
    w_r: int,
    w_o: int,
    w_4: int,
    z: int,
    beta: int,
    gamma: int,
) -> int {
    (w_l + beta * x + gamma) * (w_r + beta * K1 * x + gamma) * (w_o + beta * K2 * x + gamma) * (w_4
        + beta * K3 * x + gamma) * z
}

/// The product over the four wires of `w + beta * position + gamma`, with
/// each wire at the position that the permutation sends it to, times the
/// running product of the next row.
pub open spec fn copy_product(
    left_sigma: int,
    right_sigma: int,
    out_sigma: int,
    fourth_sigma: int,
    w_l: int,
    w_r: int,
    w_o: int,
    w_4: int,
    z_next: int,
    beta: int,
    gamma: int,
) -> int {
    (w_l + beta * left_sigma + gamma) * (w_r + beta * right_sigma + gamma) * (w_o + beta
        * out_sigma + gamma) * (w_4 + beta * fourth_sigma + gamma) * z_next
}

/// The check that the running product starts at one: `l1_alpha_sq` holds the
/// first Lagrange polynomial's value, scaled.
pub open spec fn boundary_check(z: int, l1_alpha_sq: int) -> int {
    (z - 1) * l1_alpha_sq
}

/// The permutation argument's share of the quotient at one point.
pub open spec fn quotient_term(
    x: int,
    left_sigma: int,
    right_sigma: int,
    out_sigma: int,
    fourth_sigma: int,
    w_l: int,
    w_r: int,
    w_o: int,
    w_4: int,
    z: int,
    z_next: int,
    alpha: int,
    l1_alpha_sq: int,
    beta: int,
    gamma: int,
) -> int {
    reduce(
        identity_product(x, w_l, w_r, w_o, w_4, z, beta, gamma) * alpha + -(copy_product(
            left_sigma,
            right_sigma,
            out_sigma,
            fourth_sigma,
            w_l,
            w_r,
            w_o,
            w_4,
            z_next,
            beta,
            gamma,
        ) * alpha) + boundary_check(z, l1_alpha_sq),
    )
}

/// Whether a row meets the permutation argument's equations: the running
/// product of the next row is this row's, times the wires' factors at their
/// own positions, over their factors at the permuted positions; and the
/// running product is one wherever the scaled first Lagrange polynomial is
/// not zero.
pub open spec fn is_satisfied(
    x: int,
    left_sigma: int,
    right_sigma: int,
    out_sigma: int,
    fourth_sigma: int,
    w_l: int,
    w_r: int,
    w_o: int,
    w_4: int,
    z: int,
    z_next: int,
    l1_alpha_sq: int,
    beta: int,
    gamma: int,
) -> bool {
    &&& reduce(
        identity_product(x, w_l, w_r, w_o, w_4, z, beta, gamma) - copy_product(
            left_sigma,
            right_sigma,
            out_sigma,
            fourth_sigma,
            w_l,
            w_r,
            w_o,
            w_4,
            z_next,
            beta,
            gamma,
        ),
    ) == 0
    &&& reduce(boundary_check(z, l1_alpha_sq)) == 0
}

/// On a row that meets the permutation argument's equations, its share of
/// the quotient is zero, whatever the challenge `alpha`.
pub proof fn lemma_satisfied_term_vanishes(
    x: int,
    left_sigma: int,
    right_sigma: int,
    out_sigma: int,
    fourth_sigma: int,
    w_l: int,
    w_r: int,
    w_o: int,
    w_4: int,
    z: int,
    z_next: int,
    alpha: int,
    l1_alpha_sq: int,
    beta: int,
    gamma: int,
)
    requires
        is_satisfied(
            x,
            left_sigma,
            right_sigma,
            out_sigma,
            fourth_sigma,
            w_l,
            w_r,
            w_o,
            w_4,
            z,
            z_next,
            l1_alpha_sq,
            beta,
            gamma,
        ),
    ensures
        quotient_term(
            x,
            left_sigma,
            right_sigma,
            out_sigma,
            fourth_sigma,
            w_l,
            w_r,
            w_o,
            w_4,
            z,
            z_next,
            alpha,
            l1_alpha_sq,
            beta,
            gamma,
        ) == 0,
{
    let identity = identity_product(x, w_l, w_r, w_o, w_4, z, beta, gamma);
    let copy = copy_product(
        left_sigma,
        right_sigma,
        out_sigma,
        fourth_sigma,
        w_l,
        w_r,
        w_o,
        w_4,
        z_next,
        beta,
        gamma,
    );
    assert(identity * alpha + -(copy * alpha) == (identity - copy) * alpha) by (nonlinear_arith);
    lemma_product_vanishes(identity - copy, alpha);
    lemma_sum_vanishes((identity - copy) * alpha, boundary_check(z, l1_alpha_sq));
}

/// Where the scaled first Lagrange polynomial can be divided by, the check
/// that the running product starts at one holds exactly if the running
/// product is one there. At the domain's first point that polynomial takes
/// the value of its scale, the square of the challenge `alpha`.
pub proof fn lemma_boundary_check_pins_start(z: int, l1_alpha_sq: int, inverse: int)
    requires
        0 <= z < modulus(),
        is_inverse_of(inverse, l1_alpha_sq),
    ensures
        reduce(boundary_check(z, l1_alpha_sq)) == 0 <==> z == 1,
{
    let m = modulus();
    lemma_modulus_positive();
    if z == 1 {
        assert((z - 1) * l1_alpha_sq == 0) by (nonlinear_arith)
            requires
                z == 1,
        ;
        vstd::arithmetic::div_mod::lemma_small_mod(0, m as nat);
    }
    if reduce(boundary_check(z, l1_alpha_sq)) == 0 {
        lemma_product_vanishes((z - 1) * l1_alpha_sq, inverse);
        assert((z - 1) * l1_alpha_sq * inverse == (z - 1) * (l1_alpha_sq * inverse))
            by (nonlinear_arith);
        vstd::arithmetic::div_mod::lemma_mul_mod_noop_general(z - 1, l1_alpha_sq * inverse, m);
        assert(reduce(l1_alpha_sq * inverse) == 1);
        assert(reduce(z - 1) * 1 == reduce(z - 1));
        vstd::arithmetic::div_mod::lemma_mod_twice(z - 1, m);
        assert(reduce(z - 1) == 0);
        if z == 0 {
            vstd::arithmetic::div_mod::lemma_mod_add_multiples_vanish(-1, m);
            vstd::arithmetic::div_mod::lemma_small_mod((m - 1) as nat, m as nat);
        } else {
            vstd::arithmetic::div_mod::lemma_small_mod((z - 1) as nat, m as nat);
        }
    }
}

/// A wrong start of the running product is not masked by the other terms.
/// At the domain's first point the scaled first Lagrange polynomial is the
/// square of `alpha`. On a row there on which the running product takes its
/// step, the permutation argument's share of the quotient is the check of
/// the start alone, and it is zero exactly if the running product is one,
/// for every `alpha` that can be divided by.
pub proof fn lemma_wrong_start_is_not_masked(
    x: int,
    left_sigma: int,
    right_sigma: int,
    out_sigma: int,
    fourth_sigma: int,
    w_l: int,
    w_r: int,
    w_o: int,
    w_4: int,
    z: int,
    z_next: int,
    alpha: int,
    alpha_inverse: int,
    beta: int,
    gamma: int,
)
    requires
        0 <= z < modulus(),
        is_inverse_of(alpha_inverse, alpha),
        reduce(
            identity_product(x, w_l, w_r, w_o, w_4, z, beta, gamma) - copy_product(
                left_sigma,
                right_sigma,
                out_sigma,
                fourth_sigma,
                w_l,
                w_r,
                w_o,
                w_4,
                z_next,
                beta,
                gamma,
            ),
        ) == 0,
    ensures
        quotient_term(
            x,
            left_sigma,
            right_sigma,
            out_sigma,
            fourth_sigma,
            w_l,
            w_r,
            w_o,
            w_4,
            z,
            z_next,
            alpha,
            fmul(alpha, alpha),
            beta,
            gamma,
        ) == reduce(boundary_check(z, fmul(alpha, alpha))),
        quotient_term(
            x,
            left_sigma,
            right_sigma,
            out_sigma,
            fourth_sigma,
            w_l,
            w_r,
            w_o,
            w_4,
            z,
            z_next,
            alpha,
            fmul(alpha, alpha),
            beta,
            gamma,
        ) == 0 <==> z == 1,
{
    let identity = identity_product(x, w_l, w_r, w_o, w_4, z, beta, gamma);
    let copy = copy_product(
        left_sigma,
        right_sigma,
        out_sigma,
        fourth_sigma,
        w_l,
        w_r,
        w_o,
        w_4,
        z_next,
        beta,
        gamma,
    );
    let alpha_sq = fmul(alpha, alpha);
    let boundary = boundary_check(z, alpha_sq);
    // The step's two products cancel.
    assert(identity * alpha + -(copy * alpha) == (identity - copy) * alpha) by (nonlinear_arith);
    lemma_product_vanishes(identity - copy, alpha);
    lemma_fadd_reduce((identity - copy) * alpha, boundary);
    lemma_units(boundary);
    // The square of alpha can be divided by.
    let inverse_sq = fmul(alpha_inverse, alpha_inverse);
    lemma_fmul_reduce(alpha * alpha, alpha_inverse * alpha_inverse);
    lemma_fmul_reduce(alpha * alpha_inverse, alpha * alpha_inverse);
    assert((alpha * alpha) * (alpha_inverse * alpha_inverse) == (alpha * alpha_inverse) * (alpha
        * alpha_inverse)) by (nonlinear_arith);
    lemma_units(1);
    assert(1 * 1 == 1);
    assert(is_inverse_of(inverse_sq, alpha_sq));
    lemma_boundary_check_pins_start(z, alpha_sq, inverse_sq);
}

/// The permutation's four polynomials and the identity polynomial, each as
/// evaluations over the coset.
pub struct ProverKey {
    pub left_sigma: Vec<Scalar>,
    pub right_sigma: Vec<Scalar>,
    pub out_sigma: Vec<Scalar>,
    pub fourth_sigma: Vec<Scalar>,
    pub linear_evaluations: Vec<Scalar>,
}

impl ProverKey {
    /// Every polynomial holds exactly `len` evaluations.
    pub open spec fn covers(&self, len: nat) -> bool {
        &&& self.left_sigma@.len() == len
        &&& self.right_sigma@.len() == len
        &&& self.out_sigma@.len() == len
        &&& self.fourth_sigma@.len() == len
        &&& self.linear_evaluations@.len() == len
    }

    /// The permutation argument's share of the quotient at point `i`.
    pub open spec fn term_at(
        &self,
        i: int,
        w_l: int,
        w_r: int,
        w_o: int,
        w_4: int,
        z: int,
        z_next: int,
        alpha: int,
        l1_alpha_sq: int,
        beta: int,
        gamma: int,
    ) -> int {
        quotient_term(
            self.linear_evaluations@[i]@,
            self.left_sigma@[i]@,
            self.right_sigma@[i]@,
            self.out_sigma@[i]@,
            self.fourth_sigma@[i]@,
            w_l,
            w_r,
            w_o,
            w_4,
            z,
            z_next,
            alpha,
            l1_alpha_sq,
            beta,
            gamma,
        )
    }

    /// Whether every polynomial holds exactly `len` evaluations.
    pub fn is_covering(&self, len: usize) -> (r: bool)
        ensures
            r == self.covers(len as nat),
    {
        self.left_sigma.len() == len && self.right_sigma.len() == len && self.out_sigma.len()
            == len && self.fourth_sigma.len() == len && self.linear_evaluations.len() == len
    }

    /// The permutation argument's share of the quotient at the point of the
    /// given index.
    pub fn compute_quotient_i(
        &self,
        index: usize,
        w_l_i: &Scalar,
        w_r_i: &Scalar,
        w_o_i: &Scalar,
        w_4_i: &Scalar,
        z_i: &Scalar,
        z_i_next: &Scalar,
        alpha: &Scalar,
        l1_alpha_sq: &Scalar,
        beta: &Scalar,
        gamma: &Scalar,
    ) -> (r: Scalar)
        requires
            exists|len: nat| self.covers(len) && index < len,
        ensures
            r@ == self.term_at(
                index as int,
                w_l_i@,
                w_r_i@,
                w_o_i@,
                w_4_i@,
                z_i@,
                z_i_next@,
                alpha@,
                l1_alpha_sq@,
                beta@,
                gamma@,
            ),
    {
        let w_l = Term::of(w_l_i);
        let w_r = Term::of(w_r_i);
        let w_o = Term::of(w_o_i);
        let w_4 = Term::of(w_4_i);
        let z = Term::of(z_i);
        let z_next = Term::of(z_i_next);
        let alpha = Term::of(alpha);
        let l1_alpha_sq = Term::of(l1_alpha_sq);
        let beta = Term::of(beta);
        let gamma = Term::of(gamma);

        let a = self.compute_quotient_identity_range_check_i(
            index,
            &w_l,
            &w_r,
            &w_o,
            &w_4,
            &z,
            &alpha,
            &beta,
            &gamma,
        );
        let b = self.compute_quotient_copy_range_check_i(
            index,
            &w_l,
            &w_r,
            &w_o,
            &w_4,
            &z_next,
            &alpha,
            &beta,
            &gamma,
        );
        let c = z.sub(&Term::constant(1)).mul(&l1_alpha_sq);
        a.add(&b).add(&c).value
    }

    /// The product with each wire at its own position, weighted by `alpha`.
    fn compute_quotient_identity_range_check_i(
        &self,
        index: usize,
        w_l: &Term,
        w_r: &Term,
        w_o: &Term,
        w_4: &Term,
        z: &Term,
        alpha: &Term,
        beta: &Term,
        gamma: &Term,
    ) -> (r: Term)
        requires
            exists|len: nat| self.covers(len) && index < len,
            w_l.wf(),
            w_r.wf(),
            w_o.wf(),
            w_4.wf(),
            z.wf(),
            alpha.wf(),
            beta.wf(),
            gamma.wf(),
        ensures
            r.wf(),
            r.meaning@ == identity_product(
                self.linear_evaluations@[index as int]@,
                w_l.meaning@,
                w_r.meaning@,
                w_o.meaning@,
                w_4.meaning@,
                z.meaning@,
                beta.meaning@,
                gamma.meaning@,
            ) * alpha.meaning@,
    {
        let x = Term::of(&self.linear_evaluations[index]);
        let k1 = Term::constant(K1);
        let k2 = Term::constant(K2);
        let k3 = Term::constant(K3);

        let f_l = w_l.add(&beta.mul(&x)).add(gamma);
        let f_r = w_r.add(&beta.mul(&k1).mul(&x)).add(gamma);
        let f_o = w_o.add(&beta.mul(&k2).mul(&x)).add(gamma);
        let f_4 = w_4.add(&beta.mul(&k3).mul(&x)).add(gamma);
        f_l.mul(&f_r).mul(&f_o).mul(&f_4).mul(z).mul(alpha)
    }

    /// The negative of the product with each wire at its permuted position,
    /// weighted by `alpha`.
    fn compute_quotient_copy_range_check_i(
        &self,
        index: usize,
        w_l: &Term,
        w_r: &Term,
        w_o: &Term,
        w_4: &Term,
        z_next: &Term,
        alpha: &Term,
        beta: &Term,
        gamma: &Term,
    ) -> (r: Term)
        requires
            exists|len: nat| self.covers(len) && index < len,
            w_l.wf(),
            w_r.wf(),
            w_o.wf(),
            w_4.wf(),
            z_next.wf(),
            alpha.wf(),
            beta.wf(),
            gamma.wf(),
        ensures
            r.wf(),
            r.meaning@ == -(copy_product(
                self.left_sigma@[index as int]@,
                self.right_sigma@[index as int]@,
                self.out_sigma@[index as int]@,
                self.fourth_sigma@[index as int]@,
                w_l.meaning@,
                w_r.meaning@,
                w_o.meaning@,
                w_4.meaning@,
                z_next.meaning@,
                beta.meaning@,
                gamma.meaning@,
            ) * alpha.meaning@),
    {
        let left_sigma = Term::of(&self.left_sigma[index]);
        let right_sigma = Term::of(&self.right_sigma[index]);
        let out_sigma = Term::of(&self.out_sigma[index]);
        let fourth_sigma = Term::of(&self.fourth_sigma[index]);

        let f_l = w_l.add(&beta.mul(&left_sigma)).add(gamma);
        let f_r = w_r.add(&beta.mul(&right_sigma)).add(gamma);
        let f_o = w_o.add(&beta.mul(&out_sigma)).add(gamma);
        let f_4 = w_4.add(&beta.mul(&fourth_sigma)).add(gamma);
        f_l.mul(&f_r).mul(&f_o).mul(&f_4).mul(z_next).mul(alpha).neg()
    }
}

} // verus!
