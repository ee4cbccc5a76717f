//! The quotient polynomial: the sum of all the circuit's checks, divided by
//! the vanishing polynomial of the circuit's domain.
//!
//! The checks are polynomials of a degree above the domain's size, so they
//! are computed by their values at the points of the coset of the fourfold
//! domain. Four steps in that coset are one row of the circuit: the value of
//! a wire at the next row stands four places further on, and the places wrap
//! around at the end.

use crate::algebra::{
    lemma_fadd_reduce, lemma_fmul_assoc, lemma_fmul_reduce, lemma_fpow_adds,
    lemma_fpow_canonical, lemma_fpow_of_power, lemma_product_vanishes, lemma_reduce_canonical,
    lemma_sum_vanishes, lemma_units,
};
use crate::domain::{
    coset_element, coset_interpolation, coset_shift, domain_element, evaluations_over_coset,
    evaluations_over_domain, interpolation, is_domain_size, poly_eval, resized, root_of_unity,
    two_adic_root_of_unity, EvaluationDomain, TWO_ADICITY,
};
use crate::error::Error;
use crate::field::{fadd, finv, fmul, fpow, reduce, values, Scalar};
use crate::interpolation::lemma_root_to_the_size;
use crate::polynomial::{lemma_eval_resized, lemma_trimmed_resized, trimmed, Polynomial};
use crate::proof_system::widget::ecc::{fixed_base, variable_base};
use crate::proof_system::widget::{arithmetic, logic, permutation, range, ProverKey};
use crate::roots::{lemma_root_of_unity_exponent, lemma_root_of_unity_is_primitive};
use crate::term::Term;
use vstd::arithmetic::power2::pow2;
use vstd::prelude::*;

verus! {

/// The place of the next row's value, for the value at place `i` of `len`.
pub open spec fn next_row(i: int, len: int) -> int {
    (i + 4) % len
}

/// Four places on in the coset of the fourfold domain is one row on in the
/// circuit: the point at the next row's place is the point at this place
/// times the generator of the circuit's own domain, also where the places
/// wrap around.
pub proof fn lemma_next_row_is_one_row_on(n: nat, i: int)
    requires
        is_domain_size((4 * n) as int),
        0 <= i < 4 * n,
    ensures
        coset_element(4 * n, next_row(i, (4 * n) as int) as nat) == fmul(
            coset_element(4 * n, i as nat),
            root_of_unity(n),
        ),
{
    let size: nat = 4 * n;
    let k = choose|k: nat| k <= TWO_ADICITY && size == #[trigger] pow2(k);
    let root = two_adic_root_of_unity();
    let w = root_of_unity(size);
    vstd::arithmetic::power2::lemma2_to64();
    assert(k >= 2);
    vstd::arithmetic::power2::lemma_pow2_unfold(k);
    vstd::arithmetic::power2::lemma_pow2_unfold((k - 1) as nat);
    assert(n == pow2((k - 2) as nat));
    // The generator of the circuit's domain is the fourth power of the
    // fourfold domain's.
    lemma_root_of_unity_exponent(k);
    lemma_root_of_unity_exponent((k - 2) as nat);
    let e = pow2((32 - k) as nat);
    vstd::arithmetic::power2::lemma_pow2_unfold((34 - k) as nat);
    vstd::arithmetic::power2::lemma_pow2_unfold((33 - k) as nat);
    assert(pow2((34 - k) as nat) == e * 4);
    lemma_fpow_of_power(root, e, 4);
    assert(fpow(w, 4) == root_of_unity(n));
    // The generator's power to the size is one.
    lemma_root_of_unity_is_primitive(size);
    lemma_root_to_the_size(w, k);
    let j = next_row(i, size as int);
    assert(fpow(w, (i + 4) as nat) == fpow(w, j as nat)) by {
        if i + 4 < size {
            vstd::arithmetic::div_mod::lemma_small_mod((i + 4) as nat, size);
        } else {
            vstd::arithmetic::div_mod::lemma_mod_sub_multiples_vanish(i + 4, size as int);
            vstd::arithmetic::div_mod::lemma_small_mod((i + 4 - size) as nat, size);
            assert(j == i + 4 - size);
            lemma_fpow_adds(w, j as nat, size);
            lemma_units(fpow(w, j as nat));
            lemma_fpow_canonical(w, j as nat);
            lemma_reduce_canonical(fpow(w, j as nat));
        }
    }
    lemma_fpow_adds(w, i as nat, 4);
    lemma_fmul_assoc(coset_shift(), fpow(w, i as nat), fpow(w, 4));
}

/// The values of a polynomial at the points of the coset of the domain of
/// `size` points.
pub open spec fn coset_evaluations(poly: Seq<int>, size: nat) -> Seq<int> {
    evaluations_over_coset(resized(poly, size), size)
}

/// The values over a domain of `size` points of its first Lagrange
/// polynomial, scaled: `scale` at the first point and zero at the others.
pub open spec fn first_lagrange_evaluations(size: nat, scale: int) -> Seq<int> {
    Seq::new(
        size,
        |i: int|
            if i == 0 {
                scale
            } else {
                0
            },
    )
}

/// The first Lagrange polynomial of the domain of `size` points, scaled.
pub open spec fn first_lagrange_poly_scaled(size: nat, scale: int) -> Seq<int> {
    trimmed(interpolation(size, first_lagrange_evaluations(size, scale)))
}

/// The sum of the widgets' checks and the public inputs at place `i`, for
/// the given values of the wires and of the public inputs over the coset.
pub open spec fn circuit_satisfiability_at(
    key: &ProverKey,
    i: int,
    range_challenge: int,
    logic_challenge: int,
    fixed_base_challenge: int,
    var_base_challenge: int,
    wl: Seq<int>,
    wr: Seq<int>,
    wo: Seq<int>,
    w4: Seq<int>,
    pi: Seq<int>,
) -> int {
    let j = next_row(i, wl.len() as int);
    reduce(
        key.arithmetic.term_at(i, wl[i], wr[i], wo[i], w4[i]) + pi[i] + key.range.term_at(
            i,
            range_challenge,
            wl[i],
            wr[i],
            wo[i],
            w4[i],
            w4[j],
        ) + key.logic.term_at(i, logic_challenge, wl[i], wl[j], wr[i], wr[j], wo[i], w4[i], w4[j])
            + key.fixed_base.term_at(
            i,
            fixed_base_challenge,
            wl[i],
            wl[j],
            wr[i],
            wr[j],
            wo[i],
            w4[i],
            w4[j],
        ) + key.variable_base.term_at(
            i,
            var_base_challenge,
            wl[i],
            wl[j],
            wr[i],
            wr[j],
            wo[i],
            w4[i],
            w4[j],
        ),
    )
}

/// The permutation argument's check at place `i`, for the given values over
/// the coset of the wires, of the running product and of the scaled first
/// Lagrange polynomial.
pub open spec fn permutation_check_at(
    key: &ProverKey,
    i: int,
    alpha: int,
    beta: int,
    gamma: int,
    wl: Seq<int>,
    wr: Seq<int>,
    wo: Seq<int>,
    w4: Seq<int>,
    z: Seq<int>,
    l1_alpha_sq: Seq<int>,
) -> int {
    let j = next_row(i, z.len() as int);
    key.permutation.term_at(
        i,
        wl[i],
        wr[i],
        wo[i],
        w4[i],
        z[i],
        z[j],
        alpha,
        l1_alpha_sq[i],
        beta,
        gamma,
    )
}

/// The circuit's checks at every place of the coset of the domain of `size`
/// points.
pub open spec fn circuit_satisfiability_evaluations(
    key: &ProverKey,
    size: nat,
    range_challenge: int,
    logic_challenge: int,
    fixed_base_challenge: int,
    var_base_challenge: int,
    wl: Seq<int>,
    wr: Seq<int>,
    wo: Seq<int>,
    w4: Seq<int>,
    pi_poly: Seq<int>,
) -> Seq<int> {
    Seq::new(
        size,
        |i: int|
            circuit_satisfiability_at(
                key,
                i,
                range_challenge,
                logic_challenge,
                fixed_base_challenge,
                var_base_challenge,
                wl,
                wr,
                wo,
                w4,
                coset_evaluations(pi_poly, size),
            ),
    )
}

/// The permutation argument's checks at every place of the coset of the
/// fourfold of the domain of `n` points.
pub open spec fn permutation_evaluations(
    key: &ProverKey,
    n: nat,
    alpha: int,
    beta: int,
    gamma: int,
    wl: Seq<int>,
    wr: Seq<int>,
    wo: Seq<int>,
    w4: Seq<int>,
    z: Seq<int>,
) -> Seq<int> {
    Seq::new(
        4 * n,
        |i: int|
            permutation_check_at(
                key,
                i,
                alpha,
                beta,
                gamma,
                wl,
                wr,
                wo,
                w4,
                z,
                coset_evaluations(first_lagrange_poly_scaled(n, fmul(alpha, alpha)), 4 * n),
            ),
    )
}

/// The quotient at one place: the sum of the checks, divided by the
/// vanishing polynomial's value.
pub open spec fn quotient_value(t_1: int, t_2: int, v_h: int) -> int {
    fmul(fadd(t_1, t_2), finv(v_h))
}

/// The sum of all checks at every place of the coset of the fourfold of the
/// domain of `n` points: what the quotient is the quotient of.
pub open spec fn checks_evaluations(
    key: &ProverKey,
    n: nat,
    z_poly: Seq<int>,
    w_l_poly: Seq<int>,
    w_r_poly: Seq<int>,
    w_o_poly: Seq<int>,
    w_4_poly: Seq<int>,
    pi_poly: Seq<int>,
    alpha: int,
    beta: int,
    gamma: int,
    range_challenge: int,
    logic_challenge: int,
    fixed_base_challenge: int,
    var_base_challenge: int,
) -> Seq<int> {
    let wl = coset_evaluations(w_l_poly, 4 * n);
    let wr = coset_evaluations(w_r_poly, 4 * n);
    let wo = coset_evaluations(w_o_poly, 4 * n);
    let w4 = coset_evaluations(w_4_poly, 4 * n);
    let z = coset_evaluations(z_poly, 4 * n);
    let t_1 = circuit_satisfiability_evaluations(
        key,
        4 * n,
        range_challenge,
        logic_challenge,
        fixed_base_challenge,
        var_base_challenge,
        wl,
        wr,
        wo,
        w4,
        pi_poly,
    );
    let t_2 = permutation_evaluations(key, n, alpha, beta, gamma, wl, wr, wo, w4, z);
    Seq::new(4 * n, |i: int| fadd(t_1[i], t_2[i]))
}

/// The values of the quotient at every place of the coset of the fourfold of
/// the domain of `n` points.
pub open spec fn quotient_evaluations(
    key: &ProverKey,
    n: nat,
    z_poly: Seq<int>,
    w_l_poly: Seq<int>,
    w_r_poly: Seq<int>,
    w_o_poly: Seq<int>,
    w_4_poly: Seq<int>,
    pi_poly: Seq<int>,
    alpha: int,
    beta: int,
    gamma: int,
    range_challenge: int,
    logic_challenge: int,
    fixed_base_challenge: int,
    var_base_challenge: int,
) -> Seq<int> {
    let wl = coset_evaluations(w_l_poly, 4 * n);
    let wr = coset_evaluations(w_r_poly, 4 * n);
    let wo = coset_evaluations(w_o_poly, 4 * n);
    let w4 = coset_evaluations(w_4_poly, 4 * n);
    let z = coset_evaluations(z_poly, 4 * n);
    let t_1 = circuit_satisfiability_evaluations(
        key,
        4 * n,
        range_challenge,
        logic_challenge,
        fixed_base_challenge,
        var_base_challenge,
        wl,
        wr,
        wo,
        w4,
        pi_poly,
    );
    let t_2 = permutation_evaluations(key, n, alpha, beta, gamma, wl, wr, wo, w4, z);
    Seq::new(4 * n, |i: int| quotient_value(t_1[i], t_2[i], key.v_h_coset_4n@[i]@))
}

/// Whether the values at place `i` meet every equation of the circuit: those
/// of the five widgets and those of the permutation argument.
pub open spec fn row_is_satisfied(
    key: &ProverKey,
    i: int,
    beta: int,
    gamma: int,
    wl: Seq<int>,
    wr: Seq<int>,
    wo: Seq<int>,
    w4: Seq<int>,
    pi: Seq<int>,
    z: Seq<int>,
    l1_alpha_sq: Seq<int>,
) -> bool {
    let j = next_row(i, wl.len() as int);
    &&& arithmetic::is_satisfied(
        key.arithmetic.q_m@[i]@,
        key.arithmetic.q_l@[i]@,
        key.arithmetic.q_r@[i]@,
        key.arithmetic.q_o@[i]@,
        key.arithmetic.q_4@[i]@,
        key.arithmetic.q_c@[i]@,
        key.arithmetic.q_arith@[i]@,
        wl[i],
        wr[i],
        wo[i],
        w4[i],
        pi[i],
    )
    &&& range::is_satisfied(key.range.q_range@[i]@, wl[i], wr[i], wo[i], w4[i], w4[j])
    &&& logic::is_satisfied(
        key.logic.q_c@[i]@,
        key.logic.q_logic@[i]@,
        wl[i],
        wl[j],
        wr[i],
        wr[j],
        wo[i],
        w4[i],
        w4[j],
    )
    &&& fixed_base::is_satisfied(
        key.fixed_base.q_l@[i]@,
        key.fixed_base.q_r@[i]@,
        key.fixed_base.q_c@[i]@,
        key.fixed_base.q_fixed_group_add@[i]@,
        wl[i],
        wl[j],
        wr[i],
        wr[j],
        wo[i],
        w4[i],
        w4[j],
    )
    &&& variable_base::is_satisfied(
        key.variable_base.q_variable_group_add@[i]@,
        wl[i],
        wl[j],
        wr[i],
        wr[j],
        wo[i],
        w4[i],
        w4[j],
    )
    &&& permutation::is_satisfied(
        key.permutation.linear_evaluations@[i]@,
        key.permutation.left_sigma@[i]@,
        key.permutation.right_sigma@[i]@,
        key.permutation.out_sigma@[i]@,
        key.permutation.fourth_sigma@[i]@,
        wl[i],
        wr[i],
        wo[i],
        w4[i],
        z[i],
        z[j],
        l1_alpha_sq[i],
        beta,
        gamma,
    )
}

/// The sum of all checks is zero wherever the circuit's equations hold,
/// whatever the challenges that weigh the checks against each other.
///
/// For a satisfied circuit with an honest running product the equations
/// hold at every point of the circuit's own domain. There the sum of the
/// checks is zero, so it is a multiple of the domain's vanishing polynomial,
/// and the quotient at such a point would be zero whatever it were divided
/// by.
pub proof fn lemma_checks_vanish_on_satisfied_row(
    key: &ProverKey,
    i: int,
    alpha: int,
    beta: int,
    gamma: int,
    range_challenge: int,
    logic_challenge: int,
    fixed_base_challenge: int,
    var_base_challenge: int,
    wl: Seq<int>,
    wr: Seq<int>,
    wo: Seq<int>,
    w4: Seq<int>,
    pi: Seq<int>,
    z: Seq<int>,
    l1_alpha_sq: Seq<int>,
)
    requires
        z.len() == wl.len(),
        row_is_satisfied(key, i, beta, gamma, wl, wr, wo, w4, pi, z, l1_alpha_sq),
    ensures
        circuit_satisfiability_at(
            key,
            i,
            range_challenge,
            logic_challenge,
            fixed_base_challenge,
            var_base_challenge,
            wl,
            wr,
            wo,
            w4,
            pi,
        ) == 0,
        permutation_check_at(key, i, alpha, beta, gamma, wl, wr, wo, w4, z, l1_alpha_sq) == 0,
        forall|v_h: int|
            #[trigger] quotient_value(
                circuit_satisfiability_at(
                    key,
                    i,
                    range_challenge,
                    logic_challenge,
                    fixed_base_challenge,
                    var_base_challenge,
                    wl,
                    wr,
                    wo,
                    w4,
                    pi,
                ),
                permutation_check_at(key, i, alpha, beta, gamma, wl, wr, wo, w4, z, l1_alpha_sq),
                v_h,
            ) == 0,
{
    let j = next_row(i, wl.len() as int);
    let a = key.arithmetic.term_at(i, wl[i], wr[i], wo[i], w4[i]);
    let b = key.range.term_at(i, range_challenge, wl[i], wr[i], wo[i], w4[i], w4[j]);
    let c = key.logic.term_at(
        i,
        logic_challenge,
        wl[i],
        wl[j],
        wr[i],
        wr[j],
        wo[i],
        w4[i],
        w4[j],
    );
    let d = key.fixed_base.term_at(
        i,
        fixed_base_challenge,
        wl[i],
        wl[j],
        wr[i],
        wr[j],
        wo[i],
        w4[i],
        w4[j],
    );
    let e = key.variable_base.term_at(
        i,
        var_base_challenge,
        wl[i],
        wl[j],
        wr[i],
        wr[j],
        wo[i],
        w4[i],
        w4[j],
    );
    range::lemma_satisfied_term_vanishes(
        key.range.q_range@[i]@,
        range_challenge,
        wl[i],
        wr[i],
        wo[i],
        w4[i],
        w4[j],
    );
    logic::lemma_satisfied_term_vanishes(
        key.logic.q_c@[i]@,
        key.logic.q_logic@[i]@,
        logic_challenge,
        wl[i],
        wl[j],
        wr[i],
        wr[j],
        wo[i],
        w4[i],
        w4[j],
    );
    fixed_base::lemma_satisfied_term_vanishes(
        key.fixed_base.q_l@[i]@,
        key.fixed_base.q_r@[i]@,
        key.fixed_base.q_c@[i]@,
        key.fixed_base.q_fixed_group_add@[i]@,
        fixed_base_challenge,
        wl[i],
        wl[j],
        wr[i],
        wr[j],
        wo[i],
        w4[i],
        w4[j],
    );
    variable_base::lemma_satisfied_term_vanishes(
        key.variable_base.q_variable_group_add@[i]@,
        var_base_challenge,
        wl[i],
        wl[j],
        wr[i],
        wr[j],
        wo[i],
        w4[i],
        w4[j],
    );
    permutation::lemma_satisfied_term_vanishes(
        key.permutation.linear_evaluations@[i]@,
        key.permutation.left_sigma@[i]@,
        key.permutation.right_sigma@[i]@,
        key.permutation.out_sigma@[i]@,
        key.permutation.fourth_sigma@[i]@,
        wl[i],
        wr[i],
        wo[i],
        w4[i],
        z[i],
        z[j],
        alpha,
        l1_alpha_sq[i],
        beta,
        gamma,
    );
    // The arithmetic share and the public input cancel.
    lemma_fadd_reduce(
        arithmetic::gate_identity(
            key.arithmetic.q_m@[i]@,
            key.arithmetic.q_l@[i]@,
            key.arithmetic.q_r@[i]@,
            key.arithmetic.q_o@[i]@,
            key.arithmetic.q_4@[i]@,
            key.arithmetic.q_c@[i]@,
            wl[i],
            wr[i],
            wo[i],
            w4[i],
        ) * key.arithmetic.q_arith@[i]@,
        pi[i],
    );
    assert(reduce(a + pi[i]) == 0);
    lemma_units(0);
    lemma_sum_vanishes(a + pi[i], b);
    lemma_sum_vanishes(a + pi[i] + b, c);
    lemma_sum_vanishes(a + pi[i] + b + c, d);
    lemma_sum_vanishes(a + pi[i] + b + c + d, e);
    assert forall|v_h: int| #[trigger] quotient_value(0, 0, v_h) == 0 by {
        assert(fadd(0, 0) == 0);
        lemma_product_vanishes(0, finv(v_h));
    }
}

/// The place of the next row's value.
pub fn next_row_index(i: usize, len: usize) -> (j: usize)
    requires
        i < len,
    ensures
        j == next_row(i as int, len as int),
        j < len,
{
    let wide: u128 = (i as u128 + 4) % (len as u128);
    wide as usize
}

/// The sum of the widgets' checks and the public inputs at one place.
pub fn circuit_satisfiability_at_index(
    prover_key: &ProverKey,
    i: usize,
    range_challenge: &Scalar,
    logic_challenge: &Scalar,
    fixed_base_challenge: &Scalar,
    var_base_challenge: &Scalar,
    wl_eval: &Vec<Scalar>,
    wr_eval: &Vec<Scalar>,
    wo_eval: &Vec<Scalar>,
    w4_eval: &Vec<Scalar>,
    pi_eval: &Vec<Scalar>,
) -> (r: Scalar)
    requires
        i < wl_eval@.len(),
        prover_key.covers(wl_eval@.len()),
        wr_eval@.len() == wl_eval@.len(),
        wo_eval@.len() == wl_eval@.len(),
        w4_eval@.len() == wl_eval@.len(),
        pi_eval@.len() == wl_eval@.len(),
    ensures
        r@ == circuit_satisfiability_at(
            prover_key,
            i as int,
            range_challenge@,
            logic_challenge@,
            fixed_base_challenge@,
            var_base_challenge@,
            values(wl_eval@),
            values(wr_eval@),
            values(wo_eval@),
            values(w4_eval@),
            values(pi_eval@),
        ),
{
    let ghost len = wl_eval@.len();
    let j = next_row_index(i, wl_eval.len());
    let wl = &wl_eval[i];
    let wr = &wr_eval[i];
    let wo = &wo_eval[i];
    let w4 = &w4_eval[i];
    let wl_next = &wl_eval[j];
    let wr_next = &wr_eval[j];
    let w4_next = &w4_eval[j];
    let pi = &pi_eval[i];

    assert(prover_key.arithmetic.covers(len) && i < len);
    let a = prover_key.arithmetic.compute_quotient_i(i, wl, wr, wo, w4);

    assert(prover_key.range.covers(len) && i < len);
    let b = prover_key.range.compute_quotient_i(i, range_challenge, wl, wr, wo, w4, w4_next);

    assert(prover_key.logic.covers(len) && i < len);
    let c = prover_key.logic.compute_quotient_i(
        i,
        logic_challenge,
        wl,
        wl_next,
        wr,
        wr_next,
        wo,
        w4,
        w4_next,
    );

    assert(prover_key.fixed_base.covers(len) && i < len);
    let d = prover_key.fixed_base.compute_quotient_i(
        i,
        fixed_base_challenge,
        wl,
        wl_next,
        wr,
        wr_next,
        wo,
        w4,
        w4_next,
    );

    assert(prover_key.variable_base.covers(len) && i < len);
    let e = prover_key.variable_base.compute_quotient_i(
        i,
        var_base_challenge,
        wl,
        wl_next,
        wr,
        wr_next,
        wo,
        w4,
        w4_next,
    );

    Term::of(&a).add(&Term::of(pi)).add(&Term::of(&b)).add(&Term::of(&c)).add(&Term::of(&d)).add(
        &Term::of(&e),
    ).value
}

/// The permutation argument's check at one place.
pub fn permutation_check_at_index(
    prover_key: &ProverKey,
    i: usize,
    alpha: &Scalar,
    beta: &Scalar,
    gamma: &Scalar,
    wl_eval: &Vec<Scalar>,
    wr_eval: &Vec<Scalar>,
    wo_eval: &Vec<Scalar>,
    w4_eval: &Vec<Scalar>,
    z_eval: &Vec<Scalar>,
    l1_alpha_sq_evals: &Vec<Scalar>,
) -> (r: Scalar)
    requires
        i < z_eval@.len(),
        prover_key.covers(z_eval@.len()),
        wl_eval@.len() == z_eval@.len(),
        wr_eval@.len() == z_eval@.len(),
        wo_eval@.len() == z_eval@.len(),
        w4_eval@.len() == z_eval@.len(),
        l1_alpha_sq_evals@.len() == z_eval@.len(),
    ensures
        r@ == permutation_check_at(
            prover_key,
            i as int,
            alpha@,
            beta@,
            gamma@,
            values(wl_eval@),
            values(wr_eval@),
            values(wo_eval@),
            values(w4_eval@),
            values(z_eval@),
            values(l1_alpha_sq_evals@),
        ),
{
    let ghost len = z_eval@.len();
    let j = next_row_index(i, z_eval.len());
    assert(prover_key.permutation.covers(len) && i < len);
    prover_key.permutation.compute_quotient_i(
        i,
        &wl_eval[i],
        &wr_eval[i],
        &wo_eval[i],
        &w4_eval[i],
        &z_eval[i],
        &z_eval[j],
        alpha,
        &l1_alpha_sq_evals[i],
        beta,
        gamma,
    )
}

/// The quotient at one place, unless the vanishing polynomial is zero there.
/// Times the vanishing polynomial's value, the quotient is the sum of the
/// checks again.
pub fn quotient_at_index(t_1: &Scalar, t_2: &Scalar, v_h: &Scalar) -> (r: Result<Scalar, Error>)
    ensures
        match r {
            Ok(q) => {
                &&& v_h@ != 0
                &&& q@ == quotient_value(t_1@, t_2@, v_h@)
                &&& fmul(q@, v_h@) == fadd(t_1@, t_2@)
            },
            Err(e) => e == Error::ZeroInversion && v_h@ == 0,
        },
{
    match v_h.invert() {
        Some(inverse) => {
            proof {
                let sum = fadd(t_1@, t_2@);
                lemma_fmul_assoc(sum, inverse@, v_h@);
                lemma_fmul_reduce(inverse@, v_h@);
                lemma_units(sum);
                lemma_fadd_reduce(t_1@, t_2@);
                lemma_reduce_canonical(sum);
            }
            Ok(t_1.add(t_2).mul(&inverse))
        },
        None => Err(Error::ZeroInversion),
    }
}

/// The first Lagrange polynomial of the domain, scaled: the polynomial
/// that takes the value `scale` at the domain's first point and zero at the
/// others.
pub fn compute_first_lagrange_poly_scaled(domain: &EvaluationDomain, scale: Scalar) -> (r:
    Polynomial)
    ensures
        r@ == first_lagrange_poly_scaled(domain.size() as nat, scale@),
        r@.len() <= domain.size(),
        forall|i: int|
            0 <= i < domain.size() ==> poly_eval(
                r@,
                #[trigger] domain_element(domain.size() as nat, i as nat),
            ) == first_lagrange_evaluations(domain.size() as nat, scale@)[i],
{
    let n = domain.size();
    proof {
        use_type_invariant(domain);
        domain.lemma_size();
    }
    let mut x_evals: Vec<Scalar> = Vec::new();
    x_evals.push(scale);
    while x_evals.len() < n
        invariant
            1 <= x_evals@.len() <= n,
            x_evals@[0]@ == scale@,
            forall|j: int| 1 <= j < x_evals@.len() ==> (#[trigger] x_evals@[j])@ == 0,
        decreases n - x_evals@.len(),
    {
        x_evals.push(Scalar::zero());
    }
    assert(values(x_evals@) =~= first_lagrange_evaluations(n as nat, scale@));
    assert(resized(values(x_evals@), n as nat) =~= values(x_evals@));
    let coeffs = domain.ifft(&x_evals);
    proof {
        let trimmed_coeffs = trimmed(values(coeffs@));
        lemma_trimmed_resized(values(coeffs@));
        assert forall|i: int| 0 <= i < n implies poly_eval(
            trimmed_coeffs,
            #[trigger] domain_element(n as nat, i as nat),
        ) == first_lagrange_evaluations(n as nat, scale@)[i] by {
            let x = domain_element(n as nat, i as nat);
            lemma_eval_resized(trimmed_coeffs, n as nat, x);
            assert(evaluations_over_domain(values(coeffs@), n as nat)[i] == poly_eval(
                values(coeffs@),
                x,
            ));
        }
    }
    Polynomial::from_coefficients_vec(coeffs)
}

/// The circuit's checks, summed, at every place of the coset of the fourfold
/// domain.
pub fn compute_circuit_satisfiability_equation(
    domain: &EvaluationDomain,
    challenges: (&Scalar, &Scalar, &Scalar, &Scalar),
    prover_key: &ProverKey,
    wire_evals: (&Vec<Scalar>, &Vec<Scalar>, &Vec<Scalar>, &Vec<Scalar>),
    pi_poly: &Polynomial,
) -> (r: Result<Vec<Scalar>, Error>)
    requires
        prover_key.covers((4 * domain.size()) as nat),
        wire_evals.0@.len() == 4 * domain.size(),
        wire_evals.1@.len() == 4 * domain.size(),
        wire_evals.2@.len() == 4 * domain.size(),
        wire_evals.3@.len() == 4 * domain.size(),
    ensures
        match r {
            Ok(t) => is_domain_size(4 * domain.size()) && values(t@)
                == circuit_satisfiability_evaluations(
                prover_key,
                (4 * domain.size()) as nat,
                challenges.0@,
                challenges.1@,
                challenges.2@,
                challenges.3@,
                values(wire_evals.0@),
                values(wire_evals.1@),
                values(wire_evals.2@),
                values(wire_evals.3@),
                pi_poly@,
            ),
            Err(e) => e == Error::InvalidDomainSize && !is_domain_size(4 * domain.size()),
        },
{
    let domain_4n = match domain.fourfold() {
        Ok(d) => d,
        Err(e) => {
            return Err(e);
        },
    };
    let size = domain_4n.size();
    let pi_eval_4n = domain_4n.coset_fft(&pi_poly.coeffs);
    assert(values(pi_eval_4n@).len() == size);

    let mut t: Vec<Scalar> = Vec::new();
    let mut i: usize = 0;
    while i < size
        invariant
            i <= size,
            size == 4 * domain.size(),
            t@.len() == i,
            prover_key.covers(size as nat),
            wire_evals.0@.len() == size,
            wire_evals.1@.len() == size,
            wire_evals.2@.len() == size,
            wire_evals.3@.len() == size,
            pi_eval_4n@.len() == size,
            forall|k: int|
                0 <= k < i ==> (#[trigger] t@[k])@ == circuit_satisfiability_at(
                    prover_key,
                    k,
                    challenges.0@,
                    challenges.1@,
                    challenges.2@,
                    challenges.3@,
                    values(wire_evals.0@),
                    values(wire_evals.1@),
                    values(wire_evals.2@),
                    values(wire_evals.3@),
                    values(pi_eval_4n@),
                ),
        decreases size - i,
    {
        let t_i = circuit_satisfiability_at_index(
            prover_key,
            i,
            challenges.0,
            challenges.1,
            challenges.2,
            challenges.3,
            wire_evals.0,
            wire_evals.1,
            wire_evals.2,
            wire_evals.3,
            &pi_eval_4n,
        );
        t.push(t_i);
        i = i + 1;
    }
    assert(values(t@) =~= circuit_satisfiability_evaluations(
        prover_key,
        size as nat,
        challenges.0@,
        challenges.1@,
        challenges.2@,
        challenges.3@,
        values(wire_evals.0@),
        values(wire_evals.1@),
        values(wire_evals.2@),
        values(wire_evals.3@),
        pi_poly@,
    ));
    Ok(t)
}

/// The permutation argument's checks at every place of the coset of the
/// fourfold domain.
pub fn compute_permutation_checks(
    domain: &EvaluationDomain,
    prover_key: &ProverKey,
    wire_evals: (&Vec<Scalar>, &Vec<Scalar>, &Vec<Scalar>, &Vec<Scalar>),
    z_eval_4n: &Vec<Scalar>,
    challenges: (&Scalar, &Scalar, &Scalar),
) -> (r: Result<Vec<Scalar>, Error>)
    requires
        prover_key.covers((4 * domain.size()) as nat),
        wire_evals.0@.len() == 4 * domain.size(),
        wire_evals.1@.len() == 4 * domain.size(),
        wire_evals.2@.len() == 4 * domain.size(),
        wire_evals.3@.len() == 4 * domain.size(),
        z_eval_4n@.len() == 4 * domain.size(),
    ensures
        match r {
            Ok(t) => is_domain_size(4 * domain.size()) && values(t@) == permutation_evaluations(
                prover_key,
                domain.size() as nat,
                challenges.0@,
                challenges.1@,
                challenges.2@,
                values(wire_evals.0@),
                values(wire_evals.1@),
                values(wire_evals.2@),
                values(wire_evals.3@),
                values(z_eval_4n@),
            ),
            Err(e) => e == Error::InvalidDomainSize && !is_domain_size(4 * domain.size()),
        },
{
    let domain_4n = match domain.fourfold() {
        Ok(d) => d,
        Err(e) => {
            return Err(e);
        },
    };
    let size = domain_4n.size();
    let alpha = challenges.0;
    let l1_poly_alpha = compute_first_lagrange_poly_scaled(domain, alpha.square());
    let l1_alpha_sq_evals = domain_4n.coset_fft(&l1_poly_alpha.coeffs);
    assert(values(l1_alpha_sq_evals@).len() == size);

    let mut t: Vec<Scalar> = Vec::new();
    let mut i: usize = 0;
    while i < size
        invariant
            i <= size,
            size == 4 * domain.size(),
            t@.len() == i,
            prover_key.covers(size as nat),
            wire_evals.0@.len() == size,
            wire_evals.1@.len() == size,
            wire_evals.2@.len() == size,
            wire_evals.3@.len() == size,
            z_eval_4n@.len() == size,
            l1_alpha_sq_evals@.len() == size,
            forall|k: int|
                0 <= k < i ==> (#[trigger] t@[k])@ == permutation_check_at(
                    prover_key,
                    k,
                    challenges.0@,
                    challenges.1@,
                    challenges.2@,
                    values(wire_evals.0@),
                    values(wire_evals.1@),
                    values(wire_evals.2@),
                    values(wire_evals.3@),
                    values(z_eval_4n@),
                    values(l1_alpha_sq_evals@),
                ),
        decreases size - i,
    {
        let t_i = permutation_check_at_index(
            prover_key,
            i,
            challenges.0,
            challenges.1,
            challenges.2,
            wire_evals.0,
            wire_evals.1,
            wire_evals.2,
            wire_evals.3,
            z_eval_4n,
            &l1_alpha_sq_evals,
        );
        t.push(t_i);
        i = i + 1;
    }
    assert(values(t@) =~= permutation_evaluations(
        prover_key,
        domain.size() as nat,
        challenges.0@,
        challenges.1@,
        challenges.2@,
        values(wire_evals.0@),
        values(wire_evals.1@),
        values(wire_evals.2@),
        values(wire_evals.3@),
        values(z_eval_4n@),
    ));
    Ok(t)
}

/// The quotient polynomial of a circuit, for the given polynomials of the
/// running product `z`, of the four wires and of the public inputs, and for
/// the challenges `alpha`, `beta`, `gamma` and those of the range, logic,
/// fixed-base and variable-base widgets, in this order.
///
/// Fails where the fourfold domain does not exist, and where the vanishing
/// polynomial is zero at a point of the coset.
pub fn compute(
    domain: &EvaluationDomain,
    prover_key: &ProverKey,
    z_poly: &Polynomial,
    w_polys: (&Polynomial, &Polynomial, &Polynomial, &Polynomial),
    public_inputs_poly: &Polynomial,
    challenges: &(Scalar, Scalar, Scalar, Scalar, Scalar, Scalar, Scalar),
) -> (r: Result<Polynomial, Error>)
    requires
        prover_key.covers((4 * domain.size()) as nat),
    ensures
        match r {
            Ok(t) => {
                let evaluations = quotient_evaluations(
                    prover_key,
                    domain.size() as nat,
                    z_poly@,
                    w_polys.0@,
                    w_polys.1@,
                    w_polys.2@,
                    w_polys.3@,
                    public_inputs_poly@,
                    challenges.0@,
                    challenges.1@,
                    challenges.2@,
                    challenges.3@,
                    challenges.4@,
                    challenges.5@,
                    challenges.6@,
                );
                &&& is_domain_size(4 * domain.size())
                &&& forall|i: int|
                    0 <= i < 4 * domain.size() ==> (#[trigger] prover_key.v_h_coset_4n@[i])@ != 0
                &&& t@ == trimmed(coset_interpolation((4 * domain.size()) as nat, evaluations))
                &&& t@.len() <= 4 * domain.size()
                &&& forall|i: int|
                    0 <= i < 4 * domain.size() ==> fmul(
                        poly_eval(
                            t@,
                            #[trigger] coset_element((4 * domain.size()) as nat, i as nat),
                        ),
                        prover_key.v_h_coset_4n@[i]@,
                    ) == checks_evaluations(
                        prover_key,
                        domain.size() as nat,
                        z_poly@,
                        w_polys.0@,
                        w_polys.1@,
                        w_polys.2@,
                        w_polys.3@,
                        public_inputs_poly@,
                        challenges.0@,
                        challenges.1@,
                        challenges.2@,
                        challenges.3@,
                        challenges.4@,
                        challenges.5@,
                        challenges.6@,
                    )[i]
                &&& forall|i: int|
                    0 <= i < 4 * domain.size() ==> poly_eval(
                        t@,
                        #[trigger] coset_element((4 * domain.size()) as nat, i as nat),
                    ) == evaluations[i]
            },
            Err(e) => {
                ||| e == Error::InvalidDomainSize && !is_domain_size(4 * domain.size())
                ||| e == Error::ZeroInversion && is_domain_size(4 * domain.size()) && exists|
                    i: int,
                |
                    0 <= i < 4 * domain.size() && (#[trigger] prover_key.v_h_coset_4n@[i])@ == 0
            },
        },
{
    let domain_4n = match domain.fourfold() {
        Ok(d) => d,
        Err(e) => {
            return Err(e);
        },
    };
    let size = domain_4n.size();
    let ghost n = domain.size() as nat;

    // The values of the running product and of the wires over the coset.
    let z_eval_4n = domain_4n.coset_fft(&z_poly.coeffs);
    let wl_eval_4n = domain_4n.coset_fft(&w_polys.0.coeffs);
    let wr_eval_4n = domain_4n.coset_fft(&w_polys.1.coeffs);
    let wo_eval_4n = domain_4n.coset_fft(&w_polys.2.coeffs);
    let w4_eval_4n = domain_4n.coset_fft(&w_polys.3.coeffs);
    assert(values(z_eval_4n@).len() == size);
    assert(values(wl_eval_4n@).len() == size);
    assert(values(wr_eval_4n@).len() == size);
    assert(values(wo_eval_4n@).len() == size);
    assert(values(w4_eval_4n@).len() == size);

    let t_1 = match compute_circuit_satisfiability_equation(
        domain,
        (&challenges.3, &challenges.4, &challenges.5, &challenges.6),
        prover_key,
        (&wl_eval_4n, &wr_eval_4n, &wo_eval_4n, &w4_eval_4n),
        public_inputs_poly,
    ) {
        Ok(t) => t,
        Err(e) => {
            return Err(e);
        },
    };
    let t_2 = match compute_permutation_checks(
        domain,
        prover_key,
        (&wl_eval_4n, &wr_eval_4n, &wo_eval_4n, &w4_eval_4n),
        &z_eval_4n,
        (&challenges.0, &challenges.1, &challenges.2),
    ) {
        Ok(t) => t,
        Err(e) => {
            return Err(e);
        },
    };
    assert(values(t_1@).len() == size);
    assert(values(t_2@).len() == size);
    let ghost evaluations = quotient_evaluations(
        prover_key,
        n,
        z_poly@,
        w_polys.0@,
        w_polys.1@,
        w_polys.2@,
        w_polys.3@,
        public_inputs_poly@,
        challenges.0@,
        challenges.1@,
        challenges.2@,
        challenges.3@,
        challenges.4@,
        challenges.5@,
        challenges.6@,
    );

    let v_h = prover_key.v_h_coset_4n();
    let mut quotient: Vec<Scalar> = Vec::new();
    let mut i: usize = 0;
    while i < size
        invariant
            i <= size,
            size == 4 * n,
            n == domain.size(),
            is_domain_size(4 * domain.size()),
            quotient@.len() == i,
            t_1@.len() == size,
            t_2@.len() == size,
            v_h@.len() == size,
            v_h == &prover_key.v_h_coset_4n,
            forall|k: int| 0 <= k < i ==> (#[trigger] v_h@[k])@ != 0,
            forall|k: int|
                0 <= k < i ==> (#[trigger] quotient@[k])@ == quotient_value(
                    t_1@[k]@,
                    t_2@[k]@,
                    v_h@[k]@,
                ),
            forall|k: int|
                0 <= k < i ==> fmul((#[trigger] quotient@[k])@, v_h@[k]@) == fadd(
                    t_1@[k]@,
                    t_2@[k]@,
                ),
        decreases size - i,
    {
        let q_i = match quotient_at_index(&t_1[i], &t_2[i], &v_h[i]) {
            Ok(q) => q,
            Err(e) => {
                assert(prover_key.v_h_coset_4n@[i as int]@ == 0);
                return Err(e);
            },
        };
        quotient.push(q_i);
        i = i + 1;
    }
    assert(values(quotient@) =~= evaluations) by {
        assert forall|k: int| 0 <= k < size implies values(quotient@)[k] == evaluations[k] by {
            assert(values(t_1@)[k] == t_1@[k]@);
            assert(values(t_2@)[k] == t_2@[k]@);
        }
    }
    assert(resized(values(quotient@), size as nat) =~= values(quotient@));

    let coeffs = domain_4n.coset_ifft(&quotient);
    proof {
        let trimmed_coeffs = trimmed(values(coeffs@));
        lemma_trimmed_resized(values(coeffs@));
        assert forall|i: int| 0 <= i < size implies poly_eval(
            trimmed_coeffs,
            #[trigger] coset_element(size as nat, i as nat),
        ) == evaluations[i] && fmul(evaluations[i], prover_key.v_h_coset_4n@[i]@) == fadd(
            values(t_1@)[i],
            values(t_2@)[i],
        ) by {
            let x = coset_element(size as nat, i as nat);
            lemma_eval_resized(trimmed_coeffs, size as nat, x);
            assert(evaluations_over_coset(values(coeffs@), size as nat)[i] == poly_eval(
                values(coeffs@),
                x,
            ));
            assert(values(quotient@)[i] == quotient@[i]@);
        }
    }
    Ok(Polynomial::from_coefficients_vec(coeffs))
}

} // verus!
