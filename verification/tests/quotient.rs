use plonk_core::domain::EvaluationDomain;
use plonk_core::error::Error;
use plonk_core::field::Scalar;
use plonk_core::polynomial::Polynomial;
use plonk_core::proof_system::quotient_poly::{
    circuit_satisfiability_at_index, compute, compute_circuit_satisfiability_equation,
    compute_first_lagrange_poly_scaled, compute_permutation_checks, next_row_index,
    permutation_check_at_index, quotient_at_index,
};
use plonk_core::proof_system::widget::ecc::{fixed_base, variable_base};
use plonk_core::proof_system::widget::permutation::{K1, K2, K3};
use plonk_core::proof_system::widget::{arithmetic, logic, permutation, range, ProverKey};

const N: usize = 4;

fn s(x: u64) -> Scalar {
    Scalar::from_u64(x)
}

fn scalars(xs: &[u64]) -> Vec<Scalar> {
    xs.iter().map(|x| Scalar::from_u64(*x)).collect()
}

fn power(base: &Scalar, exponent: usize) -> Scalar {
    let mut r = Scalar::one();
    for _ in 0..exponent {
        r = r.mul(base);
    }
    r
}

fn evaluate(coeffs: &[Scalar], x: &Scalar) -> Scalar {
    let mut r = Scalar::zero();
    for c in coeffs.iter().rev() {
        r = r.mul(x).add(c);
    }
    r
}

/// The rows of a circuit with one public input `c` and one sum `a + b = c`,
/// and the values on its wires.
struct Circuit {
    q_l: Vec<Scalar>,
    q_r: Vec<Scalar>,
    q_o: Vec<Scalar>,
    q_arith: Vec<Scalar>,
    zeros: Vec<Scalar>,
    w_l: Vec<Scalar>,
    w_r: Vec<Scalar>,
    w_o: Vec<Scalar>,
    w_4: Vec<Scalar>,
    left_sigma: Vec<Scalar>,
    right_sigma: Vec<Scalar>,
    out_sigma: Vec<Scalar>,
    fourth_sigma: Vec<Scalar>,
    positions: Vec<Scalar>,
}

fn circuit(a: u64, b: u64, c: u64) -> Circuit {
    let domain = EvaluationDomain::new(N).unwrap();
    let g = domain.group_gen();
    let positions: Vec<Scalar> = (0..N).map(|i| power(&g, i)).collect();
    let mut left_sigma = positions.clone();
    let right_sigma: Vec<Scalar> = positions.iter().map(|x| x.mul(&s(K1))).collect();
    let mut out_sigma: Vec<Scalar> = positions.iter().map(|x| x.mul(&s(K2))).collect();
    let fourth_sigma: Vec<Scalar> = positions.iter().map(|x| x.mul(&s(K3))).collect();
    // The left wire of row 0 and the output wire of row 1 hold the same
    // variable.
    left_sigma[0] = positions[1].mul(&s(K2));
    out_sigma[1] = positions[0];
    Circuit {
        q_l: scalars(&[1, 1, 0, 0]),
        q_r: scalars(&[0, 1, 0, 0]),
        q_o: vec![s(0), s(1).neg(), s(0), s(0)],
        q_arith: scalars(&[1, 1, 0, 0]),
        zeros: scalars(&[0, 0, 0, 0]),
        w_l: scalars(&[c, a, 0, 0]),
        w_r: scalars(&[0, b, 0, 0]),
        w_o: scalars(&[0, c, 0, 0]),
        w_4: scalars(&[0, 0, 0, 0]),
        left_sigma,
        right_sigma,
        out_sigma,
        fourth_sigma,
        positions,
    }
}

fn public_inputs(c: u64) -> Vec<Scalar> {
    vec![s(c).neg(), s(0), s(0), s(0)]
}

/// The running product of the permutation argument over the rows: `N + 1`
/// values, the last of which is the first again where the copies agree.
fn running_product(circuit: &Circuit, beta: &Scalar, gamma: &Scalar) -> Vec<Scalar> {
    let mut z = vec![Scalar::one()];
    for i in 0..N {
        let factor = |w: &Scalar, position: &Scalar| w.add(&beta.mul(position)).add(gamma);
        let x = &circuit.positions[i];
        let numerator = factor(&circuit.w_l[i], x)
            .mul(&factor(&circuit.w_r[i], &x.mul(&s(K1))))
            .mul(&factor(&circuit.w_o[i], &x.mul(&s(K2))))
            .mul(&factor(&circuit.w_4[i], &x.mul(&s(K3))));
        let denominator = factor(&circuit.w_l[i], &circuit.left_sigma[i])
            .mul(&factor(&circuit.w_r[i], &circuit.right_sigma[i]))
            .mul(&factor(&circuit.w_o[i], &circuit.out_sigma[i]))
            .mul(&factor(&circuit.w_4[i], &circuit.fourth_sigma[i]));
        let next = z[i].mul(&numerator).mul(&denominator.invert().unwrap());
        z.push(next);
    }
    z
}

fn interpolate(values: &Vec<Scalar>) -> Polynomial {
    let domain = EvaluationDomain::new(N).unwrap();
    Polynomial::from_coefficients_vec(domain.ifft(values))
}

fn over_coset(values: &Vec<Scalar>) -> Vec<Scalar> {
    let domain_4n = EvaluationDomain::new(4 * N).unwrap();
    domain_4n.coset_fft(&interpolate(values).coeffs)
}

fn vanishing_over_coset() -> Vec<Scalar> {
    let domain_4n = EvaluationDomain::new(4 * N).unwrap();
    let g = domain_4n.group_gen();
    (0..4 * N).map(|i| power(&s(7).mul(&power(&g, i)), N).sub(&Scalar::one())).collect()
}

fn prover_key(circuit: &Circuit) -> ProverKey {
    ProverKey {
        arithmetic: arithmetic::ProverKey {
            q_m: over_coset(&circuit.zeros),
            q_l: over_coset(&circuit.q_l),
            q_r: over_coset(&circuit.q_r),
            q_o: over_coset(&circuit.q_o),
            q_c: over_coset(&circuit.zeros),
            q_4: over_coset(&circuit.zeros),
            q_arith: over_coset(&circuit.q_arith),
        },
        range: range::ProverKey { q_range: over_coset(&circuit.zeros) },
        logic: logic::ProverKey {
            q_c: over_coset(&circuit.zeros),
            q_logic: over_coset(&circuit.zeros),
        },
        fixed_base: fixed_base::ProverKey {
            q_l: over_coset(&circuit.q_l),
            q_r: over_coset(&circuit.q_r),
            q_c: over_coset(&circuit.zeros),
            q_fixed_group_add: over_coset(&circuit.zeros),
        },
        variable_base: variable_base::ProverKey {
            q_variable_group_add: over_coset(&circuit.zeros),
        },
        permutation: permutation::ProverKey {
            left_sigma: over_coset(&circuit.left_sigma),
            right_sigma: over_coset(&circuit.right_sigma),
            out_sigma: over_coset(&circuit.out_sigma),
            fourth_sigma: over_coset(&circuit.fourth_sigma),
            linear_evaluations: over_coset(&circuit.positions),
        },
        v_h_coset_4n: vanishing_over_coset(),
    }
}

fn challenges() -> (Scalar, Scalar, Scalar, Scalar, Scalar, Scalar, Scalar) {
    (s(1000003), s(2000003), s(3000017), s(4000037), s(5000011), s(6000011), s(7000003))
}

/// The quotient of the circuit `a + b = c`, with `claimed` as the public
/// input.
fn quotient(a: u64, b: u64, c: u64, claimed: u64) -> Result<Polynomial, Error> {
    let circuit = circuit(a, b, c);
    let key = prover_key(&circuit);
    assert!(key.is_covering(4 * N));
    let ch = challenges();
    let z = running_product(&circuit, &ch.1, &ch.2);
    let z_poly = interpolate(&z[..N].to_vec());
    let domain = EvaluationDomain::new(N).unwrap();
    compute(
        &domain,
        &key,
        &z_poly,
        (
            &interpolate(&circuit.w_l),
            &interpolate(&circuit.w_r),
            &interpolate(&circuit.w_o),
            &interpolate(&circuit.w_4),
        ),
        &interpolate(&public_inputs(claimed)),
        &ch,
    )
}

#[test]
fn running_product_returns_to_one_where_the_copies_agree() {
    let ch = challenges();
    let z = running_product(&circuit(2, 3, 5), &ch.1, &ch.2);
    assert_eq!(z[0], Scalar::one());
    assert_eq!(z[N], Scalar::one());
    let broken = running_product(&circuit(2, 3, 6), &ch.1, &ch.2);
    assert_eq!(broken[N], Scalar::one());
    // A circuit whose copies differ: the output of the sum is not the
    // public input.
    let mut differing = circuit(2, 3, 5);
    differing.w_o[1] = s(6);
    let z = running_product(&differing, &ch.1, &ch.2);
    assert!(z[N] != Scalar::one());
}

#[test]
fn running_product_polynomial_is_one_at_the_first_point() {
    let ch = challenges();
    let z = running_product(&circuit(2, 3, 5), &ch.1, &ch.2);
    let z_poly = interpolate(&z[..N].to_vec());
    assert_eq!(evaluate(&z_poly.coeffs, &Scalar::one()), Scalar::one());
    // There the scaled first Lagrange polynomial is its scale, and the
    // check of the start vanishes with it.
    let domain = EvaluationDomain::new(N).unwrap();
    let alpha_sq = ch.0.square();
    let l1 = compute_first_lagrange_poly_scaled(&domain, alpha_sq);
    let l1_at_one = evaluate(&l1.coeffs, &Scalar::one());
    assert_eq!(l1_at_one, alpha_sq);
    let z_at_one = evaluate(&z_poly.coeffs, &Scalar::one());
    assert_eq!(z_at_one.sub(&Scalar::one()).mul(&l1_at_one), s(0));
    // A running product that starts elsewhere is caught.
    assert!(s(2).sub(&Scalar::one()).mul(&l1_at_one) != s(0));
}

#[test]
fn quotient_of_a_satisfied_circuit_has_the_degree_of_a_true_quotient() {
    // The sum of the checks has a degree below 4N. Divided by the vanishing
    // polynomial, of degree N, it has a degree below 3N.
    let t = quotient(2, 3, 5, 5).unwrap();
    assert!(t.len() <= 3 * N);
    assert!(t.len() > 0);
}

#[test]
fn quotient_of_a_wrong_public_input_is_no_true_quotient() {
    let t = quotient(2, 3, 5, 6).unwrap();
    assert!(t.len() > 3 * N);
}

#[test]
fn quotient_of_a_wrong_sum_is_no_true_quotient() {
    let t = quotient(2, 3, 6, 6).unwrap();
    assert!(t.len() > 3 * N);
}

#[test]
fn quotient_over_the_coset_is_the_sum_of_the_checks_over_the_vanishing_polynomial() {
    for claimed in [5u64, 6] {
        let circuit = circuit(2, 3, 5);
        let key = prover_key(&circuit);
        let ch = challenges();
        let z = running_product(&circuit, &ch.1, &ch.2);
        let domain = EvaluationDomain::new(N).unwrap();
        let domain_4n = domain.fourfold().unwrap();
        let wires = (
            over_coset(&circuit.w_l),
            over_coset(&circuit.w_r),
            over_coset(&circuit.w_o),
            over_coset(&circuit.w_4),
        );
        let z_eval = over_coset(&z[..N].to_vec());
        let pi_poly = interpolate(&public_inputs(claimed));
        let t_1 = compute_circuit_satisfiability_equation(
            &domain,
            (&ch.3, &ch.4, &ch.5, &ch.6),
            &key,
            (&wires.0, &wires.1, &wires.2, &wires.3),
            &pi_poly,
        )
        .unwrap();
        let t_2 = compute_permutation_checks(
            &domain,
            &key,
            (&wires.0, &wires.1, &wires.2, &wires.3),
            &z_eval,
            (&ch.0, &ch.1, &ch.2),
        )
        .unwrap();
        assert_eq!(t_1.len(), 4 * N);
        assert_eq!(t_2.len(), 4 * N);

        let t = quotient(2, 3, 5, claimed).unwrap();
        let t_eval = domain_4n.coset_fft(&t.coeffs);
        for i in 0..4 * N {
            let inverse = key.v_h_coset_4n[i].invert().unwrap();
            assert_eq!(t_eval[i], t_1[i].add(&t_2[i]).mul(&inverse));
            assert_eq!(t_eval[i].mul(&key.v_h_coset_4n[i]), t_1[i].add(&t_2[i]));
        }
    }
}

#[test]
fn quotient_times_vanishing_polynomial_is_the_sum_of_the_checks_off_the_coset() {
    // At a point outside the coset, both sides are computed from the
    // polynomials' values there. A single row of checks is used: the values
    // of the selectors and wires at the point.
    let circuit = circuit(2, 3, 5);
    let ch = challenges();
    let z = running_product(&circuit, &ch.1, &ch.2);
    let t = quotient(2, 3, 5, 5).unwrap();
    let domain = EvaluationDomain::new(N).unwrap();
    let g = domain.group_gen();
    let point = s(123456789);
    let next = point.mul(&g);
    let at = |values: &Vec<Scalar>, x: &Scalar| evaluate(&interpolate(values).coeffs, x);
    let z_rows = z[..N].to_vec();

    let arithmetic = arithmetic::ProverKey {
        q_m: vec![s(0)],
        q_l: vec![at(&circuit.q_l, &point)],
        q_r: vec![at(&circuit.q_r, &point)],
        q_o: vec![at(&circuit.q_o, &point)],
        q_c: vec![s(0)],
        q_4: vec![s(0)],
        q_arith: vec![at(&circuit.q_arith, &point)],
    };
    let w_l = at(&circuit.w_l, &point);
    let w_r = at(&circuit.w_r, &point);
    let w_o = at(&circuit.w_o, &point);
    let w_4 = at(&circuit.w_4, &point);
    let t_1 = arithmetic
        .compute_quotient_i(0, &w_l, &w_r, &w_o, &w_4)
        .add(&at(&public_inputs(5), &point));

    let permutation = permutation::ProverKey {
        left_sigma: vec![at(&circuit.left_sigma, &point)],
        right_sigma: vec![at(&circuit.right_sigma, &point)],
        out_sigma: vec![at(&circuit.out_sigma, &point)],
        fourth_sigma: vec![at(&circuit.fourth_sigma, &point)],
        linear_evaluations: vec![point],
    };
    let l1 = compute_first_lagrange_poly_scaled(&domain, ch.0.square());
    let t_2 = permutation.compute_quotient_i(
        0,
        &w_l,
        &w_r,
        &w_o,
        &w_4,
        &at(&z_rows, &point),
        &at(&z_rows, &next),
        &ch.0,
        &evaluate(&l1.coeffs, &point),
        &ch.1,
        &ch.2,
    );
    let vanishing = power(&point, N).sub(&Scalar::one());
    assert_eq!(evaluate(&t.coeffs, &point).mul(&vanishing), t_1.add(&t_2));
}

#[test]
fn checks_vanish_on_every_row_of_a_satisfied_circuit() {
    let circuit = circuit(2, 3, 5);
    let ch = challenges();
    let z = running_product(&circuit, &ch.1, &ch.2);
    let pi = public_inputs(5);
    let alpha_sq = ch.0.square();
    for i in 0..N {
        let arithmetic = arithmetic::ProverKey {
            q_m: vec![s(0)],
            q_l: vec![circuit.q_l[i]],
            q_r: vec![circuit.q_r[i]],
            q_o: vec![circuit.q_o[i]],
            q_c: vec![s(0)],
            q_4: vec![s(0)],
            q_arith: vec![circuit.q_arith[i]],
        };
        let t_1 = arithmetic
            .compute_quotient_i(0, &circuit.w_l[i], &circuit.w_r[i], &circuit.w_o[i], &circuit.w_4[i])
            .add(&pi[i]);
        assert_eq!(t_1, s(0));
        let permutation = permutation::ProverKey {
            left_sigma: vec![circuit.left_sigma[i]],
            right_sigma: vec![circuit.right_sigma[i]],
            out_sigma: vec![circuit.out_sigma[i]],
            fourth_sigma: vec![circuit.fourth_sigma[i]],
            linear_evaluations: vec![circuit.positions[i]],
        };
        let l1 = if i == 0 { alpha_sq } else { s(0) };
        let t_2 = permutation.compute_quotient_i(
            0,
            &circuit.w_l[i],
            &circuit.w_r[i],
            &circuit.w_o[i],
            &circuit.w_4[i],
            &z[i],
            &z[i + 1],
            &ch.0,
            &l1,
            &ch.1,
            &ch.2,
        );
        assert_eq!(t_2, s(0));
    }
}

#[test]
fn zero_of_the_vanishing_polynomial_is_an_error() {
    let circuit = circuit(2, 3, 5);
    let mut key = prover_key(&circuit);
    key.v_h_coset_4n[9] = s(0);
    let ch = challenges();
    let z = running_product(&circuit, &ch.1, &ch.2);
    let domain = EvaluationDomain::new(N).unwrap();
    let r = compute(
        &domain,
        &key,
        &interpolate(&z[..N].to_vec()),
        (
            &interpolate(&circuit.w_l),
            &interpolate(&circuit.w_r),
            &interpolate(&circuit.w_o),
            &interpolate(&circuit.w_4),
        ),
        &interpolate(&public_inputs(5)),
        &ch,
    );
    assert_eq!(r.err(), Some(Error::ZeroInversion));
}

#[test]
fn vanishing_polynomial_is_nowhere_zero_on_the_coset() {
    for v in vanishing_over_coset() {
        assert!(!v.is_zero());
    }
}

#[test]
fn quotient_at_index_divides_the_sum() {
    assert_eq!(quotient_at_index(&s(10), &s(20), &s(5)), Ok(s(6)));
    assert_eq!(quotient_at_index(&s(0), &s(0), &s(5)), Ok(s(0)));
    assert_eq!(quotient_at_index(&s(10), &s(20), &s(0)), Err(Error::ZeroInversion));
    let q = quotient_at_index(&s(1), &s(2), &s(7)).unwrap();
    assert_eq!(q.mul(&s(7)), s(3));
}

#[test]
fn next_row_is_four_places_on_and_wraps() {
    assert_eq!(next_row_index(0, 16), 4);
    assert_eq!(next_row_index(11, 16), 15);
    assert_eq!(next_row_index(12, 16), 0);
    assert_eq!(next_row_index(15, 16), 3);
    assert_eq!(next_row_index(0, 4), 0);
    assert_eq!(next_row_index(3, 4), 3);
    assert_eq!(next_row_index(0, 1), 0);
    assert_eq!(next_row_index(1, 2), 1);
    assert_eq!(next_row_index(usize::MAX - 1, usize::MAX), 3);
}

#[test]
fn first_lagrange_polynomial_is_the_scale_at_the_first_point_and_zero_elsewhere() {
    for k in 0..=4u32 {
        let n = 1usize << k;
        let domain = EvaluationDomain::new(n).unwrap();
        let g = domain.group_gen();
        let poly = compute_first_lagrange_poly_scaled(&domain, s(42));
        assert!(poly.len() <= n);
        assert_eq!(evaluate(&poly.coeffs, &Scalar::one()), s(42));
        for i in 1..n {
            assert_eq!(evaluate(&poly.coeffs, &power(&g, i)), s(0));
        }
    }
}

#[test]
fn first_lagrange_polynomial_has_all_coefficients_equal() {
    // L_1(X) = (X^n - 1) / (n (X - 1)) = (1 + X + ... + X^(n-1)) / n
    let domain = EvaluationDomain::new(8).unwrap();
    let poly = compute_first_lagrange_poly_scaled(&domain, s(40));
    assert_eq!(poly.coeffs, scalars(&[5, 5, 5, 5, 5, 5, 5, 5]));
    let zero = compute_first_lagrange_poly_scaled(&domain, s(0));
    assert_eq!(zero.len(), 0);
}

#[test]
fn checks_at_an_index_agree_with_the_checks_over_the_coset() {
    let circuit = circuit(2, 3, 5);
    let key = prover_key(&circuit);
    let ch = challenges();
    let z = running_product(&circuit, &ch.1, &ch.2);
    let domain = EvaluationDomain::new(N).unwrap();
    let domain_4n = domain.fourfold().unwrap();
    let wires = (
        over_coset(&circuit.w_l),
        over_coset(&circuit.w_r),
        over_coset(&circuit.w_o),
        over_coset(&circuit.w_4),
    );
    let z_eval = over_coset(&z[..N].to_vec());
    let pi_poly = interpolate(&public_inputs(5));
    let pi_eval = domain_4n.coset_fft(&pi_poly.coeffs);
    let l1 = compute_first_lagrange_poly_scaled(&domain, ch.0.square());
    let l1_eval = domain_4n.coset_fft(&l1.coeffs);
    let t_1 = compute_circuit_satisfiability_equation(
        &domain,
        (&ch.3, &ch.4, &ch.5, &ch.6),
        &key,
        (&wires.0, &wires.1, &wires.2, &wires.3),
        &pi_poly,
    )
    .unwrap();
    let t_2 = compute_permutation_checks(
        &domain,
        &key,
        (&wires.0, &wires.1, &wires.2, &wires.3),
        &z_eval,
        (&ch.0, &ch.1, &ch.2),
    )
    .unwrap();
    for i in 0..4 * N {
        let a = circuit_satisfiability_at_index(
            &key, i, &ch.3, &ch.4, &ch.5, &ch.6, &wires.0, &wires.1, &wires.2, &wires.3, &pi_eval,
        );
        assert_eq!(t_1[i], a);
        let b = permutation_check_at_index(
            &key, i, &ch.0, &ch.1, &ch.2, &wires.0, &wires.1, &wires.2, &wires.3, &z_eval,
            &l1_eval,
        );
        assert_eq!(t_2[i], b);
        // The arithmetic widget and the public input, by hand.
        let by_hand = key.arithmetic.q_l[i]
            .mul(&wires.0[i])
            .add(&key.arithmetic.q_r[i].mul(&wires.1[i]))
            .add(&key.arithmetic.q_o[i].mul(&wires.2[i]))
            .mul(&key.arithmetic.q_arith[i])
            .add(&pi_eval[i]);
        assert_eq!(a, by_hand);
    }
}

#[test]
fn range_selector_reads_the_fourth_wire_four_places_on() {
    // A key of four places with the range widget alone: the next row's
    // value of the fourth wire is the one four places on, which for four
    // places is the same place.
    let zeros = scalars(&[0, 0, 0, 0]);
    let key = ProverKey {
        arithmetic: arithmetic::ProverKey {
            q_m: zeros.clone(),
            q_l: zeros.clone(),
            q_r: zeros.clone(),
            q_o: zeros.clone(),
            q_c: zeros.clone(),
            q_4: zeros.clone(),
            q_arith: zeros.clone(),
        },
        range: range::ProverKey { q_range: scalars(&[1, 1, 1, 1]) },
        logic: logic::ProverKey { q_c: zeros.clone(), q_logic: zeros.clone() },
        fixed_base: fixed_base::ProverKey {
            q_l: zeros.clone(),
            q_r: zeros.clone(),
            q_c: zeros.clone(),
            q_fixed_group_add: zeros.clone(),
        },
        variable_base: variable_base::ProverKey { q_variable_group_add: zeros.clone() },
        permutation: permutation::ProverKey {
            left_sigma: zeros.clone(),
            right_sigma: zeros.clone(),
            out_sigma: zeros.clone(),
            fourth_sigma: zeros.clone(),
            linear_evaluations: zeros.clone(),
        },
        v_h_coset_4n: scalars(&[1, 1, 1, 1]),
    };
    assert!(key.is_covering(4));
    // All wires zero but the fourth at place 2, which is 1: the first check
    // sees 0 - 4 = -4, delta(-4) = 4*5*6*7 = 840, and the last sees
    // 1 - 0 = 1, a quad. With the challenge 1 the share is 840.
    let w4 = scalars(&[0, 0, 1, 0]);
    let r = circuit_satisfiability_at_index(
        &key, 2, &s(1), &s(1), &s(1), &s(1), &zeros, &zeros, &zeros, &w4, &zeros,
    );
    assert_eq!(r, s(840));
    let r = circuit_satisfiability_at_index(
        &key, 1, &s(1), &s(1), &s(1), &s(1), &zeros, &zeros, &zeros, &w4, &zeros,
    );
    assert_eq!(r, s(0));
}
