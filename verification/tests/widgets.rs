use plonk_core::field::Scalar;
use plonk_core::proof_system::widget::ecc::{edwards_d_scalar, fixed_base, variable_base};
use plonk_core::proof_system::widget::{arithmetic, logic, permutation, range};

fn s(x: u64) -> Scalar {
    Scalar::from_u64(x)
}

fn neg(x: u64) -> Scalar {
    Scalar::from_u64(x).neg()
}

fn l(limbs: [u64; 4]) -> Scalar {
    Scalar::from_limbs(limbs).unwrap()
}

const P_X: [u64; 4] =
    [0x82b77b578ee27815, 0x3612cdd911a22081, 0x772b48a99c729b16, 0x10d709458e7692fc];
const Q_X: [u64; 4] =
    [0xe4b3d35df1a7adfe, 0xcaf55d1b29bf81af, 0x8b0f03ddd60a8187, 0x62edcbb8bf3787c8];
const SUM_X: [u64; 4] =
    [0x30f35ec054afa6c3, 0xc50d53969f3dc65f, 0x8f5baa5a1eb2e2dd, 0x58fa13bbc40f1aaa];
const SUM_Y: [u64; 4] =
    [0x41ec8341f76382a3, 0x10d512007d66e2fa, 0x418ef4e16ff8db4c, 0x24b6549063f027d6];
const DIFF_X: [u64; 4] =
    [0x59dd0907d7aa2c98, 0x4238763eceb3c4bb, 0x8b85dc70d792fa2e, 0x1b3101971dba2d06];
const DIFF_Y: [u64; 4] =
    [0x6f896fd3f8e62935, 0xf0a67eff3bad9846, 0x703d921f4ec5bbbb, 0x5d8ec017f94575dc];

fn arithmetic_key(q: [Scalar; 7]) -> arithmetic::ProverKey {
    arithmetic::ProverKey {
        q_m: vec![s(0), q[0]],
        q_l: vec![s(0), q[1]],
        q_r: vec![s(0), q[2]],
        q_o: vec![s(0), q[3]],
        q_4: vec![s(0), q[4]],
        q_c: vec![s(0), q[5]],
        q_arith: vec![s(0), q[6]],
    }
}

#[test]
fn arithmetic_term_is_the_weighted_sum() {
    let key = arithmetic_key([s(2), s(3), s(5), s(7), s(11), s(13), s(17)]);
    // (19*23*2 + 19*3 + 23*5 + 29*7 + 31*11 + 13) * 17
    assert_eq!(key.compute_quotient_i(1, &s(19), &s(23), &s(29), &s(31)), s(27251));
    assert_eq!(key.compute_quotient_i(0, &s(19), &s(23), &s(29), &s(31)), s(0));
}

#[test]
fn arithmetic_term_wraps_in_the_field() {
    let key = arithmetic_key([neg(1), neg(2), s(5), s(7), s(11), s(13), neg(3)]);
    assert_eq!(
        key.compute_quotient_i(1, &s(19), &neg(23), &s(29), &s(31)),
        l([0xfffffffefffff626, 0x53bda402fffe5bfe, 0x3339d80809a1d805, 0x73eda753299d7d48])
    );
}

#[test]
fn arithmetic_term_vanishes_on_a_sum_row() {
    // a + b - c = 0
    let key = arithmetic_key([s(0), s(1), s(1), neg(1), s(0), s(0), s(1)]);
    assert_eq!(key.compute_quotient_i(1, &s(2), &s(3), &s(5), &s(0)), s(0));
    assert_eq!(key.compute_quotient_i(1, &s(2), &s(3), &s(6), &s(0)), neg(1));
}

#[test]
fn arithmetic_key_covering() {
    let key = arithmetic_key([s(0), s(1), s(1), neg(1), s(0), s(0), s(1)]);
    assert!(key.is_covering(2));
    assert!(!key.is_covering(1));
    assert!(!key.is_covering(3));
    let mut short = arithmetic_key([s(0), s(1), s(1), neg(1), s(0), s(0), s(1)]);
    short.q_4.pop();
    assert!(!short.is_covering(2));
}

#[test]
fn range_term_vanishes_on_quads() {
    let key = range::ProverKey { q_range: vec![s(3)] };
    // 1, 4*1+2 = 6, 4*6+1 = 25, 4*25+3 = 103, 4*103+0 = 412
    let r = key.compute_quotient_i(0, &s(98765), &s(103), &s(25), &s(6), &s(1), &s(412));
    assert_eq!(r, s(0));
    let zero = key.compute_quotient_i(0, &s(2), &s(0), &s(0), &s(0), &s(0), &s(0));
    assert_eq!(zero, s(0));
}

#[test]
fn range_term_of_a_broken_row() {
    let key = range::ProverKey { q_range: vec![s(3)] };
    // w_o - 4 w_4 = 6: delta(6) = 6*5*4*3 = 360; w_r - 4 w_o = -15:
    // delta(-15) = 15*16*17*18 = 73440, times kappa = 4. The other two are
    // quads. (360 + 73440 * 4) * 3 * 2.
    let r = key.compute_quotient_i(0, &s(2), &s(103), &s(25), &s(10), &s(1), &s(412));
    assert_eq!(r, s(1764720));
    let big = key.compute_quotient_i(0, &s(5), &s(1000), &s(25), &s(10), &s(1), &s(412));
    assert_eq!(big, l([0x1c0d46dc579dfe18, 0x0000000000000002, 0, 0]));
}

#[test]
fn range_term_is_switched_by_the_selector() {
    let key = range::ProverKey { q_range: vec![s(0), s(1)] };
    let off = key.compute_quotient_i(0, &s(2), &s(103), &s(25), &s(10), &s(1), &s(412));
    assert_eq!(off, s(0));
    let on = key.compute_quotient_i(1, &s(2), &s(103), &s(25), &s(10), &s(1), &s(412));
    assert_eq!(on, s(588240));
}

#[test]
fn logic_term_vanishes_on_every_and_step() {
    let key = logic::ProverKey { q_c: vec![s(1)], q_logic: vec![s(1)] };
    for a in 0..4u64 {
        for b in 0..4u64 {
            let d = a & b;
            // accumulators 5, 6, 7 grow to 4*5+a, 4*6+b, 4*7+d
            let r = key.compute_quotient_i(
                0,
                &s(31337),
                &s(5),
                &s(20 + a),
                &s(6),
                &s(24 + b),
                &s(a * b),
                &s(7),
                &s(28 + d),
            );
            assert_eq!(r, s(0));
        }
    }
}

#[test]
fn logic_term_vanishes_on_every_xor_step() {
    let key = logic::ProverKey { q_c: vec![neg(1)], q_logic: vec![s(1)] };
    for a in 0..4u64 {
        for b in 0..4u64 {
            let d = a ^ b;
            let r = key.compute_quotient_i(
                0,
                &s(31337),
                &s(5),
                &s(20 + a),
                &s(6),
                &s(24 + b),
                &s(a * b),
                &s(7),
                &s(28 + d),
            );
            assert_eq!(r, s(0));
        }
    }
}

#[test]
fn logic_term_tells_and_from_xor() {
    let and = logic::ProverKey { q_c: vec![s(1)], q_logic: vec![s(1)] };
    let xor = logic::ProverKey { q_c: vec![neg(1)], q_logic: vec![s(1)] };
    // a = 1, b = 3: AND gives 1, XOR gives 2
    let with_and_result = |key: &logic::ProverKey| {
        key.compute_quotient_i(0, &s(3), &s(0), &s(1), &s(0), &s(3), &s(3), &s(0), &s(1))
    };
    assert_eq!(with_and_result(&and), s(0));
    assert!(with_and_result(&xor) != s(0));
}

#[test]
fn logic_term_of_a_broken_row() {
    let key = logic::ProverKey { q_c: vec![s(1)], q_logic: vec![s(2)] };
    let r = key.compute_quotient_i(0, &s(3), &s(5), &s(21), &s(6), &s(27), &s(2), &s(1), &s(5));
    assert_eq!(r, s(0x4803ba));
    let xor = logic::ProverKey { q_c: vec![neg(1)], q_logic: vec![s(2)] };
    let r = xor.compute_quotient_i(0, &s(3), &s(5), &s(21), &s(6), &s(27), &s(2), &s(1), &s(5));
    assert_eq!(r, s(0x4b9e5e));
    let key = logic::ProverKey { q_c: vec![s(1)], q_logic: vec![s(7)] };
    let r = key.compute_quotient_i(0, &s(11), &s(5), &s(23), &s(6), &s(24), &s(9), &s(2), &s(8));
    assert_eq!(
        r,
        l([0xffff663f1a2616a4, 0x53bda402fffe5bfe, 0x3339d80809a1d805, 0x73eda753299d7d48])
    );
}

#[test]
fn edwards_d_is_minus_10240_over_10241() {
    let d = edwards_d_scalar();
    assert_eq!(d.mul(&s(10241)).add(&s(10240)), s(0));
    assert_eq!(
        d.to_limbs(),
        [0x01065fd6d6343eb1, 0x292d7f6d37579d26, 0xf5fd9207e6bd7fd4, 0x2a9318e74bfa2b48]
    );
}

fn fixed_base_key() -> fixed_base::ProverKey {
    let q_x = l(Q_X);
    let q_y = s(11);
    fixed_base::ProverKey {
        q_l: vec![q_x],
        q_r: vec![q_y],
        q_c: vec![q_x.mul(&q_y)],
        q_fixed_group_add: vec![s(1)],
    }
}

#[test]
fn fixed_base_term_vanishes_when_the_point_is_added() {
    let key = fixed_base_key();
    let xy = l(Q_X).mul(&s(11));
    // bit = 7 - 2 * 3 = 1
    let r = key.compute_quotient_i(
        0,
        &s(999),
        &l(P_X),
        &l(SUM_X),
        &s(5),
        &l(SUM_Y),
        &xy,
        &s(3),
        &s(7),
    );
    assert_eq!(r, s(0));
}

#[test]
fn fixed_base_term_vanishes_when_the_point_is_subtracted() {
    let key = fixed_base_key();
    let xy = l(Q_X).mul(&s(11)).neg();
    // bit = 5 - 2 * 3 = -1
    let r = key.compute_quotient_i(
        0,
        &s(999),
        &l(P_X),
        &l(DIFF_X),
        &s(5),
        &l(DIFF_Y),
        &xy,
        &s(3),
        &s(5),
    );
    assert_eq!(r, s(0));
}

#[test]
fn fixed_base_term_vanishes_when_nothing_is_added() {
    let key = fixed_base_key();
    // bit = 6 - 2 * 3 = 0
    let r =
        key.compute_quotient_i(0, &s(999), &l(P_X), &l(P_X), &s(5), &s(5), &s(0), &s(3), &s(6));
    assert_eq!(r, s(0));
}

#[test]
fn fixed_base_term_refuses_a_bit_of_two() {
    let key = fixed_base_key();
    let xy = l(Q_X).mul(&s(11));
    let r = key.compute_quotient_i(
        0,
        &s(999),
        &l(P_X),
        &l(SUM_X),
        &s(5),
        &l(SUM_Y),
        &xy,
        &s(3),
        &s(8),
    );
    assert!(r != s(0));
}

#[test]
fn fixed_base_term_of_small_numbers() {
    let key = fixed_base::ProverKey {
        q_l: vec![s(3)],
        q_r: vec![s(5)],
        q_c: vec![s(7)],
        q_fixed_group_add: vec![s(11)],
    };
    let r =
        key.compute_quotient_i(0, &s(2), &s(13), &s(17), &s(19), &s(23), &s(29), &s(31), &s(37));
    assert_eq!(
        r,
        l([0x72f05396dce59411, 0x913693073eb08719, 0x180cd568adabb0d4, 0x4e12fdbfd81bb26a])
    );
}

#[test]
fn variable_base_term_vanishes_on_a_sum_of_points() {
    let key = variable_base::ProverKey { q_variable_group_add: vec![s(1)] };
    let x1_y2 = l(P_X).mul(&s(11));
    let r = key.compute_quotient_i(
        0,
        &s(12345),
        &l(P_X),
        &l(SUM_X),
        &s(5),
        &l(SUM_Y),
        &l(Q_X),
        &s(11),
        &x1_y2,
    );
    assert_eq!(r, s(0));
    let wrong = key.compute_quotient_i(
        0,
        &s(12345),
        &l(P_X),
        &l(DIFF_X),
        &s(5),
        &l(DIFF_Y),
        &l(Q_X),
        &s(11),
        &x1_y2,
    );
    assert!(wrong != s(0));
}

#[test]
fn variable_base_term_of_small_numbers() {
    let key = variable_base::ProverKey { q_variable_group_add: vec![s(3)] };
    let r = key.compute_quotient_i(0, &s(2), &s(5), &s(7), &s(11), &s(13), &s(17), &s(19), &s(23));
    assert_eq!(
        r,
        l([0xa61572a9973c3bc2, 0xa310a7a90885a062, 0x04d930378a4d474f, 0x2798f162861a4bca])
    );
}

fn permutation_key(x: u64, sigmas: [u64; 4]) -> permutation::ProverKey {
    permutation::ProverKey {
        left_sigma: vec![s(sigmas[0])],
        right_sigma: vec![s(sigmas[1])],
        out_sigma: vec![s(sigmas[2])],
        fourth_sigma: vec![s(sigmas[3])],
        linear_evaluations: vec![s(x)],
    }
}

#[test]
fn permutation_term_of_small_numbers() {
    let key = permutation_key(2, [3, 5, 7, 11]);
    let r = key.compute_quotient_i(
        0,
        &s(13),
        &s(17),
        &s(19),
        &s(23),
        &s(29),
        &s(31),
        &s(37),
        &s(41),
        &s(43),
        &s(47),
    );
    assert_eq!(r, s(0x0000a12907fb61f3));
}

#[test]
fn permutation_term_vanishes_under_the_identity_permutation() {
    // Each wire stays where it is: sigma is x, 7x, 13x, 17x, and the running
    // product stays at one.
    let x = 1234;
    let key = permutation_key(x, [x, 7 * x, 13 * x, 17 * x]);
    let r = key.compute_quotient_i(
        0,
        &s(13),
        &s(17),
        &s(19),
        &s(23),
        &s(1),
        &s(1),
        &s(37),
        &s(41),
        &s(43),
        &s(47),
    );
    assert_eq!(r, s(0));
}

#[test]
fn permutation_term_checks_the_start_of_the_running_product() {
    let x = 1234;
    let key = permutation_key(x, [x, 7 * x, 13 * x, 17 * x]);
    // z = z_next = 5 keeps the products equal, and leaves (5 - 1) * 41
    let r = key.compute_quotient_i(
        0,
        &s(13),
        &s(17),
        &s(19),
        &s(23),
        &s(5),
        &s(5),
        &s(37),
        &s(41),
        &s(43),
        &s(47),
    );
    assert_eq!(r, s(164));
}

#[test]
fn permutation_constants() {
    assert_eq!(permutation::K1, 7);
    assert_eq!(permutation::K2, 13);
    assert_eq!(permutation::K3, 17);
}
