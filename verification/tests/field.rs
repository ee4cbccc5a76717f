use plonk_core::field::Scalar;

const MODULUS: [u64; 4] = [
    0xffffffff00000001,
    0x53bda402fffe5bfe,
    0x3339d80809a1d805,
    0x73eda753299d7d48,
];

fn minus_one() -> Scalar {
    Scalar::from_limbs([MODULUS[0] - 1, MODULUS[1], MODULUS[2], MODULUS[3]]).unwrap()
}

#[test]
fn small_sums_and_products_are_exact() {
    let two = Scalar::from_u64(2);
    let three = Scalar::from_u64(3);
    assert_eq!(two.add(&three), Scalar::from_u64(5));
    assert_eq!(two.mul(&three), Scalar::from_u64(6));
    assert_eq!(three.sub(&two), Scalar::from_u64(1));
    assert_eq!(three.square(), Scalar::from_u64(9));
}

#[test]
fn sums_wrap_at_the_modulus() {
    let one = Scalar::one();
    assert_eq!(minus_one().add(&one), Scalar::zero());
    assert_eq!(minus_one().add(&Scalar::from_u64(5)), Scalar::from_u64(4));
}

#[test]
fn differences_wrap_below_zero() {
    let two = Scalar::from_u64(2);
    let three = Scalar::from_u64(3);
    assert_eq!(two.sub(&three), minus_one());
    assert_eq!(Scalar::zero().sub(&Scalar::one()), minus_one());
}

#[test]
fn negation_gives_the_additive_inverse() {
    assert_eq!(Scalar::one().neg(), minus_one());
    assert_eq!(Scalar::zero().neg(), Scalar::zero());
    let x = Scalar::from_u64(123456789);
    assert_eq!(x.add(&x.neg()), Scalar::zero());
}

#[test]
fn minus_one_squared_is_one() {
    assert_eq!(minus_one().square(), Scalar::one());
    assert_eq!(minus_one().mul(&minus_one()), Scalar::one());
}

#[test]
fn products_reduce_modulo_the_order() {
    // 2^64 * 2^64 * 2^64 * 2^64 = 2^256, which is 2^256 - 4 * modulus after
    // reduction.
    let big = Scalar::from_limbs([0, 1, 0, 0]).unwrap();
    let p = big.mul(&big).mul(&big).mul(&big);
    assert_eq!(
        p.to_limbs(),
        [
            0x00000001fffffffe,
            0x5884b7fa00034802,
            0x998c4fefecbc4ff5,
            0x1824b159acc5056f,
        ]
    );
}

#[test]
fn zero_has_no_inverse() {
    assert_eq!(Scalar::zero().invert(), None);
}

#[test]
fn inverse_times_element_is_one() {
    for x in [1u64, 2, 3, 7, 10241, u64::MAX] {
        let s = Scalar::from_u64(x);
        let inverse = s.invert().unwrap();
        assert_eq!(s.mul(&inverse), Scalar::one());
    }
    assert_eq!(Scalar::one().invert(), Some(Scalar::one()));
    assert_eq!(minus_one().invert(), Some(minus_one()));
}

#[test]
fn inverse_of_two_is_half_of_modulus_plus_one() {
    let half = Scalar::from_limbs([
        0x7fffffff80000001,
        0xa9ded2017fff2dff,
        0x199cec0404d0ec02,
        0x39f6d3a994cebea4,
    ])
    .unwrap();
    assert_eq!(Scalar::from_u64(2).invert(), Some(half));
}

#[test]
fn limbs_at_or_above_the_modulus_are_refused() {
    assert_eq!(Scalar::from_limbs(MODULUS), None);
    assert_eq!(Scalar::from_limbs([u64::MAX; 4]), None);
    assert_eq!(
        Scalar::from_limbs([MODULUS[0], MODULUS[1], MODULUS[2], MODULUS[3] + 1]),
        None
    );
    assert_eq!(
        Scalar::from_limbs([MODULUS[0] + 1, MODULUS[1], MODULUS[2], MODULUS[3]]),
        None
    );
}

#[test]
fn limbs_below_the_modulus_round_trip() {
    let limbs = [MODULUS[0] - 1, MODULUS[1], MODULUS[2], MODULUS[3]];
    assert_eq!(Scalar::from_limbs(limbs).unwrap().to_limbs(), limbs);
    assert_eq!(Scalar::from_u64(77).to_limbs(), [77, 0, 0, 0]);
    assert_eq!(Scalar::zero().to_limbs(), [0, 0, 0, 0]);
    assert_eq!(Scalar::one().to_limbs(), [1, 0, 0, 0]);
}

#[test]
fn is_zero_tells_zero_from_the_rest() {
    assert!(Scalar::zero().is_zero());
    assert!(!Scalar::one().is_zero());
    assert!(!minus_one().is_zero());
    assert!(!Scalar::from_limbs([0, 0, 0, 1]).unwrap().is_zero());
}
