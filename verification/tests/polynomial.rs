use plonk_core::field::Scalar;
use plonk_core::polynomial::Polynomial;

fn scalars(xs: &[u64]) -> Vec<Scalar> {
    xs.iter().map(|x| Scalar::from_u64(*x)).collect()
}

#[test]
fn trailing_zeros_are_dropped() {
    let p = Polynomial::from_coefficients_vec(scalars(&[1, 0, 2, 0, 0]));
    assert_eq!(p.coeffs, scalars(&[1, 0, 2]));
    assert_eq!(p.len(), 3);
}

#[test]
fn leading_and_inner_zeros_stay() {
    let p = Polynomial::from_coefficients_vec(scalars(&[0, 0, 7]));
    assert_eq!(p.coeffs, scalars(&[0, 0, 7]));
}

#[test]
fn the_zero_polynomial_has_no_coefficients() {
    assert_eq!(Polynomial::from_coefficients_vec(scalars(&[0, 0, 0])).len(), 0);
    assert_eq!(Polynomial::from_coefficients_vec(scalars(&[])).len(), 0);
}

#[test]
fn coefficients_without_trailing_zeros_are_kept() {
    let p = Polynomial::from_coefficients_vec(scalars(&[4, 5, 6]));
    assert_eq!(p.coeffs, scalars(&[4, 5, 6]));
}
