//! Why a polynomial of a degree below a domain's size is known by its values
//! over the domain: the inverse transform undoes the forward transform.
//!
//! The proof is the classic one. The generator of a domain of `n` points is
//! a root of unity of order `n`, so the sum of the `n` powers of any of its
//! powers but one is zero. Summing a polynomial's values against the powers
//! of the generator's inverse therefore leaves one coefficient, `n` times.

use crate::algebra::{
    fsum, is_canonical, lemma_fadd_assoc, lemma_fadd_reduce, lemma_fmul_assoc,
    lemma_fmul_distributes, lemma_fmul_reduce, lemma_fpow_adds,
    lemma_fpow_of_one, lemma_fpow_of_power, lemma_fpow_of_product, lemma_fsum_canonical,
    lemma_fsum_congruent, lemma_fsum_exchanges, lemma_fsum_of_one_term, lemma_fsum_scales,
    lemma_reduce_canonical, lemma_units,
};
use crate::domain::{
    coset_element, coset_shift, domain_element, evaluations_over_coset, evaluations_over_domain,
    is_domain_size, is_primitive_root, poly_eval, root_of_unity, TWO_ADICITY,
};
use crate::field::{
    fadd, fmul, fpow, lemma_modulus_positive, lemma_modulus_value, modulus, reduce,
};
use crate::roots::lemma_root_of_unity_is_primitive;
use vstd::arithmetic::power2::{lemma_pow2_pos, lemma_pow2_unfold, pow2};
use vstd::prelude::*;

verus! {

/// The sum of the first `n` powers of `x`.
pub open spec fn geometric_sum(x: int, n: nat) -> int {
    fsum(|i: int| fpow(x, i as nat), n)
}

/// The sum of `h + t` powers is the sum of the first `h`, and the `h`-th
/// power times the sum of the first `t`.
proof fn lemma_geometric_sum_splits(x: int, h: nat, t: nat)
    ensures
        geometric_sum(x, h + t) == fadd(
            geometric_sum(x, h),
            fmul(fpow(x, h), geometric_sum(x, t)),
        ),
    decreases t,
{
    let powers = |i: int| fpow(x, i as nat);
    lemma_fsum_canonical(powers, h);
    if t == 0 {
        lemma_units(fpow(x, h));
        lemma_units(geometric_sum(x, h));
        lemma_reduce_canonical(geometric_sum(x, h));
    } else {
        let s = (t - 1) as nat;
        lemma_geometric_sum_splits(x, h, s);
        assert(geometric_sum(x, h + t) == fadd(geometric_sum(x, h + s), fpow(x, h + s)));
        assert(geometric_sum(x, t) == fadd(geometric_sum(x, s), fpow(x, s)));
        lemma_fpow_adds(x, h, s);
        lemma_fmul_distributes(geometric_sum(x, s), fpow(x, s), fpow(x, h));
        lemma_fadd_assoc(
            geometric_sum(x, h),
            fmul(fpow(x, h), geometric_sum(x, s)),
            fmul(fpow(x, h), fpow(x, s)),
        );
    }
}

/// The sum of the first `n` powers of one is `n`.
proof fn lemma_geometric_sum_of_one(n: nat)
    ensures
        geometric_sum(1, n) == reduce(n as int),
    decreases n,
{
    if n == 0 {
        lemma_units(0);
    } else {
        lemma_geometric_sum_of_one((n - 1) as nat);
        lemma_fpow_of_one((n - 1) as nat);
        lemma_fadd_reduce(n - 1, 1);
    }
}

/// An odd power of minus one is minus one.
proof fn lemma_odd_power_of_minus_one(m: nat)
    requires
        m % 2 == 1,
    ensures
        fpow(modulus() - 1, m) == modulus() - 1,
    decreases m,
{
    let minus_one = modulus() - 1;
    lemma_modulus_positive();
    lemma_reduce_canonical(minus_one);
    assert(fpow(minus_one, 1) == fmul(minus_one, fpow(minus_one, 0)));
    lemma_units(minus_one);
    if m > 1 {
        lemma_odd_power_of_minus_one((m - 2) as nat);
        lemma_fpow_adds(minus_one, 2, (m - 2) as nat);
        lemma_fpow_adds(minus_one, 1, 1);
        // (p - 1)^2 = p (p - 2) + 1
        assert(minus_one * minus_one == modulus() * (modulus() - 2) + 1) by (nonlinear_arith)
            requires
                minus_one == modulus() - 1,
        ;
        vstd::arithmetic::div_mod::lemma_mod_multiples_vanish(modulus() - 2, 1, modulus());
        assert(modulus() * (modulus() - 2) == (modulus() - 2) * modulus()) by (nonlinear_arith);
        lemma_units(0);
        assert(fpow(minus_one, 2) == 1);
        lemma_units(minus_one);
    }
}

/// The sum of all powers of a power of a root of unity is zero, unless that
/// power is one: for `y` of order `2^k`, the first `2^k` powers of `y^m` sum
/// to zero where `2^k` does not divide `m`.
proof fn lemma_root_sum_vanishes(y: int, k: nat, m: nat)
    requires
        k >= 1 ==> fpow(y, pow2((k - 1) as nat)) == modulus() - 1,
        m % pow2(k) != 0,
    ensures
        geometric_sum(fpow(y, m), pow2(k)) == 0,
    decreases k,
{
    lemma_pow2_pos(k);
    if k == 0 {
        vstd::arithmetic::power2::lemma2_to64();
        assert(m % 1 == 0);
    } else {
        let h = pow2((k - 1) as nat);
        lemma_pow2_pos((k - 1) as nat);
        lemma_pow2_unfold(k);
        assert(pow2(k) == h + h);
        let x = fpow(y, m);
        lemma_geometric_sum_splits(x, h, h);
        // geometric_sum(x, 2h) = geometric_sum(x, h) * (1 + x^h)
        let half_sum = geometric_sum(x, h);
        lemma_fsum_canonical(|i: int| fpow(x, i as nat), h);
        lemma_units(half_sum);
        lemma_reduce_canonical(half_sum);
        assert(fmul(1, half_sum) == half_sum);
        lemma_fmul_distributes(1, fpow(x, h), half_sum);
        assert(geometric_sum(x, pow2(k)) == fmul(fadd(1, fpow(x, h)), half_sum));
        // x^h = (y^h)^m = (-1)^m
        lemma_fpow_of_power(y, m, h);
        lemma_fpow_of_power(y, h, m);
        assert(m * h == h * m) by (nonlinear_arith);
        assert(fpow(x, h) == fpow(modulus() - 1, m));
        if m % 2 == 1 {
            lemma_odd_power_of_minus_one(m);
            lemma_modulus_positive();
            assert(fadd(1, modulus() - 1) == 0) by {
                vstd::arithmetic::div_mod::lemma_mod_self_0(modulus());
            }
            lemma_units(half_sum);
        } else {
            let half_m = m / 2;
            assert(m == 2 * half_m);
            // y^m = (y^2)^(m/2), and y^2 has order 2^(k-1)
            lemma_fpow_of_power(y, 2, half_m);
            let y2 = fpow(y, 2);
            assert(x == fpow(y2, half_m));
            if k >= 2 {
                let q = pow2((k - 2) as nat);
                lemma_pow2_unfold((k - 1) as nat);
                assert(h == 2 * q);
                lemma_fpow_of_power(y, 2, q);
                assert(fpow(y2, q) == modulus() - 1);
            }
            assert(half_m % h != 0) by {
                if half_m % h == 0 {
                    lemma_doubling_keeps_divisibility(half_m as int, h as int);
                }
            }
            lemma_root_sum_vanishes(y2, (k - 1) as nat, half_m);
            assert(half_sum == 0);
            lemma_units(fadd(1, fpow(x, h)));
        }
    }
}

/// Where `h` divides `a`, `2h` divides `2a`.
proof fn lemma_doubling_keeps_divisibility(a: int, h: int)
    requires
        h > 0,
        a >= 0,
        a % h == 0,
    ensures
        (2 * a) % (2 * h) == 0,
{
    let q = a / h;
    vstd::arithmetic::div_mod::lemma_fundamental_div_mod(a, h);
    assert(a == h * q);
    assert(2 * a == q * (2 * h)) by (nonlinear_arith)
        requires
            a == h * q,
    ;
    vstd::arithmetic::div_mod::lemma_mod_multiples_basic(q, 2 * h);
}

/// The number that is one half in the field.
pub open spec fn one_half() -> int {
    (modulus() + 1) / 2
}

/// A power of two has an inverse in the field: the same power of one half.
proof fn lemma_power_of_two_is_invertible(k: nat)
    ensures
        fmul(pow2(k) as int, fpow(one_half(), k)) == 1,
    decreases k,
{
    lemma_modulus_value();
    lemma_modulus_positive();
    if k == 0 {
        vstd::arithmetic::power2::lemma2_to64();
        lemma_units(1);
    } else {
        let p = pow2((k - 1) as nat) as int;
        let h = fpow(one_half(), (k - 1) as nat);
        lemma_power_of_two_is_invertible((k - 1) as nat);
        lemma_pow2_unfold(k);
        assert(2 * one_half() == modulus() + 1);
        assert(fmul(2, one_half()) == 1) by {
            vstd::arithmetic::div_mod::lemma_mod_add_multiples_vanish(1, modulus());
            lemma_units(1);
        }
        // (2 p) (half h) = (2 half) (p h)
        lemma_fmul_reduce(2 * p, one_half() * h);
        lemma_fmul_reduce(2 * one_half(), p * h);
        assert((2 * p) * (one_half() * h) == (2 * one_half()) * (p * h)) by (nonlinear_arith);
        lemma_units(1);
        assert(fmul(1, 1) == 1);
    }
}

/// A factor that has an inverse can be cancelled.
proof fn lemma_cancel(a: int, b: int, n: int, inverse: int)
    requires
        is_canonical(a),
        is_canonical(b),
        fmul(n, inverse) == 1,
        fmul(a, n) == fmul(b, n),
    ensures
        a == b,
{
    lemma_fmul_assoc(a, n, inverse);
    lemma_fmul_assoc(b, n, inverse);
    lemma_units(a);
    lemma_units(b);
    lemma_reduce_canonical(a);
    lemma_reduce_canonical(b);
}

/// A polynomial's value is the sum of its terms.
proof fn lemma_poly_eval_is_sum(coeffs: Seq<int>, x: int)
    ensures
        poly_eval(coeffs, x) == fsum(|k: int| fmul(coeffs[k], fpow(x, k as nat)), coeffs.len()),
    decreases coeffs.len(),
{
    if coeffs.len() > 0 {
        let shorter = coeffs.drop_last();
        lemma_poly_eval_is_sum(shorter, x);
        let terms = |k: int| fmul(coeffs[k], fpow(x, k as nat));
        let shorter_terms = |k: int| fmul(shorter[k], fpow(x, k as nat));
        assert forall|k: int| 0 <= k < shorter.len() implies reduce(#[trigger] shorter_terms(k))
            == reduce(terms(k)) by {
            assert(shorter[k] == coeffs[k]);
        }
        lemma_fsum_congruent(shorter_terms, terms, shorter.len());
    }
}

/// The root of unity to the power of the domain's size is one.
pub proof fn lemma_root_to_the_size(omega: int, k: nat)
    requires
        is_primitive_root(omega, pow2(k)),
    ensures
        fpow(omega, pow2(k)) == 1,
        is_canonical(omega),
{
    lemma_modulus_positive();
    lemma_pow2_pos(k);
    if k == 0 {
        vstd::arithmetic::power2::lemma2_to64();
        lemma_fpow_of_one(1);
    } else {
        let h = pow2((k - 1) as nat);
        lemma_pow2_unfold(k);
        lemma_pow2_pos((k - 1) as nat);
        assert(pow2(k) / 2 == h);
        lemma_fpow_adds(omega, h, h);
        lemma_odd_power_of_minus_one(1);
        lemma_fpow_adds(modulus() - 1, 1, 1);
        lemma_fpow_of_power(omega, h, 2);
        lemma_fpow_of_power(modulus() - 1, 1, 2);
        assert(h * 2 == h + h);
        // (-1)^2 = 1
        assert(fpow(modulus() - 1, 2) == fmul(modulus() - 1, modulus() - 1));
        assert((modulus() - 1) * (modulus() - 1) == modulus() * (modulus() - 2) + 1)
            by (nonlinear_arith);
        assert(modulus() * (modulus() - 2) == (modulus() - 2) * modulus()) by (nonlinear_arith);
        vstd::arithmetic::div_mod::lemma_mod_multiples_vanish(modulus() - 2, 1, modulus());
        lemma_units(0);
    }
}

/// The sum that picks the coefficient `j` out of a polynomial's values over
/// the domain of `size` points: each value times the generator's power that
/// undoes the point's own.
pub open spec fn coefficient_sum(values: Seq<int>, omega: int, j: nat, size: nat) -> int {
    fsum(|i: int| fmul(values[i], fpow(omega, ((size - j) * i) as nat)), size)
}

/// Summed against the powers of the generator's inverse, the values of a
/// polynomial over the domain leave one coefficient, times the domain's
/// size.
proof fn lemma_coefficient_sum(coeffs: Seq<int>, omega: int, j: nat, k: nat)
    requires
        is_primitive_root(omega, pow2(k)),
        coeffs.len() == pow2(k),
        j < pow2(k),
    ensures
        coefficient_sum(
            Seq::new(pow2(k), |i: int| poly_eval(coeffs, fpow(omega, i as nat))),
            omega,
            j,
            pow2(k),
        ) == fmul(coeffs[j as int], pow2(k) as int),
{
    let n = pow2(k);
    lemma_pow2_pos(k);
    lemma_root_to_the_size(omega, k);
    let values = Seq::new(n, |i: int| poly_eval(coeffs, fpow(omega, i as nat)));
    let picked = |i: int| fmul(values[i], fpow(omega, ((n - j) * i) as nat));
    // The term of row i and column c: the c-th term of the polynomial at
    // the i-th point, times the power that undoes the point's.
    let h = |i: int, c: int| fmul(coeffs[c], fpow(fpow(omega, (c + n - j) as nat), i as nat));
    let rows = |i: int| fsum(|c: int| h(i, c), n);
    let columns = |c: int| fsum(|i: int| h(i, c), n);
    let weighted = |c: int| fmul(geometric_sum(fpow(omega, (c + n - j) as nat), n), coeffs[c]);

    assert forall|i: int| 0 <= i < n implies reduce(#[trigger] picked(i)) == reduce(rows(i)) by {
        let point = fpow(omega, i as nat);
        let back = fpow(omega, ((n - j) * i) as nat);
        let terms = |c: int| fmul(coeffs[c], fpow(point, c as nat));
        lemma_poly_eval_is_sum(coeffs, point);
        assert(values[i] == fsum(terms, n));
        assert forall|c: int| 0 <= c < n implies reduce(#[trigger] h(i, c)) == fmul(
            terms(c),
            back,
        ) by {
            // omega^(i c) omega^((n - j) i) = omega^((c + n - j) i)
            lemma_fpow_of_power(omega, i as nat, c as nat);
            lemma_fpow_of_power(omega, (c + n - j) as nat, i as nat);
            assert(i * c >= 0 && (n - j) * i >= 0 && (c + n - j) * i >= 0) by (nonlinear_arith)
                requires
                    i >= 0,
                    c >= 0,
                    n - j >= 0,
            ;
            assert(i * c + (n - j) * i == (c + n - j) * i) by (nonlinear_arith);
            lemma_fpow_adds(omega, (i * c) as nat, ((n - j) * i) as nat);
            lemma_fmul_assoc(coeffs[c], fpow(point, c as nat), back);
            lemma_fmul_reduce(coeffs[c], fpow(fpow(omega, (c + n - j) as nat), i as nat));
            lemma_reduce_canonical(h(i, c));
        }
        lemma_fsum_scales(terms, |c: int| h(i, c), back, n);
        lemma_fsum_canonical(|c: int| h(i, c), n);
        lemma_reduce_canonical(rows(i));
        lemma_fmul_reduce(values[i], back);
        lemma_reduce_canonical(picked(i));
    }
    lemma_fsum_congruent(picked, rows, n);
    lemma_fsum_exchanges(h, rows, columns, n, n);

    assert forall|c: int| 0 <= c < n implies reduce(#[trigger] columns(c)) == reduce(
        weighted(c),
    ) by {
        let x = fpow(omega, (c + n - j) as nat);
        let powers = |i: int| fpow(x, i as nat);
        assert forall|i: int| 0 <= i < n implies reduce(#[trigger] h(i, c)) == fmul(
            powers(i),
            coeffs[c],
        ) by {
            lemma_fmul_reduce(coeffs[c], fpow(x, i as nat));
            lemma_reduce_canonical(h(i, c));
        }
        lemma_fsum_scales(powers, |i: int| h(i, c), coeffs[c], n);
    }
    lemma_fsum_congruent(columns, weighted, n);

    assert forall|c: int| 0 <= c < n && c != j implies reduce(#[trigger] weighted(c)) == 0 by {
        let m = (c + n - j) as nat;
        assert(m % n != 0) by {
            if c > j {
                vstd::arithmetic::div_mod::lemma_mod_add_multiples_vanish(c - j, n as int);
                vstd::arithmetic::div_mod::lemma_small_mod((c - j) as nat, n);
            } else {
                vstd::arithmetic::div_mod::lemma_small_mod(m, n);
            }
        }
        if k >= 1 {
            lemma_pow2_unfold(k);
            assert(n / 2 == pow2((k - 1) as nat));
        }
        lemma_root_sum_vanishes(omega, k, m);
        lemma_units(coeffs[c]);
        lemma_units(0);
    }
    lemma_fsum_of_one_term(weighted, j as int, n);
    assert(weighted(j as int) == fmul(geometric_sum(fpow(omega, n), n), coeffs[j as int]));
    lemma_geometric_sum_of_one(n);
    lemma_fmul_reduce(n as int, coeffs[j as int]);
    lemma_reduce_canonical(weighted(j as int));
}

/// A polynomial of a degree below the domain's size is known by its values
/// over the domain: two such polynomials with the same values are the same.
/// So the inverse transform of a polynomial's forward transform, which has
/// those values, is the polynomial.
pub proof fn lemma_transform_round_trip(size: nat, coeffs: Seq<int>, recovered: Seq<int>)
    requires
        is_domain_size(size as int),
        coeffs.len() == size,
        recovered.len() == size,
        forall|j: int| 0 <= j < size ==> is_canonical(#[trigger] coeffs[j]),
        forall|j: int| 0 <= j < size ==> is_canonical(#[trigger] recovered[j]),
        evaluations_over_domain(recovered, size) == evaluations_over_domain(coeffs, size),
    ensures
        recovered == coeffs,
{
    let k = choose|k: nat| k <= TWO_ADICITY && size == #[trigger] pow2(k);
    let omega = root_of_unity(size);
    lemma_root_of_unity_is_primitive(size);
    let values = Seq::new(size, |i: int| poly_eval(coeffs, fpow(omega, i as nat)));
    let recovered_values = Seq::new(size, |i: int| poly_eval(recovered, fpow(omega, i as nat)));
    assert(values =~= evaluations_over_domain(coeffs, size));
    assert(recovered_values =~= evaluations_over_domain(recovered, size));
    lemma_power_of_two_is_invertible(k);
    assert forall|j: int| 0 <= j < size implies recovered[j] == coeffs[j] by {
        lemma_coefficient_sum(coeffs, omega, j as nat, k);
        lemma_coefficient_sum(recovered, omega, j as nat, k);
        lemma_cancel(recovered[j], coeffs[j], size as int, fpow(one_half(), k));
    }
    assert(recovered =~= coeffs);
}

/// The inverse of the coset's shift.
pub open spec fn coset_shift_inverse() -> int {
    0x211f5460e751918257c7624b7077624aaa362edc49241a48db6db6db24924925int
}

/// The coset's shift can be divided by.
proof fn lemma_coset_shift_is_invertible()
    ensures
        fmul(coset_shift(), coset_shift_inverse()) == 1,
{
    lemma_modulus_value();
    assert(coset_shift() * coset_shift_inverse() == 2 * modulus() + 1);
    vstd::arithmetic::div_mod::lemma_mod_multiples_vanish(2, 1, modulus());
    lemma_units(1);
}

/// The coefficients of the polynomial `x -> p(shift * x)`, for the
/// polynomial `p` with the given coefficients.
pub open spec fn shifted(coeffs: Seq<int>, shift: int) -> Seq<int> {
    Seq::new(coeffs.len(), |c: int| fmul(coeffs[c], fpow(shift, c as nat)))
}

/// The value of a polynomial at a shifted point is the shifted polynomial's
/// value at the point.
proof fn lemma_shifted_eval(coeffs: Seq<int>, shift: int, x: int)
    ensures
        poly_eval(coeffs, fmul(shift, x)) == poly_eval(shifted(coeffs, shift), x),
{
    let moved = shifted(coeffs, shift);
    let terms = |c: int| fmul(coeffs[c], fpow(fmul(shift, x), c as nat));
    let moved_terms = |c: int| fmul(moved[c], fpow(x, c as nat));
    lemma_poly_eval_is_sum(coeffs, fmul(shift, x));
    lemma_poly_eval_is_sum(moved, x);
    assert forall|c: int| 0 <= c < coeffs.len() implies reduce(#[trigger] terms(c)) == reduce(
        moved_terms(c),
    ) by {
        lemma_fpow_of_product(shift, x, c as nat);
        lemma_fmul_assoc(coeffs[c], fpow(shift, c as nat), fpow(x, c as nat));
    }
    lemma_fsum_congruent(terms, moved_terms, coeffs.len());
}

/// A polynomial of a degree below the domain's size is known by its values
/// over the domain's coset, as it is by those over the domain. So the
/// inverse coset transform of a polynomial's coset transform is the
/// polynomial.
pub proof fn lemma_coset_transform_round_trip(size: nat, coeffs: Seq<int>, recovered: Seq<int>)
    requires
        is_domain_size(size as int),
        coeffs.len() == size,
        recovered.len() == size,
        forall|j: int| 0 <= j < size ==> is_canonical(#[trigger] coeffs[j]),
        forall|j: int| 0 <= j < size ==> is_canonical(#[trigger] recovered[j]),
        evaluations_over_coset(recovered, size) == evaluations_over_coset(coeffs, size),
    ensures
        recovered == coeffs,
{
    let g = coset_shift();
    let a = shifted(coeffs, g);
    let b = shifted(recovered, g);
    assert(evaluations_over_domain(b, size) =~= evaluations_over_domain(a, size)) by {
        assert forall|i: int| 0 <= i < size implies evaluations_over_domain(b, size)[i]
            == evaluations_over_domain(a, size)[i] by {
            let x = domain_element(size, i as nat);
            lemma_shifted_eval(coeffs, g, x);
            lemma_shifted_eval(recovered, g, x);
            assert(evaluations_over_coset(coeffs, size)[i] == poly_eval(
                coeffs,
                coset_element(size, i as nat),
            ));
            assert(evaluations_over_coset(recovered, size)[i] == poly_eval(
                recovered,
                coset_element(size, i as nat),
            ));
        }
    }
    assert forall|j: int| 0 <= j < size implies is_canonical(#[trigger] a[j]) && is_canonical(
        b[j],
    ) by {
        lemma_fmul_reduce(coeffs[j], fpow(g, j as nat));
        lemma_fmul_reduce(recovered[j], fpow(g, j as nat));
    }
    lemma_transform_round_trip(size, a, b);
    lemma_coset_shift_is_invertible();
    assert forall|j: int| 0 <= j < size implies recovered[j] == coeffs[j] by {
        assert(a[j] == b[j]);
        lemma_fpow_of_product(g, coset_shift_inverse(), j as nat);
        lemma_fpow_of_one(j as nat);
        lemma_cancel(
            recovered[j],
            coeffs[j],
            fpow(g, j as nat),
            fpow(coset_shift_inverse(), j as nat),
        );
    }
    assert(recovered =~= coeffs);
}

} // verus!
