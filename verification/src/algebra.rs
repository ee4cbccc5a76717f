//! Laws of products, powers and finite sums in the field.

use crate::field::{fadd, fmul, fpow, fsub, lemma_modulus_positive, modulus, reduce};
use vstd::arithmetic::div_mod::{
    lemma_add_mod_noop, lemma_mod_bound, lemma_mod_twice, lemma_mul_mod_noop_general,
    lemma_small_mod, lemma_sub_mod_noop,
};
use vstd::prelude::*;

verus! {

/// Whether `x` is a canonical representative.
pub open spec fn is_canonical(x: int) -> bool {
    0 <= x < modulus()
}

/// Residues are canonical, and a canonical number is its own residue.
pub proof fn lemma_reduce_canonical(x: int)
    ensures
        is_canonical(reduce(x)),
        is_canonical(x) ==> reduce(x) == x,
        reduce(reduce(x)) == reduce(x),
{
    lemma_modulus_positive();
    lemma_mod_bound(x, modulus());
    lemma_mod_twice(x, modulus());
    if is_canonical(x) {
        lemma_small_mod(x as nat, modulus() as nat);
    }
}

/// A residue may stand for its number in a product.
pub proof fn lemma_fmul_reduce(a: int, b: int)
    ensures
        fmul(reduce(a), b) == fmul(a, b),
        fmul(a, reduce(b)) == fmul(a, b),
        fmul(reduce(a), reduce(b)) == fmul(a, b),
        fmul(a, b) == fmul(b, a),
        is_canonical(fmul(a, b)),
{
    let m = modulus();
    lemma_modulus_positive();
    lemma_mul_mod_noop_general(a, b, m);
    lemma_mod_bound(a * b, m);
    assert(a * b == b * a) by (nonlinear_arith);
}

/// A residue may stand for its number in a sum.
pub proof fn lemma_fadd_reduce(a: int, b: int)
    ensures
        fadd(reduce(a), b) == fadd(a, b),
        fadd(a, reduce(b)) == fadd(a, b),
        fadd(reduce(a), reduce(b)) == fadd(a, b),
        is_canonical(fadd(a, b)),
{
    let m = modulus();
    lemma_modulus_positive();
    lemma_add_mod_noop(a, b, m);
    lemma_add_mod_noop(reduce(a), b, m);
    lemma_add_mod_noop(a, reduce(b), m);
    lemma_mod_twice(a, m);
    lemma_mod_twice(b, m);
    lemma_mod_bound(a + b, m);
}

/// Residues may stand for their numbers in a difference, and in a negative.
pub proof fn lemma_fsub_reduce(a: int, b: int)
    ensures
        fsub(reduce(a), reduce(b)) == fsub(a, b),
        reduce(-reduce(a)) == reduce(-a),
{
    let m = modulus();
    lemma_modulus_positive();
    lemma_sub_mod_noop(a, b, m);
    lemma_sub_mod_noop(0, a, m);
    lemma_small_mod(0, m as nat);
}

/// Products in the field associate.
pub proof fn lemma_fmul_assoc(a: int, b: int, c: int)
    ensures
        fmul(a, fmul(b, c)) == fmul(fmul(a, b), c),
{
    lemma_fmul_reduce(a, b * c);
    lemma_fmul_reduce(a * b, c);
    assert(a * (b * c) == (a * b) * c) by (nonlinear_arith);
}

/// Sums in the field associate.
pub proof fn lemma_fadd_assoc(a: int, b: int, c: int)
    ensures
        fadd(a, fadd(b, c)) == fadd(fadd(a, b), c),
{
    lemma_fadd_reduce(a, b + c);
    lemma_fadd_reduce(a + b, c);
}

/// Products distribute over sums in the field.
pub proof fn lemma_fmul_distributes(a: int, b: int, c: int)
    ensures
        fmul(fadd(a, b), c) == fadd(fmul(a, c), fmul(b, c)),
        fmul(c, fadd(a, b)) == fadd(fmul(c, a), fmul(c, b)),
{
    lemma_fmul_reduce(a + b, c);
    lemma_fmul_reduce(c, a + b);
    lemma_fadd_reduce(a * c, b * c);
    lemma_fadd_reduce(c * a, c * b);
    assert((a + b) * c == a * c + b * c) by (nonlinear_arith);
    assert(c * (a + b) == c * a + c * b) by (nonlinear_arith);
}

/// Zero and one in products and sums.
pub proof fn lemma_units(a: int)
    ensures
        fmul(1, a) == reduce(a),
        fmul(a, 1) == reduce(a),
        fmul(0, a) == 0,
        fmul(a, 0) == 0,
        fadd(0, a) == reduce(a),
        fadd(a, 0) == reduce(a),
        reduce(0) == 0,
        reduce(1) == 1,
{
    lemma_modulus_positive();
    lemma_small_mod(0, modulus() as nat);
    lemma_small_mod(1, modulus() as nat);
    assert(1 * a == a);
    assert(a * 1 == a);
    assert(0 * a == 0);
    assert(a * 0 == 0);
}

/// A product is zero in the field where one of its factors is.
pub proof fn lemma_product_vanishes(a: int, b: int)
    requires
        reduce(a) == 0 || reduce(b) == 0,
    ensures
        reduce(a * b) == 0,
{
    lemma_modulus_positive();
    lemma_mul_mod_noop_general(a, b, modulus());
    assert(0 * reduce(b) == 0);
    assert(reduce(a) * 0 == 0);
    lemma_small_mod(0, modulus() as nat);
}

/// A sum is zero in the field where both its terms are.
pub proof fn lemma_sum_vanishes(a: int, b: int)
    requires
        reduce(a) == 0,
        reduce(b) == 0,
    ensures
        reduce(a + b) == 0,
{
    lemma_modulus_positive();
    lemma_add_mod_noop(a, b, modulus());
    lemma_small_mod(0, modulus() as nat);
}

/// Powers are canonical.
pub proof fn lemma_fpow_canonical(b: int, e: nat)
    ensures
        is_canonical(fpow(b, e)),
{
    lemma_modulus_positive();
    if e > 0 {
        lemma_fmul_reduce(b, fpow(b, (e - 1) as nat));
    }
}

/// The power to a sum of exponents is the product of the powers.
pub proof fn lemma_fpow_adds(b: int, e1: nat, e2: nat)
    ensures
        fpow(b, e1 + e2) == fmul(fpow(b, e1), fpow(b, e2)),
    decreases e1,
{
    lemma_fpow_canonical(b, e2);
    if e1 == 0 {
        lemma_units(fpow(b, e2));
        lemma_reduce_canonical(fpow(b, e2));
    } else {
        lemma_fpow_adds(b, (e1 - 1) as nat, e2);
        assert(fpow(b, e1 + e2) == fmul(b, fpow(b, (e1 - 1 + e2) as nat)));
        lemma_fmul_assoc(b, fpow(b, (e1 - 1) as nat), fpow(b, e2));
    }
}

/// The powers of one are one.
pub proof fn lemma_fpow_of_one(e: nat)
    ensures
        fpow(1, e) == 1,
    decreases e,
{
    if e > 0 {
        lemma_fpow_of_one((e - 1) as nat);
        lemma_units(1);
    }
}

/// The power of a product is the product of the powers.
pub proof fn lemma_fpow_of_product(a: int, b: int, e: nat)
    ensures
        fpow(fmul(a, b), e) == fmul(fpow(a, e), fpow(b, e)),
    decreases e,
{
    if e == 0 {
        lemma_units(1);
    } else {
        let pa = fpow(a, (e - 1) as nat);
        let pb = fpow(b, (e - 1) as nat);
        lemma_fpow_of_product(a, b, (e - 1) as nat);
        // (a b) (pa pb) = (a pa) (b pb)
        lemma_fmul_reduce(a * b, fmul(pa, pb));
        lemma_fmul_reduce(a * b, pa * pb);
        lemma_fmul_reduce(a * pa, b * pb);
        assert((a * b) * (pa * pb) == (a * pa) * (b * pb)) by (nonlinear_arith);
    }
}

/// The power of a power is the power to the product of the exponents.
pub proof fn lemma_fpow_of_power(b: int, e1: nat, e2: nat)
    ensures
        fpow(fpow(b, e1), e2) == fpow(b, e1 * e2),
    decreases e2,
{
    if e2 == 0 {
        assert(e1 * e2 == 0);
    } else {
        lemma_fpow_of_power(b, e1, (e2 - 1) as nat);
        assert(e1 * e2 == e1 + e1 * (e2 - 1)) by (nonlinear_arith)
            requires
                e2 > 0,
        ;
        assert(e1 * (e2 - 1) >= 0) by (nonlinear_arith)
            requires
                e2 > 0,
                e1 >= 0,
        ;
        lemma_fpow_adds(b, e1, (e1 * (e2 - 1)) as nat);
    }
}

/// The sum in the field of the first `n` values of `f`.
pub open spec fn fsum(f: spec_fn(int) -> int, n: nat) -> int
    decreases n,
{
    if n == 0 {
        0
    } else {
        fadd(fsum(f, (n - 1) as nat), f(n - 1))
    }
}

/// Sums are canonical.
pub proof fn lemma_fsum_canonical(f: spec_fn(int) -> int, n: nat)
    ensures
        is_canonical(fsum(f, n)),
{
    lemma_modulus_positive();
    if n > 0 {
        lemma_fadd_reduce(fsum(f, (n - 1) as nat), f(n - 1));
    }
}

/// Sums of terms that agree in the field agree.
pub proof fn lemma_fsum_congruent(f: spec_fn(int) -> int, g: spec_fn(int) -> int, n: nat)
    requires
        forall|i: int| 0 <= i < n ==> reduce(#[trigger] f(i)) == reduce(g(i)),
    ensures
        fsum(f, n) == fsum(g, n),
    decreases n,
{
    if n > 0 {
        lemma_fsum_congruent(f, g, (n - 1) as nat);
        lemma_fadd_reduce(fsum(f, (n - 1) as nat), f(n - 1));
        lemma_fadd_reduce(fsum(g, (n - 1) as nat), g(n - 1));
    }
}

/// A sum of zeros is zero.
pub proof fn lemma_fsum_of_zeros(f: spec_fn(int) -> int, n: nat)
    requires
        forall|i: int| 0 <= i < n ==> reduce(#[trigger] f(i)) == 0,
    ensures
        fsum(f, n) == 0,
    decreases n,
{
    if n > 0 {
        lemma_fsum_of_zeros(f, (n - 1) as nat);
        lemma_fadd_reduce(0, f(n - 1));
        lemma_units(0);
    }
}

/// A sum with one term that is not zero is that term.
pub proof fn lemma_fsum_of_one_term(f: spec_fn(int) -> int, j: int, n: nat)
    requires
        0 <= j < n,
        forall|i: int| 0 <= i < n && i != j ==> reduce(#[trigger] f(i)) == 0,
    ensures
        fsum(f, n) == reduce(f(j)),
    decreases n,
{
    if j == n - 1 {
        lemma_fsum_of_zeros(f, (n - 1) as nat);
        lemma_units(f(j));
    } else {
        lemma_fsum_of_one_term(f, j, (n - 1) as nat);
        lemma_fadd_reduce(reduce(f(j)), f(n - 1));
        lemma_units(reduce(f(j)));
        lemma_reduce_canonical(f(j));
    }
}

/// The sum of termwise sums is the sum of the sums.
pub proof fn lemma_fsum_adds(
    f: spec_fn(int) -> int,
    g: spec_fn(int) -> int,
    both: spec_fn(int) -> int,
    n: nat,
)
    requires
        forall|i: int| 0 <= i < n ==> reduce(#[trigger] both(i)) == fadd(f(i), g(i)),
    ensures
        fsum(both, n) == fadd(fsum(f, n), fsum(g, n)),
    decreases n,
{
    if n == 0 {
        lemma_units(0);
    } else {
        let k = (n - 1) as nat;
        lemma_fsum_adds(f, g, both, k);
        let sf = fsum(f, k);
        let sg = fsum(g, k);
        // (sf + sg) + (f + g) = (sf + f) + (sg + g)
        lemma_fadd_reduce(fsum(both, k), both(n - 1));
        lemma_fadd_reduce(sf + sg, f(n - 1) + g(n - 1));
        lemma_fadd_reduce(sf + f(n - 1), sg + g(n - 1));
    }
}

/// A factor common to all terms of a sum may be taken out of it.
pub proof fn lemma_fsum_scales(
    f: spec_fn(int) -> int,
    scaled: spec_fn(int) -> int,
    a: int,
    n: nat,
)
    requires
        forall|i: int| 0 <= i < n ==> reduce(#[trigger] scaled(i)) == fmul(f(i), a),
    ensures
        fsum(scaled, n) == fmul(fsum(f, n), a),
    decreases n,
{
    if n == 0 {
        lemma_units(a);
    } else {
        let k = (n - 1) as nat;
        lemma_fsum_scales(f, scaled, a, k);
        lemma_fadd_reduce(fsum(scaled, k), scaled(n - 1));
        lemma_fmul_distributes(fsum(f, k), f(n - 1), a);
    }
}

/// A sum over rows of sums over columns is the sum over columns of the sums
/// over rows.
pub proof fn lemma_fsum_exchanges(
    h: spec_fn(int, int) -> int,
    rows: spec_fn(int) -> int,
    columns: spec_fn(int) -> int,
    n: nat,
    m: nat,
)
    requires
        forall|i: int| 0 <= i < n ==> #[trigger] rows(i) == fsum(|k: int| h(i, k), m),
        forall|k: int| 0 <= k < m ==> #[trigger] columns(k) == fsum(|i: int| h(i, k), n),
    ensures
        fsum(rows, n) == fsum(columns, m),
    decreases n,
{
    if n == 0 {
        assert forall|k: int| 0 <= k < m implies reduce(#[trigger] columns(k)) == 0 by {
            lemma_units(0);
        }
        lemma_fsum_of_zeros(columns, m);
    } else {
        let above = (n - 1) as nat;
        let last_row = |k: int| h(n - 1, k);
        let columns_above = |k: int| fsum(|i: int| h(i, k), above);
        lemma_fsum_exchanges(h, rows, columns_above, above, m);
        assert forall|k: int| 0 <= k < m implies reduce(#[trigger] columns(k)) == fadd(
            columns_above(k),
            last_row(k),
        ) by {
            let column = |i: int| h(i, k);
            assert(columns(k) == fsum(column, n));
            assert(fsum(column, n) == fadd(fsum(column, above), column(n - 1)));
            lemma_fsum_canonical(column, n);
            lemma_reduce_canonical(columns(k));
        }
        lemma_fsum_adds(columns_above, last_row, columns, m);
        assert(rows(n - 1) == fsum(last_row, m));
    }
}

} // verus!
