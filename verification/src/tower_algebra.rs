//! The ring laws of the extension tower, proved over exact integer forms of its operations: an
//! element of `Fq2` is taken as a pair of integers, one of `Fq6` as three such pairs and one of
//! `Fq12` as two triples. The reduced operations of the library are congruent modulo `q` to the
//! exact ones, the exact ones obey the ring laws as polynomial identities, and reduced values that
//! are congruent are equal.
use vstd::prelude::*;
use vstd::arithmetic::div_mod::*;
use crate::fp::{fq_modulus, lemma_moduli};
use crate::fq2::{fq2_add, fq2_inv, fq2_mul, fq2_mul_xi, fq2_neg, fq2_norm, fq2_sub, fq_inv};
use crate::modular::has_inverse;
use crate::fq12::{
    fq12_inv, fq12_mul, fq12_one, fq6_add, fq6_inv, fq6_inv_denominator, fq6_inv_parts, fq6_mul,
    fq6_mul_by_v, fq6_neg, fq6_one, fq6_reduced, fq6_sub, fq6_zero, Fq12V, Fq6V,
};

verus! {

/// An element of `Fq2` over the integers.
pub type C2 = (int, int);

/// An element of `Fq6` over the integers.
pub type C6 = (C2, C2, C2);

/// An element of `Fq12` over the integers.
pub type C12 = (C6, C6);

/// The product of `a0 + a1 i` and `b0 + b1 i` over the integers, before any reduction.
#[verifier::opaque]
pub(crate) open spec fn cmul(a: C2, b: C2) -> C2 {
    (a.0 * b.0 - a.1 * b.1, a.0 * b.1 + a.1 * b.0)
}

pub(crate) open spec fn cadd(a: C2, b: C2) -> C2 {
    (a.0 + b.0, a.1 + b.1)
}

/// The product with `xi = 9 + i`.
pub(crate) open spec fn cxi(a: C2) -> C2 {
    (9 * a.0 - a.1, a.0 + 9 * a.1)
}

/// Congruence modulo `q`, componentwise.
pub(crate) open spec fn cong(a: C2, b: C2) -> bool {
    &&& a.0 % (fq_modulus() as int) == b.0 % (fq_modulus() as int)
    &&& a.1 % (fq_modulus() as int) == b.1 % (fq_modulus() as int)
}

/// An element of `Fq2` as a pair of integers.
pub(crate) open spec fn iv(a: (nat, nat)) -> C2 {
    (a.0 as int, a.1 as int)
}

pub(crate) proof fn lemma_mul_cong(a: int, a2: int, b: int, b2: int, m: int)
    requires
        m > 0,
        a % m == a2 % m,
        b % m == b2 % m,
    ensures
        (a * b) % m == (a2 * b2) % m,
{
    lemma_mul_mod_noop(a, b, m);
    lemma_mul_mod_noop(a2, b2, m);
}

/// `cmul` respects congruence.
pub(crate) proof fn lemma_cmul_cong(a: C2, a2: C2, b: C2, b2: C2)
    requires
        cong(a, a2),
        cong(b, b2),
    ensures
        cong(cmul(a, b), cmul(a2, b2)),
{
    reveal(cmul);
    lemma_moduli();
    let m = fq_modulus() as int;
    lemma_mul_cong(a.0, a2.0, b.0, b2.0, m);
    lemma_mul_cong(a.1, a2.1, b.1, b2.1, m);
    lemma_mul_cong(a.0, a2.0, b.1, b2.1, m);
    lemma_mul_cong(a.1, a2.1, b.0, b2.0, m);
    lemma_sub_mod_noop(a.0 * b.0, a.1 * b.1, m);
    lemma_sub_mod_noop(a2.0 * b2.0, a2.1 * b2.1, m);
    lemma_add_mod_noop(a.0 * b.1, a.1 * b.0, m);
    lemma_add_mod_noop(a2.0 * b2.1, a2.1 * b2.0, m);
}

/// `cadd` respects congruence.
pub(crate) proof fn lemma_cadd_cong(a: C2, a2: C2, b: C2, b2: C2)
    requires
        cong(a, a2),
        cong(b, b2),
    ensures
        cong(cadd(a, b), cadd(a2, b2)),
{
    lemma_moduli();
    let m = fq_modulus() as int;
    lemma_add_mod_noop(a.0, b.0, m);
    lemma_add_mod_noop(a2.0, b2.0, m);
    lemma_add_mod_noop(a.1, b.1, m);
    lemma_add_mod_noop(a2.1, b2.1, m);
}

/// `cxi` respects congruence.
pub(crate) proof fn lemma_cxi_cong(a: C2, a2: C2)
    requires
        cong(a, a2),
    ensures
        cong(cxi(a), cxi(a2)),
{
    lemma_moduli();
    let m = fq_modulus() as int;
    lemma_mul_cong(9, 9, a.0, a2.0, m);
    lemma_mul_cong(9, 9, a.1, a2.1, m);
    lemma_sub_mod_noop(9 * a.0, a.1, m);
    lemma_sub_mod_noop(9 * a2.0, a2.1, m);
    lemma_add_mod_noop(a.0, 9 * a.1, m);
    lemma_add_mod_noop(a2.0, 9 * a2.1, m);
}

/// `fq2_mul` is `cmul` reduced.
pub(crate) proof fn lemma_fq2_mul_cong(a: (nat, nat), b: (nat, nat))
    ensures
        cong(iv(fq2_mul(a, b)), cmul(iv(a), iv(b))),
{
    reveal(fq2_mul);
    reveal(cmul);
    lemma_moduli();
    let m = fq_modulus() as int;
    let x = a.0 * b.0 - a.1 * b.1;
    let y = (a.0 * b.1 + a.1 * b.0) as int;
    lemma_mod_bound(x, m);
    lemma_mod_twice(x, m);
    lemma_mod_twice(y, m);
}

/// `fq2_add` is `cadd` reduced.
pub(crate) proof fn lemma_fq2_add_cong(a: (nat, nat), b: (nat, nat))
    ensures
        cong(iv(fq2_add(a, b)), cadd(iv(a), iv(b))),
{
    lemma_moduli();
    let m = fq_modulus() as int;
    lemma_mod_twice((a.0 + b.0) as int, m);
    lemma_mod_twice((a.1 + b.1) as int, m);
}

/// `fq2_mul_xi` is `cxi` reduced.
pub(crate) proof fn lemma_fq2_mul_xi_cong(a: (nat, nat))
    ensures
        cong(iv(fq2_mul_xi(a)), cxi(iv(a))),
{
    lemma_fq2_mul_cong(a, (9, 1));
    reveal(cmul);
    assert(cmul(iv(a), iv((9nat, 1nat))) == cxi(iv(a)));
}

pub(crate) proof fn lemma_cmul_assoc(a: C2, b: C2, c: C2)
    ensures
        cmul(cmul(a, b), c) == cmul(a, cmul(b, c)),
{
    reveal(cmul);
    let (a0, a1) = a;
    let (b0, b1) = b;
    let (c0, c1) = c;
    assert((a0 * b0 - a1 * b1) * c0 == a0 * (b0 * c0) - a1 * (b1 * c0)) by (nonlinear_arith);
    assert((a0 * b1 + a1 * b0) * c1 == a0 * (b1 * c1) + a1 * (b0 * c1)) by (nonlinear_arith);
    assert(a0 * (b0 * c0 - b1 * c1) == a0 * (b0 * c0) - a0 * (b1 * c1)) by (nonlinear_arith);
    assert(a1 * (b0 * c1 + b1 * c0) == a1 * (b0 * c1) + a1 * (b1 * c0)) by (nonlinear_arith);
    assert((a0 * b0 - a1 * b1) * c1 == a0 * (b0 * c1) - a1 * (b1 * c1)) by (nonlinear_arith);
    assert((a0 * b1 + a1 * b0) * c0 == a0 * (b1 * c0) + a1 * (b0 * c0)) by (nonlinear_arith);
    assert(a0 * (b0 * c1 + b1 * c0) == a0 * (b0 * c1) + a0 * (b1 * c0)) by (nonlinear_arith);
    assert(a1 * (b0 * c0 - b1 * c1) == a1 * (b0 * c0) - a1 * (b1 * c1)) by (nonlinear_arith);
}

pub(crate) proof fn lemma_cmul_comm(a: C2, b: C2)
    ensures
        cmul(a, b) == cmul(b, a),
{
    reveal(cmul);
    assert(a.0 * b.0 == b.0 * a.0) by (nonlinear_arith);
    assert(a.1 * b.1 == b.1 * a.1) by (nonlinear_arith);
    assert(a.0 * b.1 == b.1 * a.0) by (nonlinear_arith);
    assert(a.1 * b.0 == b.0 * a.1) by (nonlinear_arith);
}

/// `(x + y) z = x z + y z`
pub(crate) proof fn lemma_cdist_l(x: C2, y: C2, z: C2)
    ensures
        cmul(cadd(x, y), z) == cadd(cmul(x, z), cmul(y, z)),
{
    reveal(cmul);
    assert((x.0 + y.0) * z.0 == x.0 * z.0 + y.0 * z.0) by (nonlinear_arith);
    assert((x.1 + y.1) * z.1 == x.1 * z.1 + y.1 * z.1) by (nonlinear_arith);
    assert((x.0 + y.0) * z.1 == x.0 * z.1 + y.0 * z.1) by (nonlinear_arith);
    assert((x.1 + y.1) * z.0 == x.1 * z.0 + y.1 * z.0) by (nonlinear_arith);
}

/// `x (y + z) = x y + x z`
pub(crate) proof fn lemma_cdist_r(x: C2, y: C2, z: C2)
    ensures
        cmul(x, cadd(y, z)) == cadd(cmul(x, y), cmul(x, z)),
{
    reveal(cmul);
    assert(x.0 * (y.0 + z.0) == x.0 * y.0 + x.0 * z.0) by (nonlinear_arith);
    assert(x.1 * (y.1 + z.1) == x.1 * y.1 + x.1 * z.1) by (nonlinear_arith);
    assert(x.0 * (y.1 + z.1) == x.0 * y.1 + x.0 * z.1) by (nonlinear_arith);
    assert(x.1 * (y.0 + z.0) == x.1 * y.0 + x.1 * z.0) by (nonlinear_arith);
}

/// `(xi x) y = xi (x y)`
pub(crate) proof fn lemma_cxi_l(x: C2, y: C2)
    ensures
        cmul(cxi(x), y) == cxi(cmul(x, y)),
{
    reveal(cmul);
    assert((9 * x.0 - x.1) * y.0 - (x.0 + 9 * x.1) * y.1 == 9 * (x.0 * y.0 - x.1 * y.1) - (x.0
        * y.1 + x.1 * y.0)) by (nonlinear_arith);
    assert((9 * x.0 - x.1) * y.1 + (x.0 + 9 * x.1) * y.0 == (x.0 * y.0 - x.1 * y.1) + 9 * (x.0
        * y.1 + x.1 * y.0)) by (nonlinear_arith);
}

/// `x (xi y) = xi (x y)`
pub(crate) proof fn lemma_cxi_r(x: C2, y: C2)
    ensures
        cmul(x, cxi(y)) == cxi(cmul(x, y)),
{
    lemma_cmul_comm(x, cxi(y));
    lemma_cxi_l(y, x);
    lemma_cmul_comm(y, x);
}

/// Reduced congruent values are equal.
pub(crate) proof fn lemma_reduced_eq(a: (nat, nat), b: (nat, nat))
    requires
        a.0 < fq_modulus(),
        a.1 < fq_modulus(),
        b.0 < fq_modulus(),
        b.1 < fq_modulus(),
        cong(iv(a), iv(b)),
    ensures
        a == b,
{
    lemma_moduli();
    lemma_small_mod(a.0, fq_modulus());
    lemma_small_mod(a.1, fq_modulus());
    lemma_small_mod(b.0, fq_modulus());
    lemma_small_mod(b.1, fq_modulus());
}

/// Reduced values congruent to zero are zero.
pub(crate) proof fn lemma_reduced_zero(a: (nat, nat))
    requires
        a.0 < fq_modulus(),
        a.1 < fq_modulus(),
        cong(iv(a), (0, 0)),
    ensures
        a == (0nat, 0nat),
{
    lemma_moduli();
    lemma_small_mod(0, fq_modulus());
    lemma_reduced_eq(a, (0nat, 0nat));
}

/// Products and sums in `Fq2` are reduced.
pub(crate) proof fn lemma_fq2_mul_bound()
    ensures
        forall|a: (nat, nat), b: (nat, nat)|
            (#[trigger] fq2_mul(a, b)).0 < fq_modulus() && fq2_mul(a, b).1 < fq_modulus(),
        forall|a: (nat, nat), b: (nat, nat)|
            (#[trigger] fq2_add(a, b)).0 < fq_modulus() && fq2_add(a, b).1 < fq_modulus(),
{
    reveal(fq2_mul);
    lemma_moduli();
    assert forall|a: (nat, nat), b: (nat, nat)|
        (#[trigger] fq2_mul(a, b)).0 < fq_modulus() && fq2_mul(a, b).1 < fq_modulus() by {
        lemma_mod_bound(a.0 * b.0 - a.1 * b.1, fq_modulus() as int);
        lemma_mod_bound((a.0 * b.1 + a.1 * b.0) as int, fq_modulus() as int);
    }
    assert forall|a: (nat, nat), b: (nat, nat)|
        (#[trigger] fq2_add(a, b)).0 < fq_modulus() && fq2_add(a, b).1 < fq_modulus() by {
        lemma_mod_bound((a.0 + b.0) as int, fq_modulus() as int);
        lemma_mod_bound((a.1 + b.1) as int, fq_modulus() as int);
    }
}

/// Where `a` has an inverse modulo `q`, `fq_inv` gives one.
pub(crate) proof fn lemma_fq_inv(a: nat)
    requires
        has_inverse(a, fq_modulus()),
    ensures
        fq_inv(a) < fq_modulus(),
        (a * fq_inv(a)) % fq_modulus() == 1,
{
    lemma_moduli();
    let m = fq_modulus();
    let x = choose|x: nat| #[trigger] ((a * x) % m) == 1;
    let y = x % m;
    lemma_mul_mod_noop_right(a as int, x as int, m as int);
    lemma_mod_bound(x as int, m as int);
    assert(y < m && (a * y) % m == 1);
}

/// `fq2_inv(z)` is an inverse of `z` where the norm of `z` has an inverse.
pub(crate) proof fn lemma_fq2_inv(z: (nat, nat))
    requires
        has_inverse(fq2_norm(z), fq_modulus()),
    ensures
        cong(cmul(iv(z), iv(fq2_inv(z))), (1, 0)),
{
    reveal(cmul);
    lemma_moduli();
    let m = fq_modulus() as int;
    let n = fq2_norm(z);
    lemma_fq_inv(n);
    let t = fq_inv(n);
    let z0 = z.0 as int;
    let z1 = z.1 as int;
    let w = fq2_inv(z);
    let w_exact = (z0 * t, -(z1 * t));
    // the components of the inverse are `z0 t` and `-z1 t`, reduced
    assert(cong(iv(w), w_exact)) by {
        let v = (z1 * t) as int;
        lemma_mod_twice(z0 * t, m);
        lemma_mod_bound(v, m);
        lemma_mod_bound(0 - v % m, m);
        lemma_sub_mod_noop(0, v, m);
        lemma_small_mod(0, fq_modulus());
        lemma_mod_twice(0 - v % m, m);
    }
    lemma_cmul_cong(iv(z), iv(z), iv(w), w_exact);
    // `z (z0 t, -z1 t) = ((z0^2 + z1^2) t, 0)`
    let s = z0 * z0 + z1 * z1;
    assert(z0 * (z0 * t) - z1 * (-(z1 * t)) == s * t) by (nonlinear_arith)
        requires
            s == z0 * z0 + z1 * z1,
    ;
    assert(z0 * (-(z1 * t)) + z1 * (z0 * t) == 0) by (nonlinear_arith);
    assert(cmul(iv(z), w_exact) == (s * t, 0int));
    // the norm is `z0^2 + z1^2` modulo `q`
    assert(n as int % m == s % m) by {
        let a = (z0 * z0) % m;
        let b = ((z1 * z1) % m * (m - 1)) % m;
        lemma_mul_mod_noop_left(z1 * z1, m - 1, m);
        assert(z1 * z1 * (m - 1) == (z1 * z1) * m - z1 * z1) by (nonlinear_arith);
        lemma_mod_multiples_vanish(z1 * z1, -(z1 * z1), m);
        assert((z1 * z1) * m - z1 * z1 == m * (z1 * z1) + (-(z1 * z1))) by (nonlinear_arith);
        lemma_mod_bound(a - b, m);
        lemma_mod_twice(a - b, m);
        lemma_sub_mod_noop(z0 * z0, -(z1 * z1), m);
        lemma_mod_twice(z0 * z0, m);
        lemma_sub_mod_noop(z0 * z0, z1 * z1 * (m - 1), m);
    }
    lemma_mul_cong(n as int, s, t as int, t as int, m);
    lemma_small_mod(1, fq_modulus());
    lemma_small_mod(0, fq_modulus());
}

// ---------------------------------------------------------------------------------------------
// Fq6
pub(crate) open spec fn e6add(a: C6, b: C6) -> C6 {
    (cadd(a.0, b.0), cadd(a.1, b.1), cadd(a.2, b.2))
}

/// The product with `v`.
pub(crate) open spec fn e6v(a: C6) -> C6 {
    (cxi(a.2), a.0, a.1)
}

/// The product in `Fq6` over the integers.
#[verifier::opaque]
pub(crate) open spec fn e6mul(a: C6, b: C6) -> C6 {
    (
        cadd(cmul(a.0, b.0), cxi(cadd(cmul(a.1, b.2), cmul(a.2, b.1)))),
        cadd(cadd(cmul(a.0, b.1), cmul(a.1, b.0)), cxi(cmul(a.2, b.2))),
        cadd(cadd(cmul(a.0, b.2), cmul(a.1, b.1)), cmul(a.2, b.0)),
    )
}

pub(crate) open spec fn cong6(a: C6, b: C6) -> bool {
    cong(a.0, b.0) && cong(a.1, b.1) && cong(a.2, b.2)
}

pub(crate) open spec fn iv6(a: Fq6V) -> C6 {
    (iv(a.0), iv(a.1), iv(a.2))
}

pub(crate) proof fn lemma_e6add_cong(a: C6, a2: C6, b: C6, b2: C6)
    requires
        cong6(a, a2),
        cong6(b, b2),
    ensures
        cong6(e6add(a, b), e6add(a2, b2)),
{
    lemma_cadd_cong(a.0, a2.0, b.0, b2.0);
    lemma_cadd_cong(a.1, a2.1, b.1, b2.1);
    lemma_cadd_cong(a.2, a2.2, b.2, b2.2);
}

pub(crate) proof fn lemma_e6v_cong(a: C6, a2: C6)
    requires
        cong6(a, a2),
    ensures
        cong6(e6v(a), e6v(a2)),
{
    lemma_cxi_cong(a.2, a2.2);
}

/// `e6mul` respects congruence.
pub(crate) proof fn lemma_e6mul_cong(a: C6, a2: C6, b: C6, b2: C6)
    requires
        cong6(a, a2),
        cong6(b, b2),
    ensures
        cong6(e6mul(a, b), e6mul(a2, b2)),
{
    reveal(e6mul);
    lemma_cmul_cong(a.0, a2.0, b.0, b2.0);
    lemma_cmul_cong(a.0, a2.0, b.1, b2.1);
    lemma_cmul_cong(a.0, a2.0, b.2, b2.2);
    lemma_cmul_cong(a.1, a2.1, b.0, b2.0);
    lemma_cmul_cong(a.1, a2.1, b.1, b2.1);
    lemma_cmul_cong(a.1, a2.1, b.2, b2.2);
    lemma_cmul_cong(a.2, a2.2, b.0, b2.0);
    lemma_cmul_cong(a.2, a2.2, b.1, b2.1);
    lemma_cmul_cong(a.2, a2.2, b.2, b2.2);
    lemma_cadd_cong(cmul(a.1, b.2), cmul(a2.1, b2.2), cmul(a.2, b.1), cmul(a2.2, b2.1));
    lemma_cxi_cong(cadd(cmul(a.1, b.2), cmul(a.2, b.1)), cadd(cmul(a2.1, b2.2), cmul(a2.2, b2.1)));
    lemma_cadd_cong(
        cmul(a.0, b.0),
        cmul(a2.0, b2.0),
        cxi(cadd(cmul(a.1, b.2), cmul(a.2, b.1))),
        cxi(cadd(cmul(a2.1, b2.2), cmul(a2.2, b2.1))),
    );
    lemma_cadd_cong(cmul(a.0, b.1), cmul(a2.0, b2.1), cmul(a.1, b.0), cmul(a2.1, b2.0));
    lemma_cxi_cong(cmul(a.2, b.2), cmul(a2.2, b2.2));
    lemma_cadd_cong(
        cadd(cmul(a.0, b.1), cmul(a.1, b.0)),
        cadd(cmul(a2.0, b2.1), cmul(a2.1, b2.0)),
        cxi(cmul(a.2, b.2)),
        cxi(cmul(a2.2, b2.2)),
    );
    lemma_cadd_cong(cmul(a.0, b.2), cmul(a2.0, b2.2), cmul(a.1, b.1), cmul(a2.1, b2.1));
    lemma_cadd_cong(
        cadd(cmul(a.0, b.2), cmul(a.1, b.1)),
        cadd(cmul(a2.0, b2.2), cmul(a2.1, b2.1)),
        cmul(a.2, b.0),
        cmul(a2.2, b2.0),
    );
}

/// `fq6_mul` is `e6mul` reduced.
pub(crate) proof fn lemma_fq6_mul_cong(a: Fq6V, b: Fq6V)
    ensures
        cong6(iv6(fq6_mul(a, b)), e6mul(iv6(a), iv6(b))),
{
    reveal(e6mul);
    let (a0, a1, a2) = a;
    let (b0, b1, b2) = b;
    lemma_fq2_mul_cong(a0, b0);
    lemma_fq2_mul_cong(a0, b1);
    lemma_fq2_mul_cong(a0, b2);
    lemma_fq2_mul_cong(a1, b0);
    lemma_fq2_mul_cong(a1, b1);
    lemma_fq2_mul_cong(a1, b2);
    lemma_fq2_mul_cong(a2, b0);
    lemma_fq2_mul_cong(a2, b1);
    lemma_fq2_mul_cong(a2, b2);
    // component 0
    let s0 = fq2_add(fq2_mul(a1, b2), fq2_mul(a2, b1));
    lemma_fq2_add_cong(fq2_mul(a1, b2), fq2_mul(a2, b1));
    lemma_cadd_cong(
        iv(fq2_mul(a1, b2)),
        cmul(iv(a1), iv(b2)),
        iv(fq2_mul(a2, b1)),
        cmul(iv(a2), iv(b1)),
    );
    lemma_fq2_mul_xi_cong(s0);
    lemma_cxi_cong(iv(s0), cadd(cmul(iv(a1), iv(b2)), cmul(iv(a2), iv(b1))));
    lemma_fq2_add_cong(fq2_mul(a0, b0), fq2_mul_xi(s0));
    lemma_cadd_cong(
        iv(fq2_mul(a0, b0)),
        cmul(iv(a0), iv(b0)),
        iv(fq2_mul_xi(s0)),
        cxi(cadd(cmul(iv(a1), iv(b2)), cmul(iv(a2), iv(b1)))),
    );
    // component 1
    let t1 = fq2_add(fq2_mul(a0, b1), fq2_mul(a1, b0));
    lemma_fq2_add_cong(fq2_mul(a0, b1), fq2_mul(a1, b0));
    lemma_cadd_cong(
        iv(fq2_mul(a0, b1)),
        cmul(iv(a0), iv(b1)),
        iv(fq2_mul(a1, b0)),
        cmul(iv(a1), iv(b0)),
    );
    lemma_fq2_mul_xi_cong(fq2_mul(a2, b2));
    lemma_cxi_cong(iv(fq2_mul(a2, b2)), cmul(iv(a2), iv(b2)));
    lemma_fq2_add_cong(t1, fq2_mul_xi(fq2_mul(a2, b2)));
    lemma_cadd_cong(
        iv(t1),
        cadd(cmul(iv(a0), iv(b1)), cmul(iv(a1), iv(b0))),
        iv(fq2_mul_xi(fq2_mul(a2, b2))),
        cxi(cmul(iv(a2), iv(b2))),
    );
    // component 2
    let t2 = fq2_add(fq2_mul(a0, b2), fq2_mul(a1, b1));
    lemma_fq2_add_cong(fq2_mul(a0, b2), fq2_mul(a1, b1));
    lemma_cadd_cong(
        iv(fq2_mul(a0, b2)),
        cmul(iv(a0), iv(b2)),
        iv(fq2_mul(a1, b1)),
        cmul(iv(a1), iv(b1)),
    );
    lemma_fq2_add_cong(t2, fq2_mul(a2, b0));
    lemma_cadd_cong(
        iv(t2),
        cadd(cmul(iv(a0), iv(b2)), cmul(iv(a1), iv(b1))),
        iv(fq2_mul(a2, b0)),
        cmul(iv(a2), iv(b0)),
    );
}

/// `fq6_add` is `e6add` reduced.
pub(crate) proof fn lemma_fq6_add_cong(a: Fq6V, b: Fq6V)
    ensures
        cong6(iv6(fq6_add(a, b)), e6add(iv6(a), iv6(b))),
{
    lemma_fq2_add_cong(a.0, b.0);
    lemma_fq2_add_cong(a.1, b.1);
    lemma_fq2_add_cong(a.2, b.2);
}

/// `fq6_mul_by_v` is `e6v` reduced.
pub(crate) proof fn lemma_fq6_mul_by_v_cong(a: Fq6V)
    ensures
        cong6(iv6(fq6_mul_by_v(a)), e6v(iv6(a))),
{
    lemma_fq2_mul_xi_cong(a.2);
}

/// `(x + y) z = x z + y z` in `Fq6`.
pub(crate) proof fn lemma_e6dist_l(x: C6, y: C6, z: C6)
    ensures
        e6mul(e6add(x, y), z) == e6add(e6mul(x, z), e6mul(y, z)),
{
    reveal(e6mul);
    lemma_cdist_l(x.0, y.0, z.0);
    lemma_cdist_l(x.0, y.0, z.1);
    lemma_cdist_l(x.0, y.0, z.2);
    lemma_cdist_l(x.1, y.1, z.0);
    lemma_cdist_l(x.1, y.1, z.1);
    lemma_cdist_l(x.1, y.1, z.2);
    lemma_cdist_l(x.2, y.2, z.0);
    lemma_cdist_l(x.2, y.2, z.1);
    lemma_cdist_l(x.2, y.2, z.2);
}

/// `x (y + z) = x y + x z` in `Fq6`.
pub(crate) proof fn lemma_e6dist_r(x: C6, y: C6, z: C6)
    ensures
        e6mul(x, e6add(y, z)) == e6add(e6mul(x, y), e6mul(x, z)),
{
    reveal(e6mul);
    lemma_cdist_r(x.0, y.0, z.0);
    lemma_cdist_r(x.0, y.1, z.1);
    lemma_cdist_r(x.0, y.2, z.2);
    lemma_cdist_r(x.1, y.0, z.0);
    lemma_cdist_r(x.1, y.1, z.1);
    lemma_cdist_r(x.1, y.2, z.2);
    lemma_cdist_r(x.2, y.0, z.0);
    lemma_cdist_r(x.2, y.1, z.1);
    lemma_cdist_r(x.2, y.2, z.2);
}

/// `(v x) y = v (x y)` in `Fq6`.
pub(crate) proof fn lemma_e6v_l(x: C6, y: C6)
    ensures
        e6mul(e6v(x), y) == e6v(e6mul(x, y)),
{
    reveal(e6mul);
    lemma_cxi_l(x.2, y.0);
    lemma_cxi_l(x.2, y.1);
    lemma_cxi_l(x.2, y.2);
}

/// `x (v y) = v (x y)` in `Fq6`.
pub(crate) proof fn lemma_e6v_r(x: C6, y: C6)
    ensures
        e6mul(x, e6v(y)) == e6v(e6mul(x, y)),
{
    reveal(e6mul);
    lemma_cxi_r(x.0, y.2);
    lemma_cxi_r(x.1, y.2);
    lemma_cxi_r(x.2, y.2);
}

/// `(p + xi (q + r)) w = p w + xi (q w + r w)`
proof fn lemma_expand_l0(p: C2, q: C2, r: C2, w: C2)
    ensures
        cmul(cadd(p, cxi(cadd(q, r))), w) == cadd(cmul(p, w), cxi(cadd(cmul(q, w), cmul(r, w)))),
{
    lemma_cdist_l(p, cxi(cadd(q, r)), w);
    lemma_cxi_l(cadd(q, r), w);
    lemma_cdist_l(q, r, w);
}

/// `((p + q) + xi r) w = (p w + q w) + xi (r w)`
proof fn lemma_expand_l1(p: C2, q: C2, r: C2, w: C2)
    ensures
        cmul(cadd(cadd(p, q), cxi(r)), w) == cadd(cadd(cmul(p, w), cmul(q, w)), cxi(cmul(r, w))),
{
    lemma_cdist_l(cadd(p, q), cxi(r), w);
    lemma_cdist_l(p, q, w);
    lemma_cxi_l(r, w);
}

/// `((p + q) + r) w = (p w + q w) + r w`
proof fn lemma_expand_l2(p: C2, q: C2, r: C2, w: C2)
    ensures
        cmul(cadd(cadd(p, q), r), w) == cadd(cadd(cmul(p, w), cmul(q, w)), cmul(r, w)),
{
    lemma_cdist_l(cadd(p, q), r, w);
    lemma_cdist_l(p, q, w);
}

/// `w (p + xi (q + r)) = w p + xi (w q + w r)`
proof fn lemma_expand_r0(w: C2, p: C2, q: C2, r: C2)
    ensures
        cmul(w, cadd(p, cxi(cadd(q, r)))) == cadd(cmul(w, p), cxi(cadd(cmul(w, q), cmul(w, r)))),
{
    lemma_cdist_r(w, p, cxi(cadd(q, r)));
    lemma_cxi_r(w, cadd(q, r));
    lemma_cdist_r(w, q, r);
}

/// `w ((p + q) + xi r) = (w p + w q) + xi (w r)`
proof fn lemma_expand_r1(w: C2, p: C2, q: C2, r: C2)
    ensures
        cmul(w, cadd(cadd(p, q), cxi(r))) == cadd(cadd(cmul(w, p), cmul(w, q)), cxi(cmul(w, r))),
{
    lemma_cdist_r(w, cadd(p, q), cxi(r));
    lemma_cdist_r(w, p, q);
    lemma_cxi_r(w, r);
}

/// `w ((p + q) + r) = (w p + w q) + w r`
proof fn lemma_expand_r2(w: C2, p: C2, q: C2, r: C2)
    ensures
        cmul(w, cadd(cadd(p, q), r)) == cadd(cadd(cmul(w, p), cmul(w, q)), cmul(w, r)),
{
    lemma_cdist_r(w, cadd(p, q), r);
    lemma_cdist_r(w, p, q);
}

/// Multiplication in `Fq6` over the integers is associative.
pub(crate) proof fn lemma_e6mul_assoc(a: C6, b: C6, c: C6)
    ensures
        e6mul(e6mul(a, b), c) == e6mul(a, e6mul(b, c)),
{
    reveal(e6mul);
    let (a0, a1, a2) = a;
    let (b0, b1, b2) = b;
    let (c0, c1, c2) = c;
    // the products of `a b` with the coefficients of `c`
    lemma_expand_l0(cmul(a0, b0), cmul(a1, b2), cmul(a2, b1), c0);
    lemma_expand_l0(cmul(a0, b0), cmul(a1, b2), cmul(a2, b1), c1);
    lemma_expand_l0(cmul(a0, b0), cmul(a1, b2), cmul(a2, b1), c2);
    lemma_expand_l1(cmul(a0, b1), cmul(a1, b0), cmul(a2, b2), c0);
    lemma_expand_l1(cmul(a0, b1), cmul(a1, b0), cmul(a2, b2), c1);
    lemma_expand_l1(cmul(a0, b1), cmul(a1, b0), cmul(a2, b2), c2);
    lemma_expand_l2(cmul(a0, b2), cmul(a1, b1), cmul(a2, b0), c0);
    lemma_expand_l2(cmul(a0, b2), cmul(a1, b1), cmul(a2, b0), c1);
    lemma_expand_l2(cmul(a0, b2), cmul(a1, b1), cmul(a2, b0), c2);
    // the products of the coefficients of `a` with `b c`
    lemma_expand_r0(a0, cmul(b0, c0), cmul(b1, c2), cmul(b2, c1));
    lemma_expand_r0(a1, cmul(b0, c0), cmul(b1, c2), cmul(b2, c1));
    lemma_expand_r0(a2, cmul(b0, c0), cmul(b1, c2), cmul(b2, c1));
    lemma_expand_r1(a0, cmul(b0, c1), cmul(b1, c0), cmul(b2, c2));
    lemma_expand_r1(a1, cmul(b0, c1), cmul(b1, c0), cmul(b2, c2));
    lemma_expand_r1(a2, cmul(b0, c1), cmul(b1, c0), cmul(b2, c2));
    lemma_expand_r2(a0, cmul(b0, c2), cmul(b1, c1), cmul(b2, c0));
    lemma_expand_r2(a1, cmul(b0, c2), cmul(b1, c1), cmul(b2, c0));
    lemma_expand_r2(a2, cmul(b0, c2), cmul(b1, c1), cmul(b2, c0));
    // every triple product associates
    assert forall|x: C2, y: C2, z: C2| #[trigger] cmul(cmul(x, y), z) == cmul(x, cmul(y, z)) by {
        lemma_cmul_assoc(x, y, z);
    }
    let lhs = e6mul(e6mul(a, b), c);
    let rhs = e6mul(a, e6mul(b, c));
    assert(lhs.0 == rhs.0);
    assert(lhs.1 == rhs.1);
    assert(lhs.2 == rhs.2);
}

// ---------------------------------------------------------------------------------------------
// Fq12
/// The product in `Fq12` over the integers.
#[verifier::opaque]
pub(crate) open spec fn e12mul(a: C12, b: C12) -> C12 {
    (e6add(e6mul(a.0, b.0), e6v(e6mul(a.1, b.1))), e6add(e6mul(a.0, b.1), e6mul(a.1, b.0)))
}

pub(crate) open spec fn cong12(a: C12, b: C12) -> bool {
    cong6(a.0, b.0) && cong6(a.1, b.1)
}

pub(crate) open spec fn iv12(a: Fq12V) -> C12 {
    (iv6(a.0), iv6(a.1))
}

/// `fq12_mul` is `e12mul` reduced.
pub(crate) proof fn lemma_fq12_mul_cong(a: Fq12V, b: Fq12V)
    ensures
        cong12(iv12(fq12_mul(a, b)), e12mul(iv12(a), iv12(b))),
{
    reveal(fq12_mul);
    reveal(e12mul);
    let (a0, a1) = a;
    let (b0, b1) = b;
    lemma_fq6_mul_cong(a0, b0);
    lemma_fq6_mul_cong(a0, b1);
    lemma_fq6_mul_cong(a1, b0);
    lemma_fq6_mul_cong(a1, b1);
    lemma_fq6_mul_by_v_cong(fq6_mul(a1, b1));
    lemma_e6v_cong(iv6(fq6_mul(a1, b1)), e6mul(iv6(a1), iv6(b1)));
    lemma_fq6_add_cong(fq6_mul(a0, b0), fq6_mul_by_v(fq6_mul(a1, b1)));
    lemma_e6add_cong(
        iv6(fq6_mul(a0, b0)),
        e6mul(iv6(a0), iv6(b0)),
        iv6(fq6_mul_by_v(fq6_mul(a1, b1))),
        e6v(e6mul(iv6(a1), iv6(b1))),
    );
    lemma_fq6_add_cong(fq6_mul(a0, b1), fq6_mul(a1, b0));
    lemma_e6add_cong(
        iv6(fq6_mul(a0, b1)),
        e6mul(iv6(a0), iv6(b1)),
        iv6(fq6_mul(a1, b0)),
        e6mul(iv6(a1), iv6(b0)),
    );
}

/// `e12mul` respects congruence.
pub(crate) proof fn lemma_e12mul_cong(a: C12, a2: C12, b: C12, b2: C12)
    requires
        cong12(a, a2),
        cong12(b, b2),
    ensures
        cong12(e12mul(a, b), e12mul(a2, b2)),
{
    reveal(e12mul);
    lemma_e6mul_cong(a.0, a2.0, b.0, b2.0);
    lemma_e6mul_cong(a.0, a2.0, b.1, b2.1);
    lemma_e6mul_cong(a.1, a2.1, b.0, b2.0);
    lemma_e6mul_cong(a.1, a2.1, b.1, b2.1);
    lemma_e6v_cong(e6mul(a.1, b.1), e6mul(a2.1, b2.1));
    lemma_e6add_cong(e6mul(a.0, b.0), e6mul(a2.0, b2.0), e6v(e6mul(a.1, b.1)), e6v(e6mul(a2.1, b2.1)));
    lemma_e6add_cong(e6mul(a.0, b.1), e6mul(a2.0, b2.1), e6mul(a.1, b.0), e6mul(a2.1, b2.0));
}

/// Multiplication in `Fq12` over the integers is associative.
pub(crate) proof fn lemma_e12mul_assoc(a: C12, b: C12, c: C12)
    ensures
        e12mul(e12mul(a, b), c) == e12mul(a, e12mul(b, c)),
{
    reveal(e12mul);
    let (a0, a1) = a;
    let (b0, b1) = b;
    let (c0, c1) = c;
    let ab0 = e6add(e6mul(a0, b0), e6v(e6mul(a1, b1)));
    let ab1 = e6add(e6mul(a0, b1), e6mul(a1, b0));
    let bc0 = e6add(e6mul(b0, c0), e6v(e6mul(b1, c1)));
    let bc1 = e6add(e6mul(b0, c1), e6mul(b1, c0));
    // (a b) c
    lemma_e6dist_l(e6mul(a0, b0), e6v(e6mul(a1, b1)), c0);
    lemma_e6dist_l(e6mul(a0, b0), e6v(e6mul(a1, b1)), c1);
    lemma_e6v_l(e6mul(a1, b1), c0);
    lemma_e6v_l(e6mul(a1, b1), c1);
    lemma_e6dist_l(e6mul(a0, b1), e6mul(a1, b0), c0);
    lemma_e6dist_l(e6mul(a0, b1), e6mul(a1, b0), c1);
    // a (b c)
    lemma_e6dist_r(a0, e6mul(b0, c0), e6v(e6mul(b1, c1)));
    lemma_e6dist_r(a1, e6mul(b0, c0), e6v(e6mul(b1, c1)));
    lemma_e6v_r(a0, e6mul(b1, c1));
    lemma_e6v_r(a1, e6mul(b1, c1));
    lemma_e6dist_r(a0, e6mul(b0, c1), e6mul(b1, c0));
    lemma_e6dist_r(a1, e6mul(b0, c1), e6mul(b1, c0));
    // triple products
    assert forall|x: C6, y: C6, z: C6| #[trigger] e6mul(e6mul(x, y), z) == e6mul(x, e6mul(y, z)) by {
        lemma_e6mul_assoc(x, y, z);
    }
    let lhs = e12mul(e12mul(a, b), c);
    let rhs = e12mul(a, e12mul(b, c));
    assert(lhs.0 == rhs.0);
    assert(lhs.1 == rhs.1);
}

/// Products in `Fq12` are reduced.
pub(crate) proof fn lemma_fq12_mul_reduced(a: Fq12V, b: Fq12V)
    ensures
        fq6_reduced(fq12_mul(a, b).0),
        fq6_reduced(fq12_mul(a, b).1),
{
    reveal(fq12_mul);
    lemma_fq2_mul_bound();
}

/// Reduced congruent elements of `Fq12` are equal.
pub(crate) proof fn lemma_reduced_eq12(a: Fq12V, b: Fq12V)
    requires
        fq6_reduced(a.0),
        fq6_reduced(a.1),
        fq6_reduced(b.0),
        fq6_reduced(b.1),
        cong12(iv12(a), iv12(b)),
    ensures
        a == b,
{
    lemma_reduced_eq(a.0.0, b.0.0);
    lemma_reduced_eq(a.0.1, b.0.1);
    lemma_reduced_eq(a.0.2, b.0.2);
    lemma_reduced_eq(a.1.0, b.1.0);
    lemma_reduced_eq(a.1.1, b.1.1);
    lemma_reduced_eq(a.1.2, b.1.2);
}

/// Multiplication in `Fq12` is associative.
pub(crate) proof fn lemma_fq12_mul_assoc(a: Fq12V, b: Fq12V, c: Fq12V)
    ensures
        fq12_mul(fq12_mul(a, b), c) == fq12_mul(a, fq12_mul(b, c)),
{
    let ab = fq12_mul(a, b);
    let bc = fq12_mul(b, c);
    let (ea, eb, ec) = (iv12(a), iv12(b), iv12(c));
    lemma_fq12_mul_cong(a, b);
    lemma_fq12_mul_cong(b, c);
    lemma_fq12_mul_cong(ab, c);
    lemma_fq12_mul_cong(a, bc);
    lemma_e12mul_cong(iv12(ab), e12mul(ea, eb), ec, ec);
    lemma_e12mul_cong(ea, ea, iv12(bc), e12mul(eb, ec));
    lemma_e12mul_assoc(ea, eb, ec);
    lemma_fq12_mul_reduced(ab, c);
    lemma_fq12_mul_reduced(a, bc);
    lemma_reduced_eq12(fq12_mul(ab, c), fq12_mul(a, bc));
}

/// Multiplication in `Fq6` over the integers is commutative.
pub(crate) proof fn lemma_e6mul_comm(a: C6, b: C6)
    ensures
        e6mul(a, b) == e6mul(b, a),
{
    reveal(e6mul);
    assert forall|x: C2, y: C2| #[trigger] cmul(x, y) == cmul(y, x) by {
        lemma_cmul_comm(x, y);
    }
    let lhs = e6mul(a, b);
    let rhs = e6mul(b, a);
    assert(lhs.0 == rhs.0);
    assert(lhs.1 == rhs.1);
    assert(lhs.2 == rhs.2);
}

/// Multiplication in `Fq12` over the integers is commutative.
pub(crate) proof fn lemma_e12mul_comm(a: C12, b: C12)
    ensures
        e12mul(a, b) == e12mul(b, a),
{
    reveal(e12mul);
    lemma_e6mul_comm(a.0, b.0);
    lemma_e6mul_comm(a.1, b.1);
    lemma_e6mul_comm(a.0, b.1);
    lemma_e6mul_comm(a.1, b.0);
}

/// Multiplication in `Fq12` is commutative.
pub(crate) proof fn lemma_fq12_mul_comm(a: Fq12V, b: Fq12V)
    ensures
        fq12_mul(a, b) == fq12_mul(b, a),
{
    lemma_fq12_mul_cong(a, b);
    lemma_fq12_mul_cong(b, a);
    lemma_e12mul_comm(iv12(a), iv12(b));
    lemma_fq12_mul_reduced(a, b);
    lemma_fq12_mul_reduced(b, a);
    lemma_reduced_eq12(fq12_mul(a, b), fq12_mul(b, a));
}

// ---------------------------------------------------------------------------------------------
// Negation, subtraction and reordering in `Fq2`
pub(crate) open spec fn cneg(a: C2) -> C2 {
    (-a.0, -a.1)
}

pub(crate) open spec fn csub(a: C2, b: C2) -> C2 {
    (a.0 - b.0, a.1 - b.1)
}

pub(crate) proof fn lemma_cneg_l(x: C2, y: C2)
    ensures
        cmul(cneg(x), y) == cneg(cmul(x, y)),
{
    reveal(cmul);
    assert((-x.0) * y.0 - (-x.1) * y.1 == -(x.0 * y.0 - x.1 * y.1)) by (nonlinear_arith);
    assert((-x.0) * y.1 + (-x.1) * y.0 == -(x.0 * y.1 + x.1 * y.0)) by (nonlinear_arith);
}

pub(crate) proof fn lemma_cneg_r(x: C2, y: C2)
    ensures
        cmul(x, cneg(y)) == cneg(cmul(x, y)),
{
    lemma_cmul_comm(x, cneg(y));
    lemma_cneg_l(y, x);
    lemma_cmul_comm(y, x);
}

pub(crate) proof fn lemma_csub_l(x: C2, y: C2, z: C2)
    ensures
        cmul(csub(x, y), z) == csub(cmul(x, z), cmul(y, z)),
{
    lemma_cdist_l(x, cneg(y), z);
    lemma_cneg_l(y, z);
    assert(csub(x, y) == cadd(x, cneg(y)));
}

pub(crate) proof fn lemma_csub_r(x: C2, y: C2, z: C2)
    ensures
        cmul(x, csub(y, z)) == csub(cmul(x, y), cmul(x, z)),
{
    lemma_cdist_r(x, y, cneg(z));
    lemma_cneg_r(x, z);
    assert(csub(y, z) == cadd(y, cneg(z)));
}

/// Every ordering of a triple product equals `(x y) z`.
pub(crate) proof fn lemma_perm3(x: C2, y: C2, z: C2)
    ensures
        cmul(x, cmul(y, z)) == cmul(cmul(x, y), z),
        cmul(x, cmul(z, y)) == cmul(cmul(x, y), z),
        cmul(y, cmul(x, z)) == cmul(cmul(x, y), z),
        cmul(y, cmul(z, x)) == cmul(cmul(x, y), z),
        cmul(z, cmul(x, y)) == cmul(cmul(x, y), z),
        cmul(z, cmul(y, x)) == cmul(cmul(x, y), z),
        cmul(cmul(y, x), z) == cmul(cmul(x, y), z),
        cmul(cmul(x, z), y) == cmul(cmul(x, y), z),
        cmul(cmul(z, x), y) == cmul(cmul(x, y), z),
        cmul(cmul(y, z), x) == cmul(cmul(x, y), z),
        cmul(cmul(z, y), x) == cmul(cmul(x, y), z),
{
    lemma_cmul_assoc(x, y, z);
    lemma_cmul_comm(y, z);
    lemma_cmul_comm(x, y);
    lemma_cmul_assoc(y, x, z);
    lemma_cmul_comm(x, z);
    lemma_cmul_assoc(y, z, x);
    lemma_cmul_comm(cmul(y, z), x);
    lemma_cmul_assoc(x, z, y);
    lemma_cmul_assoc(z, x, y);
    lemma_cmul_assoc(z, y, x);
    lemma_cmul_comm(cmul(x, y), z);
    lemma_cmul_comm(cmul(y, x), z);
    lemma_cmul_comm(cmul(x, z), y);
    lemma_cmul_comm(cmul(z, x), y);
    lemma_cmul_comm(cmul(z, y), x);
}

pub(crate) proof fn lemma_fq2_neg_cong(a: (nat, nat))
    ensures
        cong(iv(fq2_neg(a)), cneg(iv(a))),
{
    lemma_moduli();
    let m = fq_modulus() as int;
    lemma_mod_bound(0 - a.0, m);
    lemma_mod_bound(0 - a.1, m);
    lemma_mod_twice(0 - a.0, m);
    lemma_mod_twice(0 - a.1, m);
}

pub(crate) proof fn lemma_fq2_sub_cong(a: (nat, nat), b: (nat, nat))
    ensures
        cong(iv(fq2_sub(a, b)), csub(iv(a), iv(b))),
{
    lemma_moduli();
    let m = fq_modulus() as int;
    lemma_mod_bound(a.0 - b.0, m);
    lemma_mod_bound(a.1 - b.1, m);
    lemma_mod_twice(a.0 - b.0, m);
    lemma_mod_twice(a.1 - b.1, m);
}

pub(crate) proof fn lemma_cneg_cong(a: C2, a2: C2)
    requires
        cong(a, a2),
    ensures
        cong(cneg(a), cneg(a2)),
{
    lemma_moduli();
    let m = fq_modulus() as int;
    lemma_sub_mod_noop(0, a.0, m);
    lemma_sub_mod_noop(0, a2.0, m);
    lemma_sub_mod_noop(0, a.1, m);
    lemma_sub_mod_noop(0, a2.1, m);
}

pub(crate) proof fn lemma_csub_cong(a: C2, a2: C2, b: C2, b2: C2)
    requires
        cong(a, a2),
        cong(b, b2),
    ensures
        cong(csub(a, b), csub(a2, b2)),
{
    lemma_moduli();
    let m = fq_modulus() as int;
    lemma_sub_mod_noop(a.0, b.0, m);
    lemma_sub_mod_noop(a2.0, b2.0, m);
    lemma_sub_mod_noop(a.1, b.1, m);
    lemma_sub_mod_noop(a2.1, b2.1, m);
}

// ---------------------------------------------------------------------------------------------
// The inverse in `Fq6`
/// The numerators of the inverse of `a`, over the integers.
pub(crate) open spec fn adj_parts(a: C6) -> C6 {
    (
        cadd(cmul(cxi(a.2), cneg(a.1)), cmul(a.0, a.0)),
        csub(cxi(cmul(a.2, a.2)), cmul(a.0, a.1)),
        csub(cmul(a.1, a.1), cmul(a.0, a.2)),
    )
}

/// The denominator of the inverse of `a`, over the integers.
pub(crate) open spec fn adj_den(a: C6) -> C2 {
    let c = adj_parts(a);
    cadd(cadd(cmul(cxi(a.2), c.1), cmul(cxi(a.1), c.2)), cmul(a.0, c.0))
}

/// `a` times its numerators is its denominator.
pub(crate) proof fn lemma_e6_adjugate(a: C6)
    ensures
        e6mul(a, adj_parts(a)) == (adj_den(a), (0int, 0int), (0int, 0int)),
{
    reveal(e6mul);
    let (a0, a1, a2) = a;
    let c = adj_parts(a);
    // component 0
    lemma_cxi_l(a1, c.2);
    lemma_cxi_l(a2, c.1);
    // the products of each coefficient of `a` with the numerators
    lemma_cdist_r(a1, cmul(cxi(a2), cneg(a1)), cmul(a0, a0));
    lemma_cdist_r(a2, cmul(cxi(a2), cneg(a1)), cmul(a0, a0));
    lemma_csub_r(a0, cxi(cmul(a2, a2)), cmul(a0, a1));
    lemma_csub_r(a1, cxi(cmul(a2, a2)), cmul(a0, a1));
    lemma_csub_r(a0, cmul(a1, a1), cmul(a0, a2));
    lemma_csub_r(a2, cmul(a1, a1), cmul(a0, a2));
    // pull `xi` and the sign out of the products
    lemma_cxi_l(a2, cneg(a1));
    lemma_cneg_r(a2, a1);
    lemma_cxi_r(a1, cneg(cmul(a2, a1)));
    lemma_cxi_r(a2, cneg(cmul(a2, a1)));
    lemma_cneg_r(a1, cmul(a2, a1));
    lemma_cneg_r(a2, cmul(a2, a1));
    lemma_cxi_r(a0, cmul(a2, a2));
    lemma_cxi_r(a1, cmul(a2, a2));
    // every triple product in a canonical order
    lemma_perm3(a0, a2, a2);
    lemma_perm3(a0, a0, a1);
    lemma_perm3(a1, a1, a2);
    lemma_perm3(a0, a1, a1);
    lemma_perm3(a0, a0, a2);
    lemma_perm3(a1, a2, a2);
    lemma_perm3(a2, a2, a1);
    lemma_perm3(a2, a1, a1);
    lemma_perm3(a1, a0, a0);
    lemma_perm3(a2, a0, a0);
    lemma_perm3(a2, a0, a2);
    let lhs = e6mul(a, c);
    assert(lhs.0 == adj_den(a));
    assert(lhs.1 == (0int, 0int));
    assert(lhs.2 == (0int, 0int));
}

/// `t` times each coefficient.
pub(crate) open spec fn e6scale(x: C6, t: C2) -> C6 {
    (cmul(t, x.0), cmul(t, x.1), cmul(t, x.2))
}

/// `a (t p) = t (a p)` in `Fq6`, for `t` in `Fq2`.
pub(crate) proof fn lemma_e6_scale_r(a: C6, p: C6, t: C2)
    ensures
        e6mul(a, e6scale(p, t)) == e6scale(e6mul(a, p), t),
{
    reveal(e6mul);
    let (a0, a1, a2) = a;
    let (p0, p1, p2) = p;
    lemma_perm3(t, a0, p0);
    lemma_perm3(t, a0, p1);
    lemma_perm3(t, a0, p2);
    lemma_perm3(t, a1, p0);
    lemma_perm3(t, a1, p1);
    lemma_perm3(t, a1, p2);
    lemma_perm3(t, a2, p0);
    lemma_perm3(t, a2, p1);
    lemma_perm3(t, a2, p2);
    lemma_cdist_r(t, cmul(a0, p0), cxi(cadd(cmul(a1, p2), cmul(a2, p1))));
    lemma_cxi_r(t, cadd(cmul(a1, p2), cmul(a2, p1)));
    lemma_cdist_r(t, cmul(a1, p2), cmul(a2, p1));
    lemma_cdist_r(t, cadd(cmul(a0, p1), cmul(a1, p0)), cxi(cmul(a2, p2)));
    lemma_cdist_r(t, cmul(a0, p1), cmul(a1, p0));
    lemma_cxi_r(t, cmul(a2, p2));
    lemma_cdist_r(t, cadd(cmul(a0, p2), cmul(a1, p1)), cmul(a2, p0));
    lemma_cdist_r(t, cmul(a0, p2), cmul(a1, p1));
    let lhs = e6mul(a, e6scale(p, t));
    let rhs = e6scale(e6mul(a, p), t);
    assert(lhs.0 == rhs.0);
    assert(lhs.1 == rhs.1);
    assert(lhs.2 == rhs.2);
}

/// The numerators of the inverse in `Fq6` are those over the integers, reduced.
pub(crate) proof fn lemma_fq6_inv_parts_cong(a: Fq6V)
    ensures
        cong6(iv6(fq6_inv_parts(a)), adj_parts(iv6(a))),
        cong(iv(fq6_inv_denominator(a)), adj_den(iv6(a))),
{
    let (a0, a1, a2) = a;
    let (x0, x1, x2) = iv6(a);
    let p = fq6_inv_parts(a);
    let ep = adj_parts(iv6(a));
    // numerator 0
    lemma_fq2_mul_xi_cong(a2);
    lemma_fq2_neg_cong(a1);
    lemma_fq2_mul_cong(fq2_mul_xi(a2), fq2_neg(a1));
    lemma_cmul_cong(iv(fq2_mul_xi(a2)), cxi(x2), iv(fq2_neg(a1)), cneg(x1));
    lemma_fq2_mul_cong(a0, a0);
    lemma_fq2_add_cong(fq2_mul(fq2_mul_xi(a2), fq2_neg(a1)), fq2_mul(a0, a0));
    lemma_cadd_cong(
        iv(fq2_mul(fq2_mul_xi(a2), fq2_neg(a1))),
        cmul(cxi(x2), cneg(x1)),
        iv(fq2_mul(a0, a0)),
        cmul(x0, x0),
    );
    // numerator 1
    lemma_fq2_mul_cong(a2, a2);
    lemma_fq2_mul_xi_cong(fq2_mul(a2, a2));
    lemma_cxi_cong(iv(fq2_mul(a2, a2)), cmul(x2, x2));
    lemma_fq2_mul_cong(a0, a1);
    lemma_fq2_sub_cong(fq2_mul_xi(fq2_mul(a2, a2)), fq2_mul(a0, a1));
    lemma_csub_cong(
        iv(fq2_mul_xi(fq2_mul(a2, a2))),
        cxi(cmul(x2, x2)),
        iv(fq2_mul(a0, a1)),
        cmul(x0, x1),
    );
    // numerator 2
    lemma_fq2_mul_cong(a1, a1);
    lemma_fq2_mul_cong(a0, a2);
    lemma_fq2_sub_cong(fq2_mul(a1, a1), fq2_mul(a0, a2));
    lemma_csub_cong(iv(fq2_mul(a1, a1)), cmul(x1, x1), iv(fq2_mul(a0, a2)), cmul(x0, x2));
    assert(cong6(iv6(p), ep));
    // the denominator
    lemma_fq2_mul_xi_cong(a1);
    lemma_fq2_mul_cong(fq2_mul_xi(a2), p.1);
    lemma_cmul_cong(iv(fq2_mul_xi(a2)), cxi(x2), iv(p.1), ep.1);
    lemma_fq2_mul_cong(fq2_mul_xi(a1), p.2);
    lemma_cmul_cong(iv(fq2_mul_xi(a1)), cxi(x1), iv(p.2), ep.2);
    lemma_fq2_mul_cong(a0, p.0);
    lemma_cmul_cong(x0, x0, iv(p.0), ep.0);
    let u = fq2_mul(fq2_mul_xi(a2), p.1);
    let w = fq2_mul(fq2_mul_xi(a1), p.2);
    lemma_fq2_add_cong(u, w);
    lemma_cadd_cong(iv(u), cmul(cxi(x2), ep.1), iv(w), cmul(cxi(x1), ep.2));
    lemma_fq2_add_cong(fq2_add(u, w), fq2_mul(a0, p.0));
    lemma_cadd_cong(
        iv(fq2_add(u, w)),
        cadd(cmul(cxi(x2), ep.1), cmul(cxi(x1), ep.2)),
        iv(fq2_mul(a0, p.0)),
        cmul(x0, ep.0),
    );
}

/// Where `fq6_inv` gives a value, it is an inverse: `a * fq6_inv(a) = 1`.
pub(crate) proof fn lemma_fq6_inv_correct(a: Fq6V)
    ensures
        fq6_inv(a) matches Some(s) ==> fq6_mul(a, s) == fq6_one(),
{
    if fq6_inv(a) is Some {
        let s = fq6_inv(a)->Some_0;
        let d = fq6_inv_denominator(a);
        let p = fq6_inv_parts(a);
        let t = fq2_inv(d);
        let ea = iv6(a);
        let ep = adj_parts(ea);
        let et = iv(t);
        lemma_fq6_inv_parts_cong(a);
        // the inverse is `t` times the numerators
        lemma_fq2_mul_cong(t, p.0);
        lemma_fq2_mul_cong(t, p.1);
        lemma_fq2_mul_cong(t, p.2);
        lemma_cmul_cong(et, et, iv(p.0), ep.0);
        lemma_cmul_cong(et, et, iv(p.1), ep.1);
        lemma_cmul_cong(et, et, iv(p.2), ep.2);
        assert(cong6(iv6(s), e6scale(ep, et)));
        // `a s = t (a p) = t (den, 0, 0)`
        lemma_fq6_mul_cong(a, s);
        lemma_e6mul_cong(ea, ea, iv6(s), e6scale(ep, et));
        lemma_e6_scale_r(ea, ep, et);
        lemma_e6_adjugate(ea);
        // `t den = 1`
        lemma_fq2_inv(d);
        lemma_cmul_comm(et, adj_den(ea));
        lemma_cmul_cong(adj_den(ea), iv(d), et, et);
        lemma_cmul_comm(iv(d), et);
        reveal(cmul);
        assert(cmul(et, (0int, 0int)) == (0int, 0int));
        // reduced congruent values are equal
        lemma_fq2_mul_bound();
        let r = fq6_mul(a, s);
        lemma_moduli();
        lemma_small_mod(0, fq_modulus());
        lemma_small_mod(1, fq_modulus());
        lemma_reduced_eq(r.0, (1nat, 0nat));
        lemma_reduced_eq(r.1, (0nat, 0nat));
        lemma_reduced_eq(r.2, (0nat, 0nat));
    }
}

pub(crate) open spec fn e6neg(a: C6) -> C6 {
    (cneg(a.0), cneg(a.1), cneg(a.2))
}

pub(crate) open spec fn e6sub(a: C6, b: C6) -> C6 {
    (csub(a.0, b.0), csub(a.1, b.1), csub(a.2, b.2))
}

/// `x (-y) = -(x y)` in `Fq6`.
pub(crate) proof fn lemma_e6neg_r(x: C6, y: C6)
    ensures
        e6mul(x, e6neg(y)) == e6neg(e6mul(x, y)),
{
    reveal(e6mul);
    assert forall|u: C2, w: C2| #[trigger] cmul(u, cneg(w)) == cneg(cmul(u, w)) by {
        lemma_cneg_r(u, w);
    }
    let lhs = e6mul(x, e6neg(y));
    let rhs = e6neg(e6mul(x, y));
    assert(lhs.0 == rhs.0);
    assert(lhs.1 == rhs.1);
    assert(lhs.2 == rhs.2);
}

/// `(x - y) z = x z - y z` in `Fq6`.
pub(crate) proof fn lemma_e6sub_l(x: C6, y: C6, z: C6)
    ensures
        e6mul(e6sub(x, y), z) == e6sub(e6mul(x, z), e6mul(y, z)),
{
    reveal(e6mul);
    assert forall|u: C2, w: C2, r: C2| #[trigger] cmul(csub(u, w), r) == csub(cmul(u, r), cmul(w, r)) by {
        lemma_csub_l(u, w, r);
    }
    let lhs = e6mul(e6sub(x, y), z);
    let rhs = e6sub(e6mul(x, z), e6mul(y, z));
    assert(lhs.0 == rhs.0);
    assert(lhs.1 == rhs.1);
    assert(lhs.2 == rhs.2);
}

pub(crate) proof fn lemma_fq6_neg_cong(a: Fq6V)
    ensures
        cong6(iv6(fq6_neg(a)), e6neg(iv6(a))),
{
    lemma_fq2_neg_cong(a.0);
    lemma_fq2_neg_cong(a.1);
    lemma_fq2_neg_cong(a.2);
}

pub(crate) proof fn lemma_fq6_sub_cong(a: Fq6V, b: Fq6V)
    ensures
        cong6(iv6(fq6_sub(a, b)), e6sub(iv6(a), iv6(b))),
{
    lemma_fq2_sub_cong(a.0, b.0);
    lemma_fq2_sub_cong(a.1, b.1);
    lemma_fq2_sub_cong(a.2, b.2);
}

pub(crate) proof fn lemma_e6neg_cong(a: C6, a2: C6)
    requires
        cong6(a, a2),
    ensures
        cong6(e6neg(a), e6neg(a2)),
{
    lemma_cneg_cong(a.0, a2.0);
    lemma_cneg_cong(a.1, a2.1);
    lemma_cneg_cong(a.2, a2.2);
}

pub(crate) proof fn lemma_e6sub_cong(a: C6, a2: C6, b: C6, b2: C6)
    requires
        cong6(a, a2),
        cong6(b, b2),
    ensures
        cong6(e6sub(a, b), e6sub(a2, b2)),
{
    lemma_csub_cong(a.0, a2.0, b.0, b2.0);
    lemma_csub_cong(a.1, a2.1, b.1, b2.1);
    lemma_csub_cong(a.2, a2.2, b.2, b2.2);
}

/// Reduced congruent elements of `Fq6` are equal.
pub(crate) proof fn lemma_reduced_eq6(a: Fq6V, b: Fq6V)
    requires
        fq6_reduced(a),
        fq6_reduced(b),
        cong6(iv6(a), iv6(b)),
    ensures
        a == b,
{
    lemma_reduced_eq(a.0, b.0);
    lemma_reduced_eq(a.1, b.1);
    lemma_reduced_eq(a.2, b.2);
}

/// The product of `(x0, x1)` with `(x0 t, -(x1 t))` in `Fq12` over the integers.
proof fn lemma_e12_inverse_algebra(x0: C6, x1: C6, et: C6)
    ensures
        e6add(e6mul(x0, e6mul(x0, et)), e6v(e6mul(x1, e6neg(e6mul(x1, et))))) == e6mul(
            e6sub(e6mul(x0, x0), e6v(e6mul(x1, x1))),
            et,
        ),
        e6add(e6mul(x0, e6neg(e6mul(x1, et))), e6mul(x1, e6mul(x0, et))) == (
            (0int, 0int),
            (0int, 0int),
            (0int, 0int),
        ),
{
    lemma_e6mul_assoc(x0, x0, et);
    lemma_e6neg_r(x1, e6mul(x1, et));
    lemma_e6mul_assoc(x1, x1, et);
    lemma_e6v_l(e6mul(x1, x1), et);
    lemma_e6sub_l(e6mul(x0, x0), e6v(e6mul(x1, x1)), et);
    lemma_e6neg_r(x0, e6mul(x1, et));
    lemma_e6mul_assoc(x0, x1, et);
    lemma_e6mul_assoc(x1, x0, et);
    lemma_e6mul_comm(x0, x1);
}

/// Where `fq12_inv` gives a value, it is an inverse: `a * fq12_inv(a) = 1`.
pub(crate) proof fn lemma_fq12_inv_correct(a: Fq12V)
    ensures
        fq12_inv(a) matches Some(b) ==> fq12_mul(a, b) == fq12_one(),
{
    if fq12_inv(a) is Some {
        let b = fq12_inv(a)->Some_0;
        let (a0, a1) = a;
        let n = fq6_sub(fq6_mul(a0, a0), fq6_mul_by_v(fq6_mul(a1, a1)));
        let t = fq6_inv(n)->Some_0;
        let (x0, x1, et) = (iv6(a0), iv6(a1), iv6(t));
        let q = fq6_mul(a1, t);
        // the norm `a0^2 - v a1^2`, over the integers
        let en = e6sub(e6mul(x0, x0), e6v(e6mul(x1, x1)));
        lemma_fq6_mul_cong(a0, a0);
        lemma_fq6_mul_cong(a1, a1);
        lemma_fq6_mul_by_v_cong(fq6_mul(a1, a1));
        lemma_e6v_cong(iv6(fq6_mul(a1, a1)), e6mul(x1, x1));
        lemma_fq6_sub_cong(fq6_mul(a0, a0), fq6_mul_by_v(fq6_mul(a1, a1)));
        lemma_e6sub_cong(
            iv6(fq6_mul(a0, a0)),
            e6mul(x0, x0),
            iv6(fq6_mul_by_v(fq6_mul(a1, a1))),
            e6v(e6mul(x1, x1)),
        );
        // `n t = 1`
        lemma_fq6_inv_correct(n);
        lemma_fq6_mul_cong(n, t);
        lemma_e6mul_cong(iv6(n), en, et, et);
        // the inverse over the integers: `(a0 t, -(a1 t))`
        lemma_fq6_mul_cong(a0, t);
        lemma_fq6_mul_cong(a1, t);
        lemma_fq6_neg_cong(q);
        lemma_e6neg_cong(iv6(q), e6mul(x1, et));
        let eb = (e6mul(x0, et), e6neg(e6mul(x1, et)));
        assert(cong12(iv12(b), eb));
        // the product over the integers
        lemma_fq12_mul_cong(a, b);
        lemma_e12mul_cong(iv12(a), iv12(a), iv12(b), eb);
        reveal(e12mul);
        lemma_e12_inverse_algebra(x0, x1, et);
        // reduced values
        let c = fq12_mul(a, b);
        lemma_fq12_mul_reduced(a, b);
        lemma_moduli();
        lemma_small_mod(0, fq_modulus());
        lemma_small_mod(1, fq_modulus());
        assert(cong6(iv6(c.0), iv6(fq6_one())));
        assert(cong6(iv6(c.1), iv6(crate::fq12::fq6_zero())));
        lemma_reduced_eq6(c.0, fq6_one());
        lemma_reduced_eq6(c.1, crate::fq12::fq6_zero());
    }
}

// ---------------------------------------------------------------------------------------------
// One, zero and the products of reduced values
/// Products and sums with one and zero in `Fq2`, for reduced `a`.
pub(crate) proof fn lemma_fq2_units(a: (nat, nat))
    requires
        a.0 < fq_modulus(),
        a.1 < fq_modulus(),
    ensures
        fq2_mul(a, (1nat, 0nat)) == a,
        fq2_mul((1nat, 0nat), a) == a,
        fq2_mul(a, (0nat, 0nat)) == (0nat, 0nat),
        fq2_mul((0nat, 0nat), a) == (0nat, 0nat),
        fq2_add(a, (0nat, 0nat)) == a,
        fq2_add((0nat, 0nat), a) == a,
{
    reveal(fq2_mul);
    lemma_moduli();
    lemma_small_mod(a.0, fq_modulus());
    lemma_small_mod(a.1, fq_modulus());
    lemma_small_mod(0, fq_modulus());
    assert(a.0 * 1 - a.1 * 0 == a.0);
    assert(a.0 * 0 + a.1 * 1 == a.1);
    assert(1 * a.0 - 0 * a.1 == a.0);
    assert(1 * a.1 + 0 * a.0 == a.1);
    assert(a.0 * 0 - a.1 * 0 == 0);
    assert(a.0 * 0 + a.1 * 0 == 0);
    assert(0 * a.0 - 0 * a.1 == 0);
    assert(0 * a.1 + 0 * a.0 == 0);
}

/// Products and sums with one and zero in `Fq6`, for reduced `a`.
pub(crate) proof fn lemma_fq6_units(a: Fq6V)
    requires
        fq6_reduced(a),
    ensures
        fq6_mul(a, fq6_one()) == a,
        fq6_mul(fq6_one(), a) == a,
        fq6_mul(a, fq6_zero()) == fq6_zero(),
        fq6_mul(fq6_zero(), a) == fq6_zero(),
        fq6_add(a, fq6_zero()) == a,
        fq6_add(fq6_zero(), a) == a,
{
    let z = (0nat, 0nat);
    lemma_fq2_units(a.0);
    lemma_fq2_units(a.1);
    lemma_fq2_units(a.2);
    lemma_moduli();
    lemma_fq2_units(z);
    lemma_fq2_units((1nat, 0nat));
    lemma_fq2_units(crate::fq2::fq2_xi());
    assert(fq2_mul_xi(z) == z);
}

/// One is neutral for multiplication in `Fq12`, for reduced `x`.
pub(crate) proof fn lemma_fq12_mul_one(x: Fq12V)
    requires
        fq6_reduced(x.0),
        fq6_reduced(x.1),
    ensures
        fq12_mul(x, fq12_one()) == x,
        fq12_mul(fq12_one(), x) == x,
{
    reveal(fq12_mul);
    lemma_fq6_units(x.0);
    lemma_fq6_units(x.1);
    lemma_moduli();
    lemma_fq6_units(fq6_zero());
    lemma_fq2_units(crate::fq2::fq2_xi());
    assert(fq6_mul_by_v(fq6_zero()) == fq6_zero());
}

/// `(a b)(c d) = (a c)(b d)` in `Fq12`.
pub(crate) proof fn lemma_fq12_mul4(a: Fq12V, b: Fq12V, c: Fq12V, d: Fq12V)
    ensures
        fq12_mul(fq12_mul(a, b), fq12_mul(c, d)) == fq12_mul(fq12_mul(a, c), fq12_mul(b, d)),
{
    lemma_fq12_mul_assoc(a, b, fq12_mul(c, d));
    lemma_fq12_mul_assoc(b, c, d);
    lemma_fq12_mul_comm(b, c);
    lemma_fq12_mul_assoc(c, b, d);
    lemma_fq12_mul_assoc(a, c, fq12_mul(b, d));
}

/// Whether both halves of an element of `Fq12` are reduced.
pub(crate) open spec fn fq12_reduced(a: Fq12V) -> bool {
    fq6_reduced(a.0) && fq6_reduced(a.1)
}

pub(crate) proof fn lemma_fq12_products_reduced()
    ensures
        forall|a: Fq12V, b: Fq12V| #[trigger] fq12_reduced(fq12_mul(a, b)),
        fq12_reduced(fq12_one()),
{
    assert forall|a: Fq12V, b: Fq12V| #[trigger] fq12_reduced(fq12_mul(a, b)) by {
        crate::tower_algebra::lemma_fq12_mul_reduced(a, b);
    }
    lemma_moduli();
}

} // verus!
