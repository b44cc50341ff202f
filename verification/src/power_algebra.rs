//! Powers in `Fq2` and `Fq12`: the square-and-multiply powers equal repeated products, so they
//! add and multiply in the exponent; and one is fixed by powers, inversion and the final
//! exponentiation.
use vstd::prelude::*;
use vstd::arithmetic::div_mod::*;
use crate::fp::{fq_modulus, lemma_moduli};
use crate::fq2::{fq2_inv, fq2_mul, fq2_neg, fq2_norm, fq2_pow, fq2_sqrt, lemma_fq_inv_unique};
use crate::fq12::{
    fq12_conj, fq12_exp_by_neg_z, fq12_final_exp, fq12_final_exp_first, fq12_final_exp_last,
    fq12_frob, fq12_inv, fq12_mul, fq12_one, fq12_pow, fq6_frob, fq6_inv, fq6_inv_denominator,
    fq6_inv_parts, fq6_mul_by_v, fq6_neg, fq6_one, fq6_scale, fq6_sub,
    fq6_zero, Fq12V,
};
use crate::tower_algebra::{
    cmul, iv, lemma_cmul_assoc, lemma_cmul_comm, lemma_cmul_cong, lemma_fq12_mul_assoc,
    lemma_fq12_mul_one, lemma_fq12_products_reduced, lemma_fq2_mul_bound,
    lemma_fq2_mul_cong, lemma_fq2_units, lemma_fq6_units, lemma_reduced_eq, fq12_reduced,
};

verus! {

/// Whether both coordinates of an element of `Fq2` are reduced.
pub(crate) open spec fn fq2_reduced(a: (nat, nat)) -> bool {
    a.0 < fq_modulus() && a.1 < fq_modulus()
}

/// Multiplication in `Fq2` is associative.
pub(crate) proof fn lemma_fq2_mul_assoc(a: (nat, nat), b: (nat, nat), c: (nat, nat))
    ensures
        fq2_mul(fq2_mul(a, b), c) == fq2_mul(a, fq2_mul(b, c)),
{
    let ab = fq2_mul(a, b);
    let bc = fq2_mul(b, c);
    lemma_fq2_mul_cong(a, b);
    lemma_fq2_mul_cong(b, c);
    lemma_fq2_mul_cong(ab, c);
    lemma_fq2_mul_cong(a, bc);
    lemma_cmul_cong(iv(ab), cmul(iv(a), iv(b)), iv(c), iv(c));
    lemma_cmul_cong(iv(a), iv(a), iv(bc), cmul(iv(b), iv(c)));
    lemma_cmul_assoc(iv(a), iv(b), iv(c));
    lemma_fq2_mul_bound();
    lemma_reduced_eq(fq2_mul(ab, c), fq2_mul(a, bc));
}

/// Multiplication in `Fq2` is commutative.
pub(crate) proof fn lemma_fq2_mul_comm(a: (nat, nat), b: (nat, nat))
    ensures
        fq2_mul(a, b) == fq2_mul(b, a),
{
    lemma_fq2_mul_cong(a, b);
    lemma_fq2_mul_cong(b, a);
    lemma_cmul_comm(iv(a), iv(b));
    lemma_fq2_mul_bound();
    lemma_reduced_eq(fq2_mul(a, b), fq2_mul(b, a));
}

/// `x^n` in `Fq2` as `n` products.
pub(crate) open spec fn fq2_pow_lin(x: (nat, nat), n: nat) -> (nat, nat)
    decreases n,
{
    if n == 0 {
        (1, 0)
    } else {
        fq2_mul(x, fq2_pow_lin(x, (n - 1) as nat))
    }
}

proof fn lemma_fq2_lin_reduced(x: (nat, nat), n: nat)
    ensures
        fq2_reduced(fq2_pow_lin(x, n)),
{
    lemma_moduli();
    lemma_fq2_mul_bound();
}

proof fn lemma_fq2_lin_add(x: (nat, nat), m: nat, n: nat)
    ensures
        fq2_pow_lin(x, m + n) == fq2_mul(fq2_pow_lin(x, m), fq2_pow_lin(x, n)),
    decreases m,
{
    if m == 0 {
        lemma_fq2_lin_reduced(x, n);
        lemma_fq2_units(fq2_pow_lin(x, n));
        assert(m + n == n);
    } else {
        let k = (m - 1) as nat;
        lemma_fq2_lin_add(x, k, n);
        assert((m + n - 1) as nat == k + n);
        lemma_fq2_mul_assoc(x, fq2_pow_lin(x, k), fq2_pow_lin(x, n));
    }
}

/// The square-and-multiply power is the repeated product.
pub(crate) proof fn lemma_fq2_pow_lin(x: (nat, nat), n: nat)
    requires
        fq2_reduced(x),
    ensures
        fq2_pow(x, n) == fq2_pow_lin(x, n),
    decreases n,
{
    if n > 0 {
        let h = n / 2;
        lemma_fq2_pow_lin(x, h);
        lemma_fq2_lin_add(x, h, h);
        if n % 2 == 1 {
            assert((n - 1) as nat == h + h);
        } else {
            assert(n == h + h);
        }
    }
}

/// `x^(m + n) = x^m x^n` in `Fq2`.
pub(crate) proof fn lemma_fq2_pow_add(x: (nat, nat), m: nat, n: nat)
    requires
        fq2_reduced(x),
    ensures
        fq2_pow(x, m + n) == fq2_mul(fq2_pow(x, m), fq2_pow(x, n)),
{
    lemma_fq2_pow_lin(x, m + n);
    lemma_fq2_pow_lin(x, m);
    lemma_fq2_pow_lin(x, n);
    lemma_fq2_lin_add(x, m, n);
}

/// `x^n` in `Fq12` as `n` products.
pub(crate) open spec fn fq12_pow_lin(x: Fq12V, n: nat) -> Fq12V
    decreases n,
{
    if n == 0 {
        fq12_one()
    } else {
        fq12_mul(x, fq12_pow_lin(x, (n - 1) as nat))
    }
}

proof fn lemma_fq12_lin_reduced(x: Fq12V, n: nat)
    ensures
        fq12_reduced(fq12_pow_lin(x, n)),
{
    lemma_fq12_products_reduced();
}

proof fn lemma_fq12_lin_add(x: Fq12V, m: nat, n: nat)
    ensures
        fq12_pow_lin(x, m + n) == fq12_mul(fq12_pow_lin(x, m), fq12_pow_lin(x, n)),
    decreases m,
{
    if m == 0 {
        lemma_fq12_lin_reduced(x, n);
        lemma_fq12_mul_one(fq12_pow_lin(x, n));
        assert(m + n == n);
    } else {
        let k = (m - 1) as nat;
        lemma_fq12_lin_add(x, k, n);
        assert((m + n - 1) as nat == k + n);
        lemma_fq12_mul_assoc(x, fq12_pow_lin(x, k), fq12_pow_lin(x, n));
    }
}

proof fn lemma_fq12_lin_mul(x: Fq12V, m: nat, n: nat)
    ensures
        fq12_pow_lin(fq12_pow_lin(x, m), n) == fq12_pow_lin(x, m * n),
    decreases n,
{
    if n == 0 {
        assert(m * n == 0) by (nonlinear_arith)
            requires
                n == 0,
        ;
    } else {
        let k = (n - 1) as nat;
        lemma_fq12_lin_mul(x, m, k);
        assert(m * n == m + m * k) by (nonlinear_arith)
            requires
                k == n - 1,
        ;
        lemma_fq12_lin_add(x, m, m * k);
    }
}

/// The square-and-multiply power is the repeated product.
pub(crate) proof fn lemma_fq12_pow_lin(x: Fq12V, n: nat)
    requires
        fq12_reduced(x),
    ensures
        fq12_pow(x, n) == fq12_pow_lin(x, n),
    decreases n,
{
    if n > 0 {
        let h = n / 2;
        lemma_fq12_pow_lin(x, h);
        lemma_fq12_lin_add(x, h, h);
        if n % 2 == 1 {
            assert((n - 1) as nat == h + h);
        } else {
            assert(n == h + h);
        }
    }
}

/// `x^(m + n) = x^m x^n` in `Fq12`.
pub(crate) proof fn lemma_fq12_pow_add(x: Fq12V, m: nat, n: nat)
    requires
        fq12_reduced(x),
    ensures
        fq12_pow(x, m + n) == fq12_mul(fq12_pow(x, m), fq12_pow(x, n)),
{
    lemma_fq12_pow_lin(x, m + n);
    lemma_fq12_pow_lin(x, m);
    lemma_fq12_pow_lin(x, n);
    lemma_fq12_lin_add(x, m, n);
}

/// `(x^m)^n = x^(m n)` in `Fq12`.
pub(crate) proof fn lemma_fq12_pow_pow(x: Fq12V, m: nat, n: nat)
    requires
        fq12_reduced(x),
    ensures
        fq12_pow(fq12_pow(x, m), n) == fq12_pow(x, m * n),
{
    lemma_fq12_pow_lin(x, m);
    lemma_fq12_lin_reduced(x, m);
    lemma_fq12_pow_lin(fq12_pow(x, m), n);
    lemma_fq12_pow_lin(x, m * n);
    lemma_fq12_lin_mul(x, m, n);
}

/// Zero times anything is zero in `Fq2`.
proof fn lemma_fq2_zero_mul(c: (nat, nat))
    ensures
        fq2_mul((0nat, 0nat), c) == (0nat, 0nat),
{
    reveal(fq2_mul);
    lemma_moduli();
    assert(0 * c.0 - 0 * c.1 == 0);
    assert(0 * c.1 + 0 * c.0 == 0);
    lemma_small_mod(0, fq_modulus());
}

/// One is fixed by the powers of `Fq12`.
pub(crate) proof fn lemma_fq12_pow_one(n: nat)
    ensures
        fq12_pow(fq12_one(), n) == fq12_one(),
    decreases n,
{
    lemma_moduli();
    lemma_fq12_mul_one(fq12_one());
    if n > 0 {
        lemma_fq12_pow_one(n / 2);
    }
}

/// The conjugate and the Frobenius maps fix one.
proof fn lemma_fq12_one_fixed(k: nat)
    ensures
        fq12_conj(fq12_one()) == fq12_one(),
        fq12_frob(fq12_one(), k) == fq12_one(),
{
    lemma_moduli();
    let q = fq_modulus() as int;
    lemma_small_mod(0, fq_modulus());
    lemma_small_mod(1, fq_modulus());
    assert((0int - 0int) % q == 0);
    assert(fq6_neg(fq6_zero()) == fq6_zero());
    lemma_fq2_zero_mul(crate::fq12::fq6_frob_c1(k));
    lemma_fq2_zero_mul(crate::fq12::fq6_frob_c2(k));
    lemma_fq2_zero_mul(crate::fq12::fq12_frob_c1(k));
    assert(crate::fq2::fq2_frob((1nat, 0nat), k) == (1nat, 0nat));
    assert(crate::fq2::fq2_frob((0nat, 0nat), k) == (0nat, 0nat));
    assert(fq6_frob(fq6_one(), k) == fq6_one());
    assert(fq6_frob(fq6_zero(), k) == fq6_zero());
    assert(fq6_scale(fq6_zero(), crate::fq12::fq12_frob_c1(k)) == fq6_zero());
}

/// One is its own inverse in `Fq12`.
pub(crate) proof fn lemma_fq12_inv_one()
    ensures
        fq12_inv(fq12_one()) == Some(fq12_one()),
{
    lemma_moduli();
    let q = fq_modulus() as int;
    let z = (0nat, 0nat);
    let o = (1nat, 0nat);
    lemma_small_mod(0, fq_modulus());
    lemma_small_mod(1, fq_modulus());
    assert((0int - 0int) % q == 0);
    assert((1int - 0int) % q == 1);
    lemma_fq2_units(z);
    lemma_fq2_units(o);
    lemma_fq2_units(crate::fq2::fq2_xi());
    lemma_fq6_units(fq6_one());
    lemma_fq6_units(fq6_zero());
    assert(fq6_mul_by_v(fq6_zero()) == fq6_zero());
    assert(fq6_sub(fq6_one(), fq6_zero()) == fq6_one());
    assert(fq2_neg(z) == z);
    assert(fq6_inv_parts(fq6_one()) == fq6_one());
    assert(fq6_inv_denominator(fq6_one()) == o);
    assert(fq2_norm(o) == 1) by {
        assert(crate::fp::fq_mul(0, 0) == 0);
        assert(crate::fp::fq_mul(0, (fq_modulus() - 1) as nat) == 0);
        assert(crate::fp::fq_mul(1, 1) == 1);
        assert(crate::fp::fq_sub(1, 0) == 1);
    }
    assert((1nat * 1nat) % fq_modulus() == 1);
    lemma_fq_inv_unique(1, 1);
    assert(crate::fp::fq_mul(1, 1) == 1);
    assert(crate::fp::fq_mul(0, 1) == 0);
    assert(crate::fp::fq_neg(0) == 0);
    assert(fq2_inv(o) == o);
    assert(fq6_inv(fq6_one()) == Some(fq6_one()));
    assert(fq6_neg(fq6_zero()) == fq6_zero());
}

/// The final exponentiation takes one to one.
pub(crate) proof fn lemma_fq12_final_exp_one()
    ensures
        fq12_final_exp(fq12_one()) == Some(fq12_one()),
{
    reveal(fq12_final_exp);
    let one = fq12_one();
    lemma_moduli();
    lemma_fq12_mul_one(one);
    lemma_fq12_inv_one();
    lemma_fq12_one_fixed(1);
    lemma_fq12_one_fixed(2);
    lemma_fq12_one_fixed(3);
    lemma_fq12_pow_one(crate::fq12::bn_u());
    assert(fq12_exp_by_neg_z(one) == one);
    assert(fq12_final_exp_first(one) == Some(one));
    assert(fq12_final_exp_last(one) == one);
}

/// `-1` in `Fq2`.
pub(crate) open spec fn fq2_minus_one() -> (nat, nat) {
    ((fq_modulus() - 1) as nat, 0nat)
}

/// `i^2 = -1` and `(-1)^2 = 1` in `Fq2`.
proof fn lemma_fq2_minus_one()
    ensures
        fq2_mul((0nat, 1nat), (0nat, 1nat)) == fq2_minus_one(),
        fq2_mul(fq2_minus_one(), fq2_minus_one()) == (1nat, 0nat),
{
    reveal(fq2_mul);
    lemma_moduli();
    let q = fq_modulus() as int;
    lemma_small_mod(0, fq_modulus());
    lemma_small_mod(1, fq_modulus());
    assert(0int * 0 - 1int * 1 == -1);
    assert(0int * 1 + 1int * 0 == 0);
    lemma_fundamental_div_mod_converse(-1, q, -1, q - 1);
    assert((q - 1) * (q - 1) - 0 * 0 == q * (q - 2) + 1) by (nonlinear_arith);
    lemma_fundamental_div_mod_converse((q - 1) * (q - 1) - 0 * 0, q, q - 2, 1);
    assert((q - 1) * 0 + 0 * (q - 1) == 0);
}

/// The powers of `-1` alternate between `1` and `-1`.
proof fn lemma_fq2_pow_minus_one(n: nat)
    ensures
        fq2_pow(fq2_minus_one(), n) == if n % 2 == 1 {
            fq2_minus_one()
        } else {
            (1nat, 0nat)
        },
    decreases n,
{
    lemma_moduli();
    lemma_fq2_minus_one();
    lemma_fq2_units((1nat, 0nat));
    lemma_fq2_units(fq2_minus_one());
    if n > 0 {
        lemma_fq2_pow_minus_one(n / 2);
    }
}

/// Where `a^((q-1)/2) = -1`, `Fq2::sqrt` finds a root of `a`: a value whose square is `a`.
pub(crate) proof fn lemma_fq2_sqrt_nonresidue_branch(a: (nat, nat))
    requires
        fq2_reduced(a),
        fq2_pow(a, ((fq_modulus() - 1) / 2) as nat) == fq2_minus_one(),
    ensures
        fq2_sqrt(a) matches Some(x) && fq2_mul(x, x) == a,
{
    lemma_moduli();
    let q = fq_modulus();
    let k = ((q - 3) / 4) as nat;
    let m1 = fq2_minus_one();
    let i = (0nat, 1nat);
    let a1 = fq2_pow(a, k);
    let a1a = fq2_mul(a1, a);
    let alpha = fq2_mul(a1, a1a);
    // `alpha = a^(2k + 1) = a^((q-1)/2) = -1`
    lemma_fq2_pow_lin(a, 1);
    reveal_with_fuel(fq2_pow_lin, 2);
    lemma_fq2_units(a);
    assert(fq2_pow(a, 1) == a);
    lemma_fq2_pow_add(a, k, 1);
    lemma_fq2_pow_add(a, k, k + 1);
    assert(k + (k + 1) == ((q - 1) / 2) as nat);
    assert(alpha == m1);
    // `alpha^(q + 1) = 1`, not `-1`
    lemma_fq2_pow_minus_one(q);
    assert(q % 2 == 1);
    lemma_fq2_minus_one();
    assert(fq2_mul(fq2_pow(alpha, q), alpha) == (1nat, 0nat));
    assert(fq2_sqrt(a) == Some(fq2_mul(i, a1a)));
    // `(i a1 a)^2 = i^2 (a1 a)^2 = -(a1 (a1 a)) a = a`
    let x = fq2_mul(i, a1a);
    lemma_fq2_mul_assoc(i, a1a, x);
    lemma_fq2_mul_comm(i, a1a);
    lemma_fq2_mul_assoc(a1a, i, a1a);
    lemma_fq2_mul_comm(fq2_mul(a1a, i), a1a);
    lemma_fq2_mul_assoc(a1a, a1a, i);
    lemma_fq2_mul_comm(fq2_mul(a1a, a1a), i);
    lemma_fq2_mul_assoc(i, i, fq2_mul(a1a, a1a));
    assert(fq2_mul(x, x) == fq2_mul(m1, fq2_mul(a1a, a1a)));
    lemma_fq2_mul_assoc(a1, a, a1a);
    lemma_fq2_mul_comm(a, a1a);
    lemma_fq2_mul_assoc(a1, a1a, a);
    assert(fq2_mul(a1a, a1a) == fq2_mul(m1, a));
    lemma_fq2_mul_assoc(m1, m1, a);
}

} // verus!
