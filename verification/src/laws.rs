//! Laws that relate the operations of the library to one another, stated over the models that
//! their contracts use.
use vstd::prelude::*;
use vstd::arithmetic::div_mod::*;
use vstd::arithmetic::power2::*;
use crate::arith::{be_val, nat_bit, nat_with_bit, U256};
use crate::fp::{
    fq_add, fq_modulus, fq_mul, fq_neg, fq_sub, fr_modulus, fr_raw, lemma_fr_value_raw,
    lemma_moduli, Fq, Fr,
};
use crate::fq2::{fq2_add, fq2_inv, fq2_mul, fq2_neg, fq2_norm, fq2_pow, fq2_sub, fq_inv, Fq2};
use crate::fq12::{fq12_mul, fq12_one, fq12_pow, Fq12V};
use crate::power_algebra::{
    lemma_fq12_final_exp_one, lemma_fq12_inv_one, lemma_fq12_pow_add, lemma_fq12_pow_lin,
    lemma_fq12_pow_one, lemma_fq12_pow_pow, lemma_fq2_pow_add, lemma_fq2_pow_lin,
};
use crate::g1::{
    g1_add, g1_decompress, g1_eq, g1_is_zero, g1_mul, g1_neg, g1_to_affine, g1_zero, AffineG1, G1,
};
use crate::g2::{
    g2_add, g2_decompress, g2_eq, g2_is_zero, g2_mul, g2_neg, g2_to_affine, g2_zero, AffineG2, G2,
};
use crate::modular::has_inverse;
use crate::pairing::{
    batch_affine, g1_affines, g1g2_views, g2_affines, g2_precompute, g2g1_views, line_value,
    miller_loop_value, miller_prefix, mul_lines, naf_step, pairing_batch_spec, pairing_spec,
    prefix_len, AffFq2, Gt,
};
use crate::tower_algebra::{
    cmul, cong, fq12_reduced, iv, lemma_cmul_assoc, lemma_cmul_comm, lemma_cmul_cong,
    lemma_fq12_mul4, lemma_fq12_mul_assoc, lemma_fq12_mul_comm, lemma_fq12_mul_one,
    lemma_fq12_products_reduced, lemma_fq2_inv, lemma_fq2_mul_bound, lemma_fq2_mul_cong,
    lemma_fq2_units, lemma_fq_inv, lemma_reduced_eq, lemma_reduced_zero,
};

verus! {

/// `-a` is `q - a`, and `0` for `a = 0`.
proof fn lemma_fq_neg_value(a: nat)
    requires
        a < fq_modulus(),
    ensures
        fq_neg(a) == if a == 0 {
            0
        } else {
            (fq_modulus() - a) as nat
        },
{
    lemma_moduli();
    let q = fq_modulus() as int;
    if a == 0 {
        lemma_small_mod(0, fq_modulus());
    } else {
        lemma_fundamental_div_mod_converse(0 - a, q, -1, q - a);
    }
}

/// Negation in `Fq` undoes itself: `-(-a) == a`.
pub proof fn fq_neg_involutive(a: Fq)
    ensures
        fq_neg(fq_neg(a@)) == a@,
{
    Fq::lemma_view_bound(a);
    lemma_fq_neg_value(a@);
    lemma_moduli();
    lemma_fq_neg_value(fq_neg(a@));
}

/// An element plus its negation is zero: `a + (-a) == 0`.
pub proof fn fq_add_neg(a: Fq)
    ensures
        fq_add(a@, fq_neg(a@)) == 0,
{
    Fq::lemma_view_bound(a);
    lemma_fq_neg_value(a@);
    lemma_moduli();
    if a@ == 0 {
        lemma_small_mod(0, fq_modulus());
    } else {
        lemma_mod_self_0(fq_modulus() as int);
    }
}

/// Subtraction undoes addition: `(a + b) - b == a`.
pub proof fn fq_add_sub(a: Fq, b: Fq)
    ensures
        fq_sub(fq_add(a@, b@), b@) == a@,
{
    Fq::lemma_view_bound(a);
    Fq::lemma_view_bound(b);
    lemma_moduli();
    let q = fq_modulus() as int;
    let s: int = (a@ + b@) as int;
    if s < q {
        lemma_small_mod(s as nat, fq_modulus());
        lemma_small_mod(a@, fq_modulus());
    } else {
        lemma_fundamental_div_mod_converse(s, q, 1, s - q);
        lemma_fundamental_div_mod_converse(s - q - b@, q, -1, a@ as int);
    }
}

/// One is neutral for multiplication: `a * 1 == a`.
pub proof fn fq_mul_one(a: Fq)
    ensures
        fq_mul(a@, 1) == a@,
{
    Fq::lemma_view_bound(a);
    lemma_moduli();
    lemma_small_mod(a@, fq_modulus());
}

/// An inverse modulo `m` is unique among reduced values: `a x = 1` and `a y = 1` give `x = y`.
proof fn lemma_inverse_unique(a: int, x: int, y: int, m: int)
    requires
        m > 1,
        0 <= x < m,
        0 <= y < m,
        (a * x) % m == 1,
        (a * y) % m == 1,
    ensures
        x == y,
{
    // x = x (a y) = (x a) y = y
    lemma_mul_mod_noop_right(x, a * y, m);
    lemma_mul_mod_noop_left(x * a, y, m);
    assert(x * (a * y) == (a * x) * y) by (nonlinear_arith);
    lemma_mul_mod_noop_left(a * x, y, m);
    lemma_small_mod(x as nat, m as nat);
    lemma_small_mod(y as nat, m as nat);
    assert(x * 1 == x);
    assert(1 * y == y);
}

/// Inverting an element of `Fq` twice gives it back: where `a x = 1` and `x y = 1`, `y = a`.
pub proof fn fq_inverse_involutive(a: Fq, x: Fq, y: Fq)
    requires
        (a@ * x@) % fq_modulus() == 1,
        (x@ * y@) % fq_modulus() == 1,
    ensures
        y@ == a@,
{
    Fq::lemma_view_bound(a);
    Fq::lemma_view_bound(x);
    Fq::lemma_view_bound(y);
    lemma_moduli();
    assert(x@ * a@ == a@ * x@) by (nonlinear_arith);
    lemma_inverse_unique(x@ as int, a@ as int, y@ as int, fq_modulus() as int);
}

/// Inverting an element of `Fr` twice gives it back: where `a x = 1` and `x y = 1`, `y = a`.
pub proof fn fr_inverse_involutive(a: Fr, x: Fr, y: Fr)
    requires
        (a@ * x@) % fr_modulus() == 1,
        (x@ * y@) % fr_modulus() == 1,
    ensures
        y@ == a@,
{
    Fr::lemma_view_bound(a);
    Fr::lemma_view_bound(x);
    Fr::lemma_view_bound(y);
    lemma_moduli();
    assert(x@ * a@ == a@ * x@) by (nonlinear_arith);
    lemma_inverse_unique(x@ as int, a@ as int, y@ as int, fr_modulus() as int);
}

/// What `Fq::to_big_endian` writes, `Fq::from_slice` reads back: the 32 bytes hold the value
/// of `a`, which is below `q`.
pub proof fn fq_bytes_round_trip(a: Fq, bytes: Seq<u8>)
    requires
        bytes.len() == 32,
        be_val(bytes) == a@,
    ensures
        be_val(bytes) < fq_modulus(),
{
    Fq::lemma_view_bound(a);
}

/// `Fq::from_u256` takes back what `Fq::into_u256` gives.
pub proof fn fq_u256_round_trip(a: Fq, u: U256)
    requires
        u@ == a@,
    ensures
        u@ < fq_modulus(),
{
    Fq::lemma_view_bound(a);
}

/// `Fr::new` takes back what `Fr::into_u256` gives.
pub proof fn fr_u256_round_trip(a: Fr, u: U256)
    requires
        u@ == a@,
    ensures
        u@ < fr_modulus(),
{
    Fr::lemma_view_bound(a);
}

/// Elements of `Fr` that arithmetic made are equal exactly where their values, what
/// `Fr::into_u256` gives, are equal; so `Fr::new` takes back what `Fr::into_u256` gives.
pub proof fn fr_value_determines(a: Fr, b: Fr)
    requires
        a.canonical(),
        b.canonical(),
    ensures
        (a@ == b@) == (a == b),
{
    Fr::lemma_canonical_eq(a, b);
}

/// `Fr::to_big_endian` writes the stored Montgomery word, so `Fr::from_slice` reads its bytes
/// back as `a * 2^256` modulo `r`, whether or not the word was reduced.
pub proof fn fr_bytes_read_back(a: Fr, bytes: Seq<u8>)
    requires
        bytes.len() == 32,
        be_val(bytes) == a.raw_word(),
    ensures
        be_val(bytes) % fr_modulus() == fr_raw(a@),
{
    Fr::lemma_view_raw(a);
    lemma_fr_value_raw(a.raw_word());
}

/// Two 256-bit integers with the same value are the same: what `U256::to_big_endian` writes,
/// `U256::from_slice` reads back as the same integer.
pub proof fn u256_bytes_round_trip(x: U256, y: U256, bytes: Seq<u8>)
    requires
        be_val(bytes) == x@,
        y@ == be_val(bytes),
    ensures
        y == x,
{
    U256::lemma_view_injective(x, y);
}

/// Two byte strings of one length with the same big-endian value are the same bytes: the bytes
/// that `to_big_endian` writes are fixed by the value.
pub proof fn be_bytes_determined(s: Seq<u8>, t: Seq<u8>)
    requires
        s.len() == t.len(),
        be_val(s) == be_val(t),
    ensures
        s == t,
    decreases s.len(),
{
    if s.len() == 0 {
        assert(s =~= t);
    } else {
        let (hs, ht) = (be_val(s.drop_last()) as int, be_val(t.drop_last()) as int);
        let (ls, lt) = (s.last() as int, t.last() as int);
        assert(hs * 256 + ls == ht * 256 + lt);
        lemma_fundamental_div_mod_converse(be_val(s) as int, 256, hs, ls);
        lemma_fundamental_div_mod_converse(be_val(s) as int, 256, ht, lt);
        be_bytes_determined(s.drop_last(), t.drop_last());
        assert(s =~= s.drop_last().push(s.last()));
        assert(t =~= t.drop_last().push(t.last()));
    }
}

/// What `Fq::from_slice` reads from 32 bytes below `q`, `Fq::to_big_endian` writes back as the
/// same 32 bytes.
pub proof fn fq_bytes_write_back(a: Fq, read: Seq<u8>, written: Seq<u8>)
    requires
        read.len() == 32,
        written.len() == 32,
        a@ == be_val(read),
        be_val(written) == a@,
    ensures
        written == read,
{
    be_bytes_determined(written, read);
}

/// After `set_bit(n, b)`, bit `n` reads `b`.
pub proof fn u256_set_bit_get_bit(x: nat, n: nat, b: bool)
    ensures
        nat_bit(nat_with_bit(x, n, b), n) == b,
{
    let p = pow2(n);
    lemma_pow2_pos(n);
    let k = x / p;
    let lo = x % p;
    lemma_fundamental_div_mod(x as int, p as int);
    let bit_x = nat_bit(x, n);
    let y = nat_with_bit(x, n, b);
    let k2 = (k - (if bit_x { 1int } else { 0int }) + (if b { 1int } else { 0int }));
    assert(k % 2 == 1 <==> bit_x);
    assert(k2 >= 0) by {
        if bit_x {
            assert(k % 2 == 1);
        }
    }
    assert(y == p * k2 + lo) by {
        if bit_x {
            assert(x >= p) by {
                assert(k >= 1);
                assert(p * k >= p) by (nonlinear_arith)
                    requires
                        k >= 1,
                        p > 0,
                ;
            }
        }
        assert(p * k2 == p * k - (if bit_x { p as int } else { 0int }) + (if b { p as int } else { 0int })) by (nonlinear_arith)
            requires
                k2 == (k - (if bit_x { 1int } else { 0int }) + (if b { 1int } else { 0int })),
        ;
    }
    lemma_fundamental_div_mod_converse(y as int, p as int, k2, lo as int);
    assert(k2 % 2 == 1 <==> b) by {
        lemma_fundamental_div_mod(k as int, 2);
        let h: int = (k / 2) as int;
        lemma_fundamental_div_mod_converse(k2, 2, h, if b { 1int } else { 0int });
    }
}

/// The square of `i` is `-1`.
pub proof fn fq2_i_squared()
    ensures
        fq2_mul((0, 1), (0, 1)) == ((fq_modulus() - 1) as nat, 0nat),
{
    reveal(fq2_mul);
    lemma_moduli();
    let q = fq_modulus() as int;
    lemma_fundamental_div_mod_converse(-1, q, -1, q - 1);
    lemma_small_mod(0, fq_modulus());
    assert(0int * 0 - 1int * 1 == -1);
    assert(0int * 1 + 1int * 0 == 0);
    assert((-1int) % q == q - 1);
}

proof fn lemma_fq2_neg_neg(a: (nat, nat))
    requires
        a.0 < fq_modulus(),
        a.1 < fq_modulus(),
    ensures
        fq2_neg(fq2_neg(a)) == a,
{
    lemma_moduli();
    lemma_fq_neg_value(a.0);
    lemma_fq_neg_value(a.1);
    lemma_fq_neg_value(fq_neg(a.0));
    lemma_fq_neg_value(fq_neg(a.1));
}

/// Negation in `Fq2` undoes itself.
pub proof fn fq2_neg_involutive(a: Fq2)
    ensures
        fq2_neg(fq2_neg(a@)) == a@,
{
    Fq2::lemma_view_bound(a);
    lemma_fq2_neg_neg(a@);
}

/// What `Fq2::inverse` gives is an inverse: `a * a^-1 = 1` wherever the norm of `a` has an
/// inverse.
pub proof fn fq2_inverse_is_inverse(a: Fq2)
    requires
        has_inverse(fq2_norm(a@), fq_modulus()),
    ensures
        fq2_mul(a@, fq2_inv(a@)) == (1nat, 0nat),
{
    lemma_moduli();
    lemma_fq2_inv(a@);
    lemma_fq2_mul_cong(a@, fq2_inv(a@));
    lemma_fq2_mul_bound();
    lemma_small_mod(1, fq_modulus());
    lemma_reduced_eq(fq2_mul(a@, fq2_inv(a@)), (1nat, 0nat));
}

/// `Fq2::pow` multiplies `x` by itself `e` times: `x^0 = 1`, `x^1 = x`, `x^(e + 1) = x^e x`,
/// and `x^(m + n) = x^m x^n`.
pub proof fn fq2_pow_laws(x: Fq2, e: nat, m: nat, n: nat)
    ensures
        fq2_pow(x@, 0) == (1nat, 0nat),
        fq2_pow(x@, 1) == x@,
        fq2_pow(x@, e + 1) == fq2_mul(fq2_pow(x@, e), x@),
        fq2_pow(x@, m + n) == fq2_mul(fq2_pow(x@, m), fq2_pow(x@, n)),
{
    Fq2::lemma_view_bound(x);
    lemma_moduli();
    lemma_fq2_units(x@);
    lemma_fq2_pow_lin(x@, 1);
    reveal_with_fuel(fq2_pow, 2);
    reveal_with_fuel(crate::power_algebra::fq2_pow_lin, 2);
    assert(fq2_pow(x@, 0) == (1nat, 0nat));
    lemma_fq2_pow_add(x@, e, 1);
    lemma_fq2_pow_add(x@, m, n);
}

/// `Fq2::sqrt` finds a square root of every `a` with `a^((q-1)/2) = -1`: a value whose square
/// is `a`.
pub proof fn fq2_sqrt_squares_back(a: Fq2)
    requires
        fq2_pow(a@, ((fq_modulus() - 1) / 2) as nat) == ((fq_modulus() - 1) as nat, 0nat),
    ensures
        crate::fq2::fq2_sqrt(a@) matches Some(x) && fq2_mul(x, x) == a@,
{
    Fq2::lemma_view_bound(a);
    crate::power_algebra::lemma_fq2_sqrt_nonresidue_branch(a@);
}

/// Negation on `G1` undoes itself, coordinates and all.
pub proof fn g1_neg_involutive(p: G1)
    ensures
        g1_neg(g1_neg(p@)) == p@,
{
    G1::lemma_view_bound(p);
    lemma_moduli();
    lemma_fq_neg_value(p@.1);
    lemma_fq_neg_value(fq_neg(p@.1));
}

/// The point at infinity is neutral for addition on `G1`: `0 + p` is `p` itself, and `p + 0`
/// stands for the same point as `p`.
pub proof fn g1_add_zero(p: G1)
    ensures
        g1_add(g1_zero(), p@) == p@,
        g1_eq(g1_add(p@, g1_zero()), p@),
{
}

/// Scalar multiplication on `G1` by zero gives the point at infinity, and by one the point
/// itself.
pub proof fn g1_mul_zero_one(p: G1)
    ensures
        g1_mul(p@, 0) == g1_zero(),
        g1_mul(p@, 1) == p@,
{
    assert(g1_mul(p@, 1) == g1_add(g1_mul(p@, 0), p@));
}

/// Addition on `G1` is commutative: `p + q` and `q + p` stand for the same point. Where `p` and
/// `q` are one point away from infinity, the formula doubles `p` or `q`; there it is stated for
/// points whose `z` has an inverse modulo `q` (as every nonzero `z` has, `q` being prime).
pub proof fn g1_add_commutative(p: G1, q: G1)
    requires
        g1_eq(p@, q@) && !g1_is_zero(p@) ==> has_inverse(p@.2, fq_modulus()) && has_inverse(
            q@.2,
            fq_modulus(),
        ),
    ensures
        g1_eq(g1_add(p@, q@), g1_add(q@, p@)),
{
    G1::lemma_view_bound(p);
    G1::lemma_view_bound(q);
    if !g1_is_zero(p@) && !g1_is_zero(q@) && crate::group_algebra::g1_doubling_case(p@, q@) {
        crate::group_algebra::lemma_g1_add_comm_doubling(p@, q@);
    } else {
        crate::group_algebra::lemma_g1_add_comm_distinct(p@, q@);
    }
}

/// The sum of two affine points of `G1` with different `x` is their chord sum, as in the affine
/// group law: with `l = (y2 - y1) / (x2 - x1)`, the point `(l^2 - x1 - x2, l (x1 - x3) - y1)`.
/// It is stated where `x2 - x1` has an inverse modulo `q` (as every nonzero value has, `q` being
/// prime).
pub proof fn g1_add_is_chord(a: AffineG1, b: AffineG1)
    requires
        has_inverse(fq_sub(b@.0, a@.0), fq_modulus()),
    ensures
        g1_to_affine(g1_add((a@.0, a@.1, 1nat), (b@.0, b@.1, 1nat))) == Some(
            crate::g1::g1_chord(a@, b@),
        ),
{
    AffineG1::lemma_view_bound(a);
    AffineG1::lemma_view_bound(b);
    crate::group_algebra::lemma_g1_add_chord(a@, b@);
}

/// An affine point of `G1` added to itself gives its tangent double, as in the affine group
/// law: with `l = 3 x^2 / (2 y)`, the point `(l^2 - 2 x, l (x - x3) - y)`. It is stated where
/// `2 y` has an inverse modulo `q` (as every nonzero value has, `q` being prime).
pub proof fn g1_double_is_tangent(a: AffineG1)
    requires
        has_inverse(fq_add(a@.1, a@.1), fq_modulus()),
    ensures
        g1_to_affine(g1_add((a@.0, a@.1, 1nat), (a@.0, a@.1, 1nat))) == Some(
            crate::g1::g1_tangent(a@),
        ),
{
    AffineG1::lemma_view_bound(a);
    let p = (a@.0, a@.1, 1nat);
    assert(g1_add(p, p) == crate::g1::g1_double(p));
    crate::group_algebra::lemma_g1_double_tangent(a@);
}

/// Adding a point of `G1` to itself is multiplying it by two: the same coordinates away from
/// infinity, and the point at infinity at infinity.
pub proof fn g1_add_self_is_double(p: G1)
    ensures
        g1_eq(g1_add(p@, p@), g1_mul(p@, 2)),
        !g1_is_zero(p@) ==> g1_add(p@, p@) == g1_mul(p@, 2),
{
    reveal_with_fuel(g1_mul, 3);
    assert(g1_mul(p@, 1) == p@) by {
        g1_mul_zero_one(p);
    }
    if g1_is_zero(p@) {
        lemma_moduli();
        lemma_small_mod(0, fq_modulus());
        assert(fq_mul(p@.1, 0) == 0);
        assert(fq_add(0, 0) == 0);
    }
}

/// An affine point made Jacobian by `G1::from` converts back to itself.
pub proof fn g1_affine_round_trip(a: AffineG1)
    ensures
        g1_to_affine((a@.0, a@.1, 1nat)) == Some(a@),
{
}

/// The sign byte of a compressed `G1` point picks between a point and its negation: where both
/// `2` and `3` decode, the one point is the negation of the other.
pub proof fn g1_decompress_sign(x: Seq<u8>)
    requires
        x.len() == 32,
        g1_decompress(seq![2u8] + x) is Ok,
        g1_decompress(seq![3u8] + x) is Ok,
    ensures
        g1_decompress(seq![3u8] + x) == Ok::<(nat, nat, nat), crate::CurveError>(
            g1_neg(g1_decompress(seq![2u8] + x)->Ok_0),
        ),
{
    let b2 = seq![2u8] + x;
    let b3 = seq![3u8] + x;
    assert(b2.subrange(1, 33) =~= x);
    assert(b3.subrange(1, 33) =~= x);
    lemma_moduli();
    let y0 = crate::fp::fq_sqrt(fq_add(fq_mul(fq_mul(be_val(x), be_val(x)), be_val(x)), 3)).unwrap();
    assert(y0 < fq_modulus()) by {
        lemma_mod_bound(
            vstd::arithmetic::power::pow(
                fq_add(fq_mul(fq_mul(be_val(x), be_val(x)), be_val(x)), 3) as int,
                ((fq_modulus() + 1) / 4) as nat,
            ),
            fq_modulus() as int,
        );
    }
    lemma_fq_neg_value(y0);
    lemma_fq_neg_value(fq_neg(y0));
}

/// `a c = 0` and `c w = 1` modulo `m` give `a = 0` modulo `m`.
proof fn lemma_cancel_unit(a: int, c: int, w: int, m: int)
    requires
        m > 1,
        (a * c) % m == 0,
        (c * w) % m == 1,
    ensures
        a % m == 0,
{
    lemma_mul_mod_noop_right(a, c * w, m);
    assert(a * 1 == a);
    assert(a * (c * w) == (a * c) * w) by (nonlinear_arith);
    lemma_mul_mod_noop_left(a * c, w, m);
    assert(0 * w == 0);
    lemma_small_mod(0, m as nat);
}

/// `z w = 1` modulo `m` gives `(z (z z mod m) mod m) w^3 = 1` modulo `m`.
proof fn lemma_cube_unit(z: int, w: int, m: int)
    requires
        m > 1,
        (z * w) % m == 1,
    ensures
        ((z * ((z * z) % m)) % m * (w * w * w)) % m == 1,
{
    let c0 = z * ((z * z) % m);
    let ww = w * w * w;
    lemma_mul_mod_noop_left(c0, ww, m);
    lemma_mul_mod_noop_right(z, z * z, m);
    lemma_mul_mod_noop_left(z * (z * z), ww, m);
    let t = z * w;
    assert(z * (z * z) * ww == t * t * t) by (nonlinear_arith)
        requires
            t == z * w,
            ww == w * w * w,
    ;
    lemma_mul_mod_noop(t, t, m);
    lemma_mul_mod_noop(t * t, t, m);
    lemma_small_mod(1, m as nat);
}

/// A point of `G1` minus itself is the point at infinity, for every point with an invertible
/// `z` (every point at all, `q` being prime).
pub proof fn g1_sub_self(p: G1)
    requires
        p@.2 == 0 || has_inverse(p@.2, fq_modulus()),
    ensures
        g1_is_zero(g1_add(p@, g1_neg(p@))),
{
    G1::lemma_view_bound(p);
    lemma_moduli();
    let m = fq_modulus() as int;
    let (x, y, z) = (p@.0, p@.1, p@.2);
    if z != 0 {
        let z1s = fq_mul(z, z);
        let z1c = fq_mul(z, z1s);
        let u = fq_mul(x, z1s);
        let s1 = fq_mul(y, z1c);
        let s2 = fq_mul(fq_neg(y), z1c);
        if s1 == s2 {
            // the doubling branch: 2 y z^3 = 0 forces 2 y = 0
            lemma_fq_neg_value(y);
            let w = choose|w: nat| #[trigger] ((z * w) % (m as nat)) == 1;
            let yz = fq_mul(y, z);
            if y != 0 {
                let c = z1c as int;
                assert((2 * y * c) % m == 0) by {
                    lemma_add_mod_noop(y * c, (m - y) * c, m);
                    assert(y * c + (m - y) * c == m * c) by (nonlinear_arith);
                    lemma_mod_multiples_basic(c, m);
                    assert(m * c == c * m) by (nonlinear_arith);
                    lemma_mul_mod_noop_right(2, y * c, m);
                    assert(2 * (y * c) == 2 * y * c) by (nonlinear_arith);
                    assert(((s1 + s2) as int) % m == ((2 * s1) as int) % m);
                }
                lemma_cube_unit(z as int, w as int, m);
                lemma_cancel_unit(2 * (y as int), c, (w * w * w) as int, m);
                lemma_mul_mod_noop_left(2 * (y as int), z as int, m);
                assert(0 * z == 0);
                lemma_small_mod(0, fq_modulus());
                lemma_add_mod_noop((y * z) as int, (y * z) as int, m);
                assert(y * z + y * z == 2 * y * z) by (nonlinear_arith);
            } else {
                lemma_small_mod(0, fq_modulus());
            }
            assert(fq_add(yz, yz) == 0);
        } else {
            // the general branch: equal x coordinates give `h = 0`, hence `z3 = 0`
            lemma_mod_self_0(m);
            lemma_small_mod(0, fq_modulus());
            assert(fq_sub(u, u) == 0);
            assert(forall|a: nat| fq_mul(a, 0) == 0);
        }
    }
}

/// `x w^2 z^2 = x` modulo `m` where `z w = 1`, with the reductions that `fq_mul` makes.
proof fn lemma_unit_square(x: int, z: int, w: int, m: int)
    requires
        m > 1,
        (z * w) % m == 1,
    ensures
        ((x * ((w * w) % m)) % m * ((z * z) % m)) % m == x % m,
{
    lemma_mul_mod_noop_right(x, w * w, m);
    lemma_mul_mod_noop_left(x * (w * w), (z * z) % m, m);
    lemma_mul_mod_noop_right(x * (w * w), z * z, m);
    let t = z * w;
    assert(x * (w * w) * (z * z) == x * (t * t)) by (nonlinear_arith)
        requires
            t == z * w,
    ;
    lemma_mul_mod_noop(t, t, m);
    lemma_small_mod(1, m as nat);
    lemma_mul_mod_noop_right(x, t * t, m);
    assert(x * 1 == x);
}

/// `y w^3 z^3 = y` modulo `m` where `z w = 1`, with the reductions that `fq_mul` makes.
proof fn lemma_unit_cube(y: int, z: int, w: int, m: int)
    requires
        m > 1,
        (z * w) % m == 1,
    ensures
        ((y * ((((w * w) % m) * w) % m)) % m * ((z * ((z * z) % m)) % m)) % m == y % m,
{
    let w3 = (((w * w) % m) * w) % m;
    let z3 = (z * ((z * z) % m)) % m;
    lemma_mul_mod_noop_left(w * w, w, m);
    lemma_mul_mod_noop_right(z, z * z, m);
    lemma_mul_mod_noop_right(y, w * w * w, m);
    lemma_mul_mod_noop_left(y * (w * w * w), z3, m);
    lemma_mul_mod_noop_right(y * (w * w * w), z * (z * z), m);
    let t = z * w;
    assert(y * (w * w * w) * (z * (z * z)) == y * (t * t * t)) by (nonlinear_arith)
        requires
            t == z * w,
    ;
    lemma_mul_mod_noop(t, t, m);
    lemma_mul_mod_noop(t * t, t, m);
    lemma_small_mod(1, m as nat);
    lemma_mul_mod_noop_right(y, t * t * t, m);
    assert(y * 1 == y);
}

/// `normalize` leaves a point of `G1` the same point: its affine form with `z = 1` stands for the
/// same point as before; it has none only at infinity or where `z` has no inverse.
pub proof fn g1_normalize_same_point(p: G1)
    ensures
        g1_to_affine(p@) matches Some(a) ==> g1_eq((a.0, a.1, 1nat), p@),
        g1_to_affine(p@) is None <==> g1_is_zero(p@) || !has_inverse(p@.2, fq_modulus()),
{
    G1::lemma_view_bound(p);
    lemma_moduli();
    let m = fq_modulus() as int;
    let (x, y, z) = (p@.0, p@.1, p@.2);
    lemma_small_mod(1, fq_modulus());
    lemma_small_mod(x, fq_modulus());
    lemma_small_mod(y, fq_modulus());
    assert(fq_mul(1, 1) == 1);
    if z != 0 && z != 1 && has_inverse(z, fq_modulus()) {
        lemma_fq_inv(z);
        let w = fq_inv(z);
        lemma_unit_square(x as int, z as int, w as int, m);
        lemma_unit_cube(y as int, z as int, w as int, m);
    }
}

/// Equality of `G1` points is reflexive and symmetric.
pub proof fn g1_eq_reflexive_symmetric(p: G1, q: G1)
    ensures
        g1_eq(p@, p@),
        g1_eq(p@, q@) == g1_eq(q@, p@),
{
}

/// Negation on `G2` undoes itself, coordinates and all.
pub proof fn g2_neg_involutive(p: G2)
    ensures
        g2_neg(g2_neg(p@)) == p@,
{
    G2::lemma_view_bound(p);
    lemma_fq2_neg_neg(p@.1);
}

/// The point at infinity is neutral for addition on `G2`: `0 + p` is `p` itself, and `p + 0`
/// stands for the same point as `p`.
pub proof fn g2_add_zero(p: G2)
    ensures
        g2_add(g2_zero(), p@) == p@,
        g2_eq(g2_add(p@, g2_zero()), p@),
{
}

/// Scalar multiplication on `G2` by zero gives the point at infinity, and by one the point
/// itself.
pub proof fn g2_mul_zero_one(p: G2)
    ensures
        g2_mul(p@, 0) == g2_zero(),
        g2_mul(p@, 1) == p@,
{
    assert(g2_mul(p@, 1) == g2_add(g2_mul(p@, 0), p@));
}

/// Addition on `G2` is commutative: `p + q` and `q + p` stand for the same point. Where `p` and
/// `q` are one point away from infinity, the formula doubles `p` or `q`; there it is stated for
/// points whose `z` has an inverse (as every nonzero `z` has, `q` being prime).
pub proof fn g2_add_commutative(p: G2, q: G2)
    requires
        g2_eq(p@, q@) && !g2_is_zero(p@) ==> has_inverse(fq2_norm(p@.2), fq_modulus())
            && has_inverse(fq2_norm(q@.2), fq_modulus()),
    ensures
        g2_eq(g2_add(p@, q@), g2_add(q@, p@)),
{
    G2::lemma_view_bound(p);
    G2::lemma_view_bound(q);
    if !g2_is_zero(p@) && !g2_is_zero(q@) && crate::group2_algebra::g2_doubling_case(p@, q@) {
        crate::group2_algebra::lemma_g2_add_comm_doubling(p@, q@);
    } else {
        crate::group2_algebra::lemma_g2_add_comm_distinct(p@, q@);
    }
}

/// Adding a point of `G2` to itself is multiplying it by two: the same coordinates away from
/// infinity, and the point at infinity at infinity.
pub proof fn g2_add_self_is_double(p: G2)
    ensures
        g2_eq(g2_add(p@, p@), g2_mul(p@, 2)),
        !g2_is_zero(p@) ==> g2_add(p@, p@) == g2_mul(p@, 2),
{
    reveal_with_fuel(g2_mul, 3);
    assert(g2_mul(p@, 1) == p@) by {
        g2_mul_zero_one(p);
    }
    if g2_is_zero(p@) {
        lemma_moduli();
        lemma_fq2_mul_bound();
        G2::lemma_view_bound(p);
        lemma_fq2_units(p@.1);
        lemma_small_mod(0, fq_modulus());
        assert(fq2_mul(p@.1, (0nat, 0nat)) == (0nat, 0nat));
        assert(fq2_add((0nat, 0nat), (0nat, 0nat)) == (0nat, 0nat));
    }
}

/// An affine point made Jacobian by `G2::from` converts back to itself.
pub proof fn g2_affine_round_trip(a: AffineG2)
    ensures
        g2_to_affine((a@.0, a@.1, (1nat, 0nat))) == Some(a@),
{
}

/// The sign byte of a compressed `G2` point picks between a point and its negation: where both
/// `10` and `11` decode, the one point is the negation of the other.
pub proof fn g2_decompress_sign(x: Seq<u8>)
    requires
        x.len() == 64,
        g2_decompress(seq![10u8] + x) is Ok,
        g2_decompress(seq![11u8] + x) is Ok,
    ensures
        g2_decompress(seq![11u8] + x) == Ok::<crate::g2::JacFq2, crate::CurveError>(
            g2_neg(g2_decompress(seq![10u8] + x)->Ok_0),
        ),
{
    let b10 = seq![10u8] + x;
    let b11 = seq![11u8] + x;
    assert(b10.subrange(1, 65) =~= x);
    assert(b11.subrange(1, 65) =~= x);
    lemma_moduli();
    let v = be_val(x);
    let xx = (v % fq_modulus(), v / fq_modulus());
    let y = crate::fq2::fq2_sqrt(
        crate::fq2::fq2_add(fq2_mul(fq2_mul(xx, xx), xx), crate::g2::g2_b()),
    ).unwrap();
    lemma_fq2_mul_bound();
    lemma_fq2_neg_neg(y);
}

proof fn lemma_fq2_mul_zero(a: (nat, nat))
    ensures
        fq2_mul(a, (0nat, 0nat)) == (0nat, 0nat),
{
    reveal(fq2_mul);
    lemma_moduli();
    assert(a.0 * 0 - a.1 * 0 == 0);
    assert(a.0 * 0 + a.1 * 0 == 0);
    lemma_small_mod(0, fq_modulus());
}

/// `X z = 0` and `z w = 1` modulo `q` give `X = 0` modulo `q`.
proof fn lemma_cmul_cancel(x: (int, int), z: (int, int), w: (int, int))
    requires
        cong(cmul(x, z), (0, 0)),
        cong(cmul(z, w), (1, 0)),
    ensures
        cong(x, (0, 0)),
{
    reveal(cmul);
    lemma_cmul_cong(cmul(x, z), (0, 0), w, w);
    lemma_cmul_assoc(x, z, w);
    lemma_cmul_cong(x, x, cmul(z, w), (1, 0));
    assert(cmul(x, (1, 0)) == x);
    assert(cmul((0, 0), w) == (0int, 0int));
}

/// A point of `G2` minus itself is the point at infinity, for every point with an invertible
/// `z` (every point at all, `q` being prime).
pub proof fn g2_sub_self(p: G2)
    requires
        p@.2 == (0nat, 0nat) || has_inverse(fq2_norm(p@.2), fq_modulus()),
    ensures
        g2_is_zero(g2_add(p@, g2_neg(p@))),
{
    reveal(cmul);
    G2::lemma_view_bound(p);
    lemma_moduli();
    lemma_fq2_mul_bound();
    let m = fq_modulus() as int;
    let (x, y, z) = (p@.0, p@.1, p@.2);
    if z != (0nat, 0nat) {
        let z1s = fq2_mul(z, z);
        let z1c = fq2_mul(z, z1s);
        let u = fq2_mul(x, z1s);
        let s1 = fq2_mul(y, z1c);
        let ny = fq2_neg(y);
        let s2 = fq2_mul(ny, z1c);
        if s1 == s2 {
            // the doubling branch: 2 y z^3 = 0 forces 2 y z = 0
            let yi = iv(y);
            let zi = iv(z);
            let y2 = (2 * yi.0, 2 * yi.1);
            let zz = cmul(zi, zi);
            let c = iv(z1c);
            lemma_fq2_mul_cong(z, z);
            lemma_fq2_mul_cong(z, z1s);
            lemma_cmul_cong(zi, zi, iv(z1s), zz);
            // `c` is congruent to `z^3`
            assert(cong(c, cmul(zi, zz)));
            // `-y` is congruent to the negation of `y`
            assert(cong(iv(ny), (-yi.0, -yi.1))) by {
                lemma_mod_bound(0 - y.0, m);
                lemma_mod_bound(0 - y.1, m);
                lemma_mod_twice(0 - y.0, m);
                lemma_mod_twice(0 - y.1, m);
            }
            lemma_fq2_mul_cong(y, z1c);
            lemma_fq2_mul_cong(ny, z1c);
            lemma_cmul_cong(iv(ny), (-yi.0, -yi.1), c, c);
            let pr = cmul(yi, c);
            assert((-yi.0) * c.0 - (-yi.1) * c.1 == -(yi.0 * c.0 - yi.1 * c.1))
                by (nonlinear_arith);
            assert((-yi.0) * c.1 + (-yi.1) * c.0 == -(yi.0 * c.1 + yi.1 * c.0))
                by (nonlinear_arith);
            assert(cmul((-yi.0, -yi.1), c) == (-pr.0, -pr.1));
            // from `pr = -pr`: `2 y c = 2 pr = 0`
            assert((2 * yi.0) * c.0 - (2 * yi.1) * c.1 == 2 * (yi.0 * c.0 - yi.1 * c.1))
                by (nonlinear_arith);
            assert((2 * yi.0) * c.1 + (2 * yi.1) * c.0 == 2 * (yi.0 * c.1 + yi.1 * c.0))
                by (nonlinear_arith);
            assert(cmul(y2, c) == (2 * pr.0, 2 * pr.1));
            assert(cong(cmul(y2, c), (0, 0))) by {
                lemma_sub_mod_noop(pr.0, -pr.0, m);
                lemma_sub_mod_noop(pr.1, -pr.1, m);
                lemma_small_mod(0, fq_modulus());
            }
            // `2 y c = ((2 y z) z) z`
            lemma_cmul_cong(y2, y2, c, cmul(zi, zz));
            lemma_cmul_assoc(y2, zi, zz);
            lemma_cmul_assoc(cmul(y2, zi), zi, zi);
            let w = fq2_inv(z);
            lemma_fq2_inv(z);
            lemma_cmul_cancel(cmul(cmul(y2, zi), zi), zi, iv(w));
            lemma_cmul_cancel(cmul(y2, zi), zi, iv(w));
            // hence `yz + yz = 0`
            let yz = fq2_mul(y, z);
            lemma_fq2_mul_cong(y, z);
            let e = cmul(yi, zi);
            assert((2 * yi.0) * zi.0 - (2 * yi.1) * zi.1 == 2 * (yi.0 * zi.0 - yi.1 * zi.1))
                by (nonlinear_arith);
            assert((2 * yi.0) * zi.1 + (2 * yi.1) * zi.0 == 2 * (yi.0 * zi.1 + yi.1 * zi.0))
                by (nonlinear_arith);
            assert(cmul(y2, zi) == (e.0 + e.0, e.1 + e.1));
            let d = fq2_add(yz, yz);
            assert(cong(iv(d), (0, 0))) by {
                lemma_add_mod_noop(yz.0 as int, yz.0 as int, m);
                lemma_add_mod_noop(yz.1 as int, yz.1 as int, m);
                lemma_add_mod_noop(e.0, e.0, m);
                lemma_add_mod_noop(e.1, e.1, m);
                lemma_mod_twice((yz.0 + yz.0) as int, m);
                lemma_mod_twice((yz.1 + yz.1) as int, m);
            }
            lemma_mod_bound((yz.0 + yz.0) as int, m);
            lemma_mod_bound((yz.1 + yz.1) as int, m);
            lemma_reduced_zero(d);
        } else {
            // the general branch: equal x coordinates give `h = 0`, hence `z3 = 0`
            lemma_mod_self_0(m);
            lemma_small_mod(0, fq_modulus());
            assert(fq2_sub(u, u) == (0nat, 0nat));
            let zz = fq2_add(z, z);
            lemma_fq2_mul_zero(fq2_sub(fq2_sub(fq2_mul(zz, zz), z1s), z1s));
        }
    }
}

/// With `z w = 1` modulo `q`: `w (z a) = a` modulo `q`.
proof fn lemma_unit_left(w: (int, int), z: (int, int), a: (int, int))
    requires
        cong(cmul(z, w), (1, 0)),
    ensures
        cong(cmul(w, cmul(z, a)), a),
{
    reveal(cmul);
    lemma_cmul_assoc(w, z, a);
    lemma_cmul_comm(w, z);
    lemma_cmul_cong(cmul(w, z), (1, 0), a, a);
    assert(cmul((1, 0), a) == a);
}

/// With `z w = 1` modulo `q`: `w^2 z^2 = 1` modulo `q`.
proof fn lemma_unit_square2(w: (int, int), z: (int, int))
    requires
        cong(cmul(z, w), (1, 0)),
    ensures
        cong(cmul(cmul(w, w), cmul(z, z)), (1, 0)),
{
    lemma_cmul_assoc(w, w, cmul(z, z));
    lemma_unit_left(w, z, z);
    lemma_cmul_cong(w, w, cmul(w, cmul(z, z)), z);
    lemma_cmul_comm(w, z);
}

/// `normalize` leaves a point of `G2` the same point: its affine form with `z = 1` stands for the
/// same point as before; it has none only at infinity or where `z` has no inverse.
pub proof fn g2_normalize_same_point(p: G2)
    ensures
        g2_to_affine(p@) matches Some(a) ==> g2_eq((a.0, a.1, (1nat, 0nat)), p@),
        g2_to_affine(p@) is None <==> g2_is_zero(p@) || !has_inverse(
            fq2_norm(p@.2),
            fq_modulus(),
        ),
{
    crate::g2::lemma_norm_one_has_inverse();
    reveal(cmul);
    reveal(fq2_mul);
    G2::lemma_view_bound(p);
    lemma_moduli();
    lemma_fq2_mul_bound();
    let (x, y, z) = (p@.0, p@.1, p@.2);
    let one = (1nat, 0nat);
    lemma_small_mod(1, fq_modulus());
    lemma_small_mod(0, fq_modulus());
    assert(fq2_mul(one, one) == one) by {
        assert(1nat * 1nat - 0nat * 0nat == 1);
        assert(1nat * 0nat + 0nat * 1nat == 0);
    }
    assert(fq2_mul(x, one) == x) by {
        assert(x.0 * 1 - x.1 * 0 == x.0);
        assert(x.0 * 0 + x.1 * 1 == x.1);
        lemma_small_mod(x.0, fq_modulus());
        lemma_small_mod(x.1, fq_modulus());
    }
    assert(fq2_mul(y, one) == y) by {
        assert(y.0 * 1 - y.1 * 0 == y.0);
        assert(y.0 * 0 + y.1 * 1 == y.1);
        lemma_small_mod(y.0, fq_modulus());
        lemma_small_mod(y.1, fq_modulus());
    }
    if z != (0nat, 0nat) && z != one && has_inverse(fq2_norm(z), fq_modulus()) {
        let w = fq2_inv(z);
        lemma_fq2_inv(z);
        let (xi, yi, zi, wi) = (iv(x), iv(y), iv(z), iv(w));
        let w2 = fq2_mul(w, w);
        let w3 = fq2_mul(w2, w);
        let z2 = fq2_mul(z, z);
        let z3 = fq2_mul(z, z2);
        let ax = fq2_mul(x, w2);
        let ay = fq2_mul(y, w3);
        let ww = cmul(wi, wi);
        let zz = cmul(zi, zi);
        // the reduced powers are congruent to the exact ones
        lemma_fq2_mul_cong(w, w);
        lemma_fq2_mul_cong(z, z);
        lemma_fq2_mul_cong(w2, w);
        lemma_cmul_cong(iv(w2), ww, wi, wi);
        lemma_fq2_mul_cong(z, z2);
        lemma_cmul_cong(zi, zi, iv(z2), zz);
        lemma_unit_square2(wi, zi);
        // `x w^2 z^2 = x`
        lemma_fq2_mul_cong(x, w2);
        lemma_fq2_mul_cong(ax, z2);
        lemma_cmul_cong(xi, xi, iv(w2), ww);
        lemma_cmul_cong(iv(ax), cmul(xi, ww), iv(z2), zz);
        lemma_cmul_assoc(xi, ww, zz);
        lemma_cmul_cong(xi, xi, cmul(ww, zz), (1, 0));
        assert(cmul(xi, (1, 0)) == xi);
        lemma_reduced_eq(fq2_mul(ax, z2), x);
        // `y w^3 z^3 = y`
        let w3e = cmul(ww, wi);
        let z3e = cmul(zi, zz);
        lemma_fq2_mul_cong(y, w3);
        lemma_fq2_mul_cong(ay, z3);
        lemma_cmul_cong(yi, yi, iv(w3), w3e);
        lemma_cmul_cong(iv(ay), cmul(yi, w3e), iv(z3), z3e);
        lemma_cmul_assoc(yi, w3e, z3e);
        lemma_cmul_assoc(ww, wi, z3e);
        lemma_unit_left(wi, zi, zz);
        lemma_cmul_cong(ww, ww, cmul(wi, z3e), zz);
        lemma_cmul_cong(yi, yi, cmul(w3e, z3e), (1, 0));
        assert(cmul(yi, (1, 0)) == yi);
        lemma_reduced_eq(fq2_mul(ay, z3), y);
    }
}

/// Equality of `G2` points is reflexive and symmetric.
pub proof fn g2_eq_reflexive_symmetric(p: G2, q: G2)
    ensures
        g2_eq(p@, p@),
        g2_eq(p@, q@) == g2_eq(q@, p@),
{
}

/// One is neutral for multiplication in `Gt`: `x * 1 == x` and `1 * x == x`.
pub proof fn gt_mul_one(x: Gt)
    ensures
        fq12_mul(x@, fq12_one()) == x@,
        fq12_mul(fq12_one(), x@) == x@,
{
    Gt::lemma_view_bound(x);
    lemma_fq12_mul_one(x@);
}

/// Multiplication in `Gt` is commutative: `x * y == y * x`.
pub proof fn gt_mul_commutative(x: Gt, y: Gt)
    ensures
        fq12_mul(x@, y@) == fq12_mul(y@, x@),
{
    lemma_fq12_mul_comm(x@, y@);
}

/// Multiplication in `Gt` is associative: `(x * y) * z == x * (y * z)`.
pub proof fn gt_mul_associative(x: Gt, y: Gt, z: Gt)
    ensures
        fq12_mul(fq12_mul(x@, y@), z@) == fq12_mul(x@, fq12_mul(y@, z@)),
{
    lemma_fq12_mul_assoc(x@, y@, z@);
}

/// What `Gt::inverse` gives is an inverse: `x * x^-1 == 1`.
pub proof fn gt_inverse_is_inverse(x: Gt)
    ensures
        crate::fq12::fq12_inv(x@) matches Some(y) ==> fq12_mul(x@, y) == fq12_one(),
{
    crate::tower_algebra::lemma_fq12_inv_correct(x@);
}

/// The final exponentiation maps a product to the product of the images, wherever the three
/// have values.
pub proof fn gt_final_exponentiation_multiplicative(x: Gt, y: Gt)
    requires
        crate::fq12::fq12_final_exp(x@) is Some,
        crate::fq12::fq12_final_exp(y@) is Some,
        crate::fq12::fq12_final_exp(fq12_mul(x@, y@)) is Some,
    ensures
        crate::fq12::fq12_final_exp(fq12_mul(x@, y@))->Some_0 == fq12_mul(
            crate::fq12::fq12_final_exp(x@)->Some_0,
            crate::fq12::fq12_final_exp(y@)->Some_0,
        ),
{
    crate::frobenius_algebra::lemma_final_exp_mul(x@, y@);
}

/// `Gt::pow` multiplies `x` by itself, over the integer values of the exponents: `x^0 = 1`,
/// `x^1 = x`, `x^(m + n) = x^m x^n` and `(x^m)^n = x^(m n)`.
pub proof fn gt_pow_laws(x: Gt, m: nat, n: nat)
    ensures
        fq12_pow(x@, 0) == fq12_one(),
        fq12_pow(x@, 1) == x@,
        fq12_pow(x@, m + n) == fq12_mul(fq12_pow(x@, m), fq12_pow(x@, n)),
        fq12_pow(fq12_pow(x@, m), n) == fq12_pow(x@, m * n),
{
    Gt::lemma_view_bound(x);
    lemma_fq12_mul_one(x@);
    lemma_fq12_pow_lin(x@, 1);
    reveal_with_fuel(fq12_pow, 2);
    reveal_with_fuel(crate::power_algebra::fq12_pow_lin, 2);
    lemma_fq12_pow_add(x@, m, n);
    lemma_fq12_pow_pow(x@, m, n);
}

/// One in `Gt` stays one: under every power, under inversion and under the final
/// exponentiation.
pub proof fn gt_one_laws(e: nat)
    ensures
        fq12_pow(fq12_one(), e) == fq12_one(),
        crate::fq12::fq12_inv(fq12_one()) == Some(fq12_one()),
        crate::fq12::fq12_final_exp(fq12_one()) == Some(fq12_one()),
{
    lemma_fq12_pow_one(e);
    lemma_fq12_inv_one();
    lemma_fq12_final_exp_one();
}

/// The value that the Miller loop multiplies in for a line is that line evaluated at the point
/// `p` of `G1`: `ell_0 + ell_vv p.x w^4 + ell_vw p.y w^3`, for coefficients whose constant term
/// is reduced.
pub proof fn line_value_is_line_at_point(c: crate::pairing::EllV, p: (nat, nat))
    requires
        c.0.0 < fq_modulus() && c.0.1 < fq_modulus(),
    ensures
        line_value(c, p) == crate::pairing::line_at(
            c,
            crate::pairing::fq12_embed((p.0, 0nat)),
            crate::pairing::fq12_embed((p.1, 0nat)),
            fq12_one(),
        ),
{
    crate::line_algebra::lemma_line_value_eval(c, p);
}

/// The tangent line of the doubling step at a point `t = (X : Y : Z)` of the twist
/// (`Y^2 Z = X^3 + b Z^3`) passes through the image of `t` on the curve over `Fq12`.
pub proof fn doubling_line_through_point(t: crate::g2::JacFq2)
    requires
        t.0.0 < fq_modulus() && t.0.1 < fq_modulus(),
        t.1.0 < fq_modulus() && t.1.1 < fq_modulus(),
        t.2.0 < fq_modulus() && t.2.1 < fq_modulus(),
        fq2_mul(fq2_mul(t.1, t.1), t.2) == fq2_add(
            fq2_mul(fq2_mul(t.0, t.0), t.0),
            fq2_mul(crate::g2::g2_b(), fq2_mul(fq2_mul(t.2, t.2), t.2)),
        ),
    ensures
        ({
            let u = crate::pairing::untwist(t);
            crate::pairing::line_at(crate::pairing::doubling_step_spec(t).1, u.0, u.1, u.2)
                == crate::pairing::fq12_embed((0nat, 0nat))
        }),
{
    crate::line_algebra::lemma_doubling_line(t);
}

/// The line of the addition step of the affine point `q` to the point `t` of the twist passes
/// through the images of both on the curve over `Fq12`.
pub proof fn addition_line_through_points(t: crate::g2::JacFq2, q: AffFq2)
    requires
        t.0.0 < fq_modulus() && t.0.1 < fq_modulus(),
        t.1.0 < fq_modulus() && t.1.1 < fq_modulus(),
        t.2.0 < fq_modulus() && t.2.1 < fq_modulus(),
        q.0.0 < fq_modulus() && q.0.1 < fq_modulus(),
        q.1.0 < fq_modulus() && q.1.1 < fq_modulus(),
    ensures
        ({
            let c = crate::pairing::addition_step_spec(t, q).1;
            let u = crate::pairing::untwist(t);
            let v = crate::pairing::untwist((q.0, q.1, (1nat, 0nat)));
            &&& crate::pairing::line_at(c, u.0, u.1, u.2) == crate::pairing::fq12_embed(
                (0nat, 0nat),
            )
            &&& crate::pairing::line_at(c, v.0, v.1, v.2) == crate::pairing::fq12_embed(
                (0nat, 0nat),
            )
        }),
{
    crate::line_algebra::lemma_addition_line(t, q);
}

/// The pairing with a point at infinity on either side is one.
pub proof fn pairing_at_infinity(p: G1, q: G2)
    requires
        g1_is_zero(p@) || g2_is_zero(q@),
    ensures
        pairing_spec(p@, q@) == Some(fq12_one()),
{
}

/// The batch pairing of no pairs is one.
pub proof fn pairing_batch_empty()
    ensures
        pairing_batch_spec(g1g2_views(Seq::empty())) == Some(fq12_one()),
{
    assert(g1g2_views(Seq::empty()) =~= Seq::empty());
}

/// The batch pairing of one pair is the pairing of that pair.
pub proof fn pairing_batch_of_one(p: G1, q: G2)
    ensures
        pairing_batch_spec(g1g2_views(seq![(p, q)])) == pairing_spec(p@, q@),
{
    let v = g1g2_views(seq![(p, q)]);
    assert(v =~= seq![(p@, q@)]);
    assert(v.drop_last() =~= Seq::empty());
    assert(batch_affine(v.drop_last()) == (
        Seq::<crate::pairing::AffFq2>::empty(),
        Seq::<(nat, nat)>::empty(),
    ));
    let kept = batch_affine(v);
    match g1_to_affine(p@) {
        None => {},
        Some(a) => match g2_to_affine(q@) {
            None => {},
            Some(b) => {
                assert(kept.0 =~= seq![b]);
                assert(kept.1 =~= seq![a]);
            },
        },
    }
}

/// A pair with a point at infinity does not change a batch pairing.
pub proof fn pairing_batch_skips_infinity(pairs: Seq<(G1, G2)>, p: G1, q: G2)
    requires
        g1_is_zero(p@) || g2_is_zero(q@),
    ensures
        pairing_batch_spec(g1g2_views(pairs.push((p, q)))) == pairing_batch_spec(
            g1g2_views(pairs),
        ),
{
    let v = g1g2_views(pairs.push((p, q)));
    assert(v.drop_last() =~= g1g2_views(pairs));
    assert(v.last() == (p@, q@));
}

/// `mul_lines` reads only the first `n` pairs.
proof fn lemma_mul_lines_prefix(
    f: Fq12V,
    qs: Seq<AffFq2>,
    ps: Seq<(nat, nat)>,
    qs2: Seq<AffFq2>,
    ps2: Seq<(nat, nat)>,
    idx: int,
    n: nat,
)
    requires
        n <= qs.len(),
        n <= ps.len(),
        n <= qs2.len(),
        n <= ps2.len(),
        forall|j: int| 0 <= j < n ==> qs[j] == qs2[j] && ps[j] == ps2[j],
    ensures
        mul_lines(f, qs, ps, idx, n) == mul_lines(f, qs2, ps2, idx, n),
    decreases n,
{
    if n > 0 {
        lemma_mul_lines_prefix(f, qs, ps, qs2, ps2, idx, (n - 1) as nat);
    }
}

/// Multiplying lines into `f` is multiplying `f` by the product of the lines.
proof fn lemma_mul_lines_factor(f: Fq12V, qs: Seq<AffFq2>, ps: Seq<(nat, nat)>, idx: int, n: nat)
    requires
        fq12_reduced(f),
    ensures
        mul_lines(f, qs, ps, idx, n) == fq12_mul(f, mul_lines(fq12_one(), qs, ps, idx, n)),
        fq12_reduced(mul_lines(fq12_one(), qs, ps, idx, n)),
    decreases n,
{
    lemma_fq12_products_reduced();
    if n == 0 {
        lemma_fq12_mul_one(f);
    } else {
        let m = (n - 1) as nat;
        lemma_mul_lines_factor(f, qs, ps, idx, m);
        let l = line_value(g2_precompute(qs[n - 1])[idx], ps[n - 1]);
        lemma_fq12_mul_assoc(f, mul_lines(fq12_one(), qs, ps, idx, m), l);
    }
}

/// The lines of a concatenation of pairs multiply to the product of the lines of the parts.
proof fn lemma_mul_lines_concat(
    qs1: Seq<AffFq2>,
    ps1: Seq<(nat, nat)>,
    qs2: Seq<AffFq2>,
    ps2: Seq<(nat, nat)>,
    idx: int,
    n2: nat,
)
    requires
        qs1.len() == ps1.len(),
        qs2.len() == ps2.len(),
        n2 <= ps2.len(),
    ensures
        mul_lines(fq12_one(), qs1 + qs2, ps1 + ps2, idx, ps1.len() + n2) == fq12_mul(
            mul_lines(fq12_one(), qs1, ps1, idx, ps1.len()),
            mul_lines(fq12_one(), qs2, ps2, idx, n2),
        ),
    decreases n2,
{
    let n1 = ps1.len();
    let qs = qs1 + qs2;
    let ps = ps1 + ps2;
    lemma_fq12_products_reduced();
    lemma_mul_lines_factor(fq12_one(), qs1, ps1, idx, n1);
    if n2 == 0 {
        lemma_mul_lines_prefix(fq12_one(), qs, ps, qs1, ps1, idx, n1);
        lemma_fq12_mul_one(mul_lines(fq12_one(), qs1, ps1, idx, n1));
    } else {
        let m = (n2 - 1) as nat;
        lemma_mul_lines_concat(qs1, ps1, qs2, ps2, idx, m);
        assert(qs[n1 + n2 - 1] == qs2[n2 - 1]);
        assert(ps[n1 + n2 - 1] == ps2[n2 - 1]);
        let l = line_value(g2_precompute(qs2[n2 - 1])[idx], ps2[n2 - 1]);
        lemma_fq12_mul_assoc(
            mul_lines(fq12_one(), qs1, ps1, idx, n1),
            mul_lines(fq12_one(), qs2, ps2, idx, m),
            l,
        );
    }
}

/// One round of lines at index `idx` over a concatenation of pairs, applied to `f1 f2`, is the
/// product of the rounds over the parts applied to `f1` and to `f2`.
proof fn lemma_step_concat(
    qs1: Seq<AffFq2>,
    ps1: Seq<(nat, nat)>,
    qs2: Seq<AffFq2>,
    ps2: Seq<(nat, nat)>,
    f1: Fq12V,
    f2: Fq12V,
    idx: int,
)
    requires
        qs1.len() == ps1.len(),
        qs2.len() == ps2.len(),
        fq12_reduced(f1),
        fq12_reduced(f2),
    ensures
        mul_lines(fq12_mul(f1, f2), qs1 + qs2, ps1 + ps2, idx, (ps1 + ps2).len()) == fq12_mul(
            mul_lines(f1, qs1, ps1, idx, ps1.len()),
            mul_lines(f2, qs2, ps2, idx, ps2.len()),
        ),
{
    let qs = qs1 + qs2;
    let ps = ps1 + ps2;
    lemma_fq12_products_reduced();
    let p1 = mul_lines(fq12_one(), qs1, ps1, idx, ps1.len());
    let p2 = mul_lines(fq12_one(), qs2, ps2, idx, ps2.len());
    lemma_mul_lines_factor(fq12_mul(f1, f2), qs, ps, idx, ps.len());
    lemma_mul_lines_concat(qs1, ps1, qs2, ps2, idx, ps2.len());
    lemma_mul_lines_factor(f1, qs1, ps1, idx, ps1.len());
    lemma_mul_lines_factor(f2, qs2, ps2, idx, ps2.len());
    lemma_fq12_mul4(f1, f2, p1, p2);
}

proof fn lemma_miller_prefix_reduced(qs: Seq<AffFq2>, ps: Seq<(nat, nat)>, k: nat)
    ensures
        fq12_reduced(miller_prefix(qs, ps, k)),
    decreases k,
{
    lemma_fq12_products_reduced();
    if k > 0 {
        let j = (k - 1) as nat;
        lemma_miller_prefix_reduced(qs, ps, j);
        let f = miller_prefix(qs, ps, j);
        let i = prefix_len(j) as int;
        lemma_mul_lines_factor(fq12_mul(f, f), qs, ps, i, ps.len());
        lemma_mul_lines_factor(mul_lines(fq12_mul(f, f), qs, ps, i, ps.len()), qs, ps, i + 1, ps.len());
    }
}

/// After every step, the Miller loop over a concatenation of pairs is the product of the Miller
/// loops over the parts.
proof fn lemma_miller_prefix_concat(
    qs1: Seq<AffFq2>,
    ps1: Seq<(nat, nat)>,
    qs2: Seq<AffFq2>,
    ps2: Seq<(nat, nat)>,
    k: nat,
)
    requires
        qs1.len() == ps1.len(),
        qs2.len() == ps2.len(),
    ensures
        miller_prefix(qs1 + qs2, ps1 + ps2, k) == fq12_mul(
            miller_prefix(qs1, ps1, k),
            miller_prefix(qs2, ps2, k),
        ),
    decreases k,
{
    let qs = qs1 + qs2;
    let ps = ps1 + ps2;
    lemma_fq12_products_reduced();
    if k == 0 {
        lemma_fq12_mul_one(fq12_one());
    } else {
        let j = (k - 1) as nat;
        lemma_miller_prefix_concat(qs1, ps1, qs2, ps2, j);
        let a = miller_prefix(qs1, ps1, j);
        let b = miller_prefix(qs2, ps2, j);
        let i = prefix_len(j) as int;
        lemma_fq12_mul4(a, b, a, b);
        lemma_step_concat(qs1, ps1, qs2, ps2, fq12_mul(a, a), fq12_mul(b, b), i);
        if naf_step(j) != 0 {
            let f1 = mul_lines(fq12_mul(a, a), qs1, ps1, i, ps1.len());
            let f2 = mul_lines(fq12_mul(b, b), qs2, ps2, i, ps2.len());
            lemma_mul_lines_factor(fq12_mul(a, a), qs1, ps1, i, ps1.len());
            lemma_mul_lines_factor(fq12_mul(b, b), qs2, ps2, i, ps2.len());
            lemma_step_concat(qs1, ps1, qs2, ps2, f1, f2, i + 1);
        }
    }
}

/// The Miller loop over a concatenation of pairs is the product of the Miller loops over the
/// parts: the batched Miller loop of `pairing_batch` and `miller_loop_batch` multiplies the
/// Miller loops of the single pairs.
pub proof fn miller_loop_concat(
    qs1: Seq<AffFq2>,
    ps1: Seq<(nat, nat)>,
    qs2: Seq<AffFq2>,
    ps2: Seq<(nat, nat)>,
)
    requires
        qs1.len() == ps1.len(),
        qs2.len() == ps2.len(),
    ensures
        miller_loop_value(qs1 + qs2, ps1 + ps2) == fq12_mul(
            miller_loop_value(qs1, ps1),
            miller_loop_value(qs2, ps2),
        ),
{
    reveal(miller_loop_value);
    lemma_fq12_products_reduced();
    lemma_miller_prefix_concat(qs1, ps1, qs2, ps2, 65);
    let a = miller_prefix(qs1, ps1, 65);
    let b = miller_prefix(qs2, ps2, 65);
    let i = prefix_len(65) as int;
    lemma_miller_prefix_reduced(qs1, ps1, 65);
    lemma_miller_prefix_reduced(qs2, ps2, 65);
    lemma_step_concat(qs1, ps1, qs2, ps2, a, b, i);
    let f1 = mul_lines(a, qs1, ps1, i, ps1.len());
    let f2 = mul_lines(b, qs2, ps2, i, ps2.len());
    lemma_mul_lines_factor(a, qs1, ps1, i, ps1.len());
    lemma_mul_lines_factor(b, qs2, ps2, i, ps2.len());
    lemma_step_concat(qs1, ps1, qs2, ps2, f1, f2, i + 1);
}

/// The value that `miller_loop_batch` gives for a concatenation of pair lists is the product of
/// the values it gives for the two lists.
pub proof fn miller_loop_batch_concat(pairs1: Seq<(G2, G1)>, pairs2: Seq<(G2, G1)>)
    ensures
        miller_loop_value(
            g2_affines(g2g1_views(pairs1 + pairs2)),
            g1_affines(g2g1_views(pairs1 + pairs2)),
        ) == fq12_mul(
            miller_loop_value(g2_affines(g2g1_views(pairs1)), g1_affines(g2g1_views(pairs1))),
            miller_loop_value(g2_affines(g2g1_views(pairs2)), g1_affines(g2g1_views(pairs2))),
        ),
{
    let v1 = g2g1_views(pairs1);
    let v2 = g2g1_views(pairs2);
    assert(g2g1_views(pairs1 + pairs2) =~= v1 + v2);
    assert(g2_affines(v1 + v2) =~= g2_affines(v1) + g2_affines(v2));
    assert(g1_affines(v1 + v2) =~= g1_affines(v1) + g1_affines(v2));
    miller_loop_concat(g2_affines(v1), g1_affines(v1), g2_affines(v2), g1_affines(v2));
}

/// The affine pairs kept by a batch pairing come in matching numbers.
proof fn lemma_batch_affine_len(pairs: Seq<(crate::g1::JacFq, crate::g2::JacFq2)>)
    ensures
        batch_affine(pairs).0.len() == batch_affine(pairs).1.len(),
    decreases pairs.len(),
{
    if pairs.len() > 0 {
        lemma_batch_affine_len(pairs.drop_last());
    }
}

/// What the final exponentiation gives is reduced.
proof fn lemma_final_exp_reduced(x: Fq12V)
    ensures
        crate::fq12::fq12_final_exp(x) matches Some(y) ==> fq12_reduced(y),
{
    reveal(crate::fq12::fq12_final_exp);
    lemma_fq12_products_reduced();
}

/// The batch pairing is the product of the pairings: appending a pair to a batch multiplies its
/// value by the pairing of that pair, wherever the three have values (the Miller loops have
/// inverses).
pub proof fn pairing_batch_push(pairs: Seq<(G1, G2)>, p: G1, q: G2)
    requires
        pairing_batch_spec(g1g2_views(pairs)) is Some,
        pairing_spec(p@, q@) is Some,
        pairing_batch_spec(g1g2_views(pairs.push((p, q)))) is Some,
    ensures
        pairing_batch_spec(g1g2_views(pairs.push((p, q))))->Some_0 == fq12_mul(
            pairing_batch_spec(g1g2_views(pairs))->Some_0,
            pairing_spec(p@, q@)->Some_0,
        ),
{
    let v0 = g1g2_views(pairs);
    let v = g1g2_views(pairs.push((p, q)));
    assert(v.drop_last() =~= v0);
    assert(v.last() == (p@, q@));
    let prev = batch_affine(v0);
    lemma_batch_affine_len(v0);
    lemma_fq12_products_reduced();
    let x = pairing_batch_spec(v0)->Some_0;
    let e = pairing_spec(p@, q@)->Some_0;
    lemma_final_exp_reduced(miller_loop_value(prev.0, prev.1));
    match g1_to_affine(p@) {
        None => {
            lemma_fq12_mul_one(x);
        },
        Some(a) => match g2_to_affine(q@) {
            None => {
                lemma_fq12_mul_one(x);
            },
            Some(b) => {
                lemma_final_exp_reduced(miller_loop_value(seq![b], seq![a]));
                if prev.0.len() == 0 {
                    assert(prev.0.push(b) =~= seq![b]);
                    assert(prev.1.len() == 0);
                    assert(prev.1.push(a) =~= seq![a]);
                    lemma_fq12_mul_one(e);
                } else {
                    assert(prev.0.push(b) =~= prev.0 + seq![b]);
                    assert(prev.1.push(a) =~= prev.1 + seq![a]);
                    miller_loop_concat(prev.0, prev.1, seq![b], seq![a]);
                    crate::frobenius_algebra::lemma_final_exp_mul(
                        miller_loop_value(prev.0, prev.1),
                        miller_loop_value(seq![b], seq![a]),
                    );
                }
            },
        },
    }
}

/// The product of the pairings of the pairs, in order, starting from one.
pub open spec fn pairing_product(pairs: Seq<(G1, G2)>) -> Fq12V
    decreases pairs.len(),
{
    if pairs.len() == 0 {
        fq12_one()
    } else {
        fq12_mul(
            pairing_product(pairs.drop_last()),
            pairing_spec(pairs.last().0@, pairs.last().1@)->Some_0,
        )
    }
}

/// The batch pairing is the product of the single pairings, folded from one in order, wherever
/// the batch pairing of every prefix and every single pairing have values.
pub proof fn pairing_batch_is_product(pairs: Seq<(G1, G2)>)
    requires
        forall|k: int|
            0 <= k <= pairs.len() ==> #[trigger] pairing_batch_spec(
                g1g2_views(pairs.subrange(0, k)),
            ) is Some,
        forall|k: int|
            0 <= k < pairs.len() ==> pairing_spec((#[trigger] pairs[k]).0@, pairs[k].1@) is Some,
    ensures
        pairing_batch_spec(g1g2_views(pairs)) == Some(pairing_product(pairs)),
    decreases pairs.len(),
{
    if pairs.len() == 0 {
        pairing_batch_empty();
        assert(pairs =~= Seq::<(G1, G2)>::empty());
    } else {
        let n = pairs.len() as int;
        let init = pairs.drop_last();
        let (p, q) = pairs.last();
        assert forall|k: int| 0 <= k <= init.len() implies #[trigger] pairing_batch_spec(
            g1g2_views(init.subrange(0, k)),
        ) is Some by {
            assert(init.subrange(0, k) =~= pairs.subrange(0, k));
        }
        assert forall|k: int| 0 <= k < init.len() implies pairing_spec(
            (#[trigger] init[k]).0@,
            init[k].1@,
        ) is Some by {
            assert(init[k] == pairs[k]);
        }
        pairing_batch_is_product(init);
        assert(pairs.subrange(0, n) =~= pairs);
        assert(pairs.subrange(0, n - 1) =~= init);
        assert(pairs[n - 1] == (p, q));
        assert(init.push((p, q)) =~= pairs);
        assert(pairing_batch_spec(g1g2_views(pairs.subrange(0, n - 1))) is Some);
        assert(pairing_batch_spec(g1g2_views(pairs.subrange(0, n))) is Some);
        pairing_batch_push(init, p, q);
    }
}

/// The two pairs at `i` and `i + 1` exchanged.
pub open spec fn swap_adjacent(pairs: Seq<(G1, G2)>, i: int) -> Seq<(G1, G2)> {
    pairs.update(i, pairs[i + 1]).update(i + 1, pairs[i])
}

/// Exchanging two adjacent factors leaves the product of the pairings unchanged.
proof fn lemma_pairing_product_swap(pairs: Seq<(G1, G2)>, i: int)
    requires
        0 <= i,
        i + 1 < pairs.len(),
    ensures
        pairing_product(swap_adjacent(pairs, i)) == pairing_product(pairs),
    decreases pairs.len(),
{
    let t = swap_adjacent(pairs, i);
    let n = pairs.len() as int;
    if i + 2 < n {
        assert(t.drop_last() =~= swap_adjacent(pairs.drop_last(), i));
        assert(t.last() == pairs.last());
        lemma_pairing_product_swap(pairs.drop_last(), i);
    } else {
        let u = pairs.drop_last().drop_last();
        assert(t.drop_last().drop_last() =~= u);
        assert(t.last() == pairs[i] && t.drop_last().last() == pairs[i + 1]);
        assert(pairs.last() == pairs[i + 1] && pairs.drop_last().last() == pairs[i]);
        let a = pairing_spec(pairs[i].0@, pairs[i].1@)->Some_0;
        let b = pairing_spec(pairs[i + 1].0@, pairs[i + 1].1@)->Some_0;
        let x = pairing_product(u);
        assert(pairing_product(pairs.drop_last()) == fq12_mul(x, a));
        assert(pairing_product(pairs) == fq12_mul(fq12_mul(x, a), b));
        assert(pairing_product(t.drop_last()) == fq12_mul(x, b));
        assert(pairing_product(t) == fq12_mul(fq12_mul(x, b), a));
        lemma_fq12_mul_assoc(x, a, b);
        lemma_fq12_mul_assoc(x, b, a);
        lemma_fq12_mul_comm(a, b);
    }
}

/// The batch pairing does not depend on the order of the pairs: exchanging two adjacent pairs
/// leaves it unchanged, wherever the batch pairings of the prefixes of both orders and the single
/// pairings have values.
pub proof fn pairing_batch_swap(pairs: Seq<(G1, G2)>, i: int)
    requires
        0 <= i,
        i + 1 < pairs.len(),
        forall|k: int|
            0 <= k <= pairs.len() ==> #[trigger] pairing_batch_spec(
                g1g2_views(pairs.subrange(0, k)),
            ) is Some,
        forall|k: int|
            0 <= k <= pairs.len() ==> #[trigger] pairing_batch_spec(
                g1g2_views(swap_adjacent(pairs, i).subrange(0, k)),
            ) is Some,
        forall|k: int|
            0 <= k < pairs.len() ==> pairing_spec((#[trigger] pairs[k]).0@, pairs[k].1@) is Some,
    ensures
        pairing_batch_spec(g1g2_views(swap_adjacent(pairs, i))) == pairing_batch_spec(
            g1g2_views(pairs),
        ),
{
    let t = swap_adjacent(pairs, i);
    assert forall|k: int| 0 <= k < t.len() implies pairing_spec(
        (#[trigger] t[k]).0@,
        t[k].1@,
    ) is Some by {
        if k == i {
            assert(t[k] == pairs[i + 1]);
        } else if k == i + 1 {
            assert(t[k] == pairs[i]);
        } else {
            assert(t[k] == pairs[k]);
        }
    }
    pairing_batch_is_product(pairs);
    pairing_batch_is_product(t);
    lemma_pairing_product_swap(pairs, i);
}

/// The batch pairing of two pairs is the product of their pairings, wherever the three have
/// values: the check `e(P1, Q1) e(P2, Q2) == 1` can be made by one batch pairing.
pub proof fn pairing_batch_of_two(p1: G1, q1: G2, p2: G1, q2: G2)
    requires
        pairing_spec(p1@, q1@) is Some,
        pairing_spec(p2@, q2@) is Some,
        pairing_batch_spec(g1g2_views(seq![(p1, q1), (p2, q2)])) is Some,
    ensures
        pairing_batch_spec(g1g2_views(seq![(p1, q1), (p2, q2)]))->Some_0 == fq12_mul(
            pairing_spec(p1@, q1@)->Some_0,
            pairing_spec(p2@, q2@)->Some_0,
        ),
{
    pairing_batch_of_one(p1, q1);
    assert(seq![(p1, q1)].push((p2, q2)) =~= seq![(p1, q1), (p2, q2)]);
    pairing_batch_push(seq![(p1, q1)], p2, q2);
}

/// Where every point has an affine form, the affine pairs a batch pairing keeps are all the pairs.
proof fn lemma_batch_affine_all(pairs: Seq<(G1, G2)>, swapped: Seq<(G2, G1)>, n: nat)
    requires
        n <= pairs.len(),
        swapped.len() == pairs.len(),
        forall|j: int|
            0 <= j < pairs.len() ==> (#[trigger] swapped[j]) == (pairs[j].1, pairs[j].0),
        forall|j: int|
            0 <= j < pairs.len() ==> g1_to_affine((#[trigger] pairs[j]).0@) is Some
                && g2_to_affine(pairs[j].1@) is Some,
    ensures
        batch_affine(g1g2_views(pairs).subrange(0, n as int)) == (
            g2_affines(g2g1_views(swapped)).subrange(0, n as int),
            g1_affines(g2g1_views(swapped)).subrange(0, n as int),
        ),
    decreases n,
{
    let v = g1g2_views(pairs);
    let w = g2g1_views(swapped);
    if n == 0 {
        assert(v.subrange(0, 0) =~= Seq::empty());
        assert(g2_affines(w).subrange(0, 0) =~= Seq::empty());
        assert(g1_affines(w).subrange(0, 0) =~= Seq::empty());
    } else {
        let m = (n - 1) as nat;
        lemma_batch_affine_all(pairs, swapped, m);
        let j = m as int;
        assert(v.subrange(0, n as int).drop_last() =~= v.subrange(0, j));
        assert(v.subrange(0, n as int).last() == v[j]);
        assert(swapped[j] == (pairs[j].1, pairs[j].0));
        assert(g2_affines(w).subrange(0, n as int) =~= g2_affines(w).subrange(0, j).push(
            g2_to_affine(pairs[j].1@)->Some_0,
        ));
        assert(g1_affines(w).subrange(0, n as int) =~= g1_affines(w).subrange(0, j).push(
            g1_to_affine(pairs[j].0@)->Some_0,
        ));
    }
}

/// `miller_loop_batch` followed by `Gt::final_exponentiation` gives what `pairing_batch` gives
/// for the same pairs, the points of each pair swapped, where every point has an affine form (as
/// where `miller_loop_batch` succeeds).
pub proof fn miller_loop_batch_then_final_exponentiation(
    pairs: Seq<(G1, G2)>,
    swapped: Seq<(G2, G1)>,
)
    requires
        pairs.len() > 0,
        swapped.len() == pairs.len(),
        forall|j: int|
            0 <= j < pairs.len() ==> (#[trigger] swapped[j]) == (pairs[j].1, pairs[j].0),
        forall|j: int|
            0 <= j < pairs.len() ==> g1_to_affine((#[trigger] pairs[j]).0@) is Some
                && g2_to_affine(pairs[j].1@) is Some,
    ensures
        pairing_batch_spec(g1g2_views(pairs)) == crate::fq12::fq12_final_exp(
            miller_loop_value(g2_affines(g2g1_views(swapped)), g1_affines(g2g1_views(swapped))),
        ),
{
    let v = g1g2_views(pairs);
    let w = g2g1_views(swapped);
    lemma_batch_affine_all(pairs, swapped, pairs.len());
    assert(v.subrange(0, pairs.len() as int) =~= v);
    assert(g2_affines(w).subrange(0, pairs.len() as int) =~= g2_affines(w));
    assert(g1_affines(w).subrange(0, pairs.len() as int) =~= g1_affines(w));
}

} // verus!
