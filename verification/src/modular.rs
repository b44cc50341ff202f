//! Arithmetic modulo an odd modulus below 2^255 on 256-bit integers.
use vstd::prelude::*;
use vstd::arithmetic::power::*;
use vstd::arithmetic::power2::*;
use vstd::arithmetic::div_mod::*;
use vstd::arithmetic::mul::*;
use crate::arith::{b4, lemma_div_pow2_step, lemma_pow2_limbs, U256, U512};

verus! {

/// A modulus the routines below accept: odd, above one, and below 2^255.
pub open spec fn valid_modulus(m: nat) -> bool {
    1 < m && 2 * m < b4() && m % 2 == 1
}

/// `x % m` for `0 <= x < 2m`.
pub proof fn lemma_mod_once(x: int, m: int)
    requires
        0 <= x < 2 * m,
    ensures
        x % m == (if x < m { x } else { x - m }),
{
    if x < m {
        lemma_small_mod(x as nat, m as nat);
    } else {
        lemma_small_mod((x - m) as nat, m as nat);
        lemma_mod_add_multiples_vanish(x - m, m);
    }
}

/// `(a + b) % m` for `a, b < m`.
pub fn mod_add(a: &U256, b: &U256, m: &U256) -> (r: U256)
    requires
        valid_modulus(m@),
        a@ < m@,
        b@ < m@,
    ensures
        r@ == (a@ + b@) % m@,
        r@ < m@,
{
    let (s, _) = a.add_carry(b);
    proof {
        lemma_mod_once((a@ + b@) as int, m@ as int);
    }
    if s.lt(m) {
        s
    } else {
        let (d, _) = s.sub_borrow(m);
        d
    }
}

/// `(a - b) % m` for `a, b < m`.
pub fn mod_sub(a: &U256, b: &U256, m: &U256) -> (r: U256)
    requires
        valid_modulus(m@),
        a@ < m@,
        b@ < m@,
    ensures
        r@ == (a@ - b@) % (m@ as int),
        r@ < m@,
{
    let (d, borrow) = a.sub_borrow(b);
    if borrow {
        let (s, _) = d.add_carry(m);
        proof {
            lemma_mod_add_multiples_vanish(a@ - b@, m@ as int);
            lemma_small_mod((a@ - b@ + m@) as nat, m@);
        }
        s
    } else {
        proof {
            lemma_small_mod((a@ - b@) as nat, m@);
        }
        d
    }
}

/// `(-a) % m` for `a < m`.
pub fn mod_neg(a: &U256, m: &U256) -> (r: U256)
    requires
        valid_modulus(m@),
        a@ < m@,
    ensures
        r@ == (0 - a@) % (m@ as int),
        r@ < m@,
{
    let z = U256::zero();
    mod_sub(&z, a, m)
}

/// `(a * b) % m` for `a < m`, by doubling and adding along the bits of `b`.
pub fn mod_mul(a: &U256, b: &U256, m: &U256) -> (r: U256)
    requires
        valid_modulus(m@),
        a@ < m@,
    ensures
        r@ == (a@ * b@) % m@,
        r@ < m@,
{
    let mut acc = U256::zero();
    let mut i: usize = 256;
    proof {
        lemma_pow2_limbs();
        lemma_basic_div(b@ as int, pow2(256) as int);
        lemma_small_mod(0, m@);
    }
    while i > 0
        invariant
            i <= 256,
            valid_modulus(m@),
            a@ < m@,
            acc@ < m@,
            acc@ == (a@ * (b@ / pow2(i as nat))) % m@,
        decreases i,
    {
        let bit = b.get_bit(i - 1).unwrap();
        let ghost t = b@ / pow2(i as nat);
        proof {
            lemma_div_pow2_step(b@, (i - 1) as nat);
            assert((i - 1) as nat + 1 == i as nat);
        }
        let d = mod_add(&acc, &acc, m);
        proof {
            lemma_add_mod_noop((a@ * t) as int, (a@ * t) as int, m@ as int);
            assert(a@ * (2 * t) == a@ * t + a@ * t) by (nonlinear_arith);
        }
        if bit {
            acc = mod_add(&d, a, m);
            proof {
                lemma_add_mod_noop((a@ * (2 * t)) as int, a@ as int, m@ as int);
                lemma_small_mod(a@, m@);
                lemma_mod_twice((a@ * (2 * t)) as int, m@ as int);
                assert(a@ * (2 * t + 1) == a@ * (2 * t) + a@) by (nonlinear_arith);
            }
        } else {
            acc = d;
            proof {
                lemma_mod_twice((a@ * (2 * t)) as int, m@ as int);
            }
        }
        i = i - 1;
    }
    proof {
        lemma2_to64();
        lemma_div_basics(b@ as int);
    }
    acc
}

/// `x % m` for any 256-bit `x`.
pub fn mod_reduce(x: &U256, m: &U256) -> (r: U256)
    requires
        valid_modulus(m@),
    ensures
        r@ == x@ % m@,
        r@ < m@,
{
    let w = U512([x.0[0], x.0[1], x.0[2], x.0[3], 0, 0, 0, 0]);
    assert(w@ == x@);
    let (_, r) = w.divrem(m);
    proof {
        lemma_mod_bound(x@ as int, m@ as int);
    }
    r
}

/// `a^e % m` for `a < m`, squaring and multiplying along the bits of `e` from the top.
pub fn mod_pow(a: &U256, e: &U256, m: &U256) -> (r: U256)
    requires
        valid_modulus(m@),
        a@ < m@,
    ensures
        r@ == pow(a@ as int, e@) % (m@ as int),
        r@ < m@,
{
    let mut acc = U256::one();
    let mut i: usize = 256;
    proof {
        lemma_pow2_limbs();
        lemma_basic_div(e@ as int, pow2(256) as int);
        lemma_pow0(a@ as int);
        lemma_small_mod(1, m@);
    }
    while i > 0
        invariant
            i <= 256,
            valid_modulus(m@),
            a@ < m@,
            acc@ < m@,
            acc@ == pow(a@ as int, e@ / pow2(i as nat)) % (m@ as int),
        decreases i,
    {
        let bit = e.get_bit(i - 1).unwrap();
        let ghost t = e@ / pow2(i as nat);
        proof {
            lemma_div_pow2_step(e@, (i - 1) as nat);
            assert((i - 1) as nat + 1 == i as nat);
        }
        let sq = mod_mul(&acc, &acc, m);
        proof {
            let p = pow(a@ as int, t);
            lemma_mul_mod_noop(p, p, m@ as int);
            lemma_pow_adds(a@ as int, t, t);
            assert(t + t == 2 * t);
        }
        if bit {
            acc = mod_mul(a, &sq, m);
            proof {
                let p2 = pow(a@ as int, 2 * t);
                lemma_mul_mod_noop_right(a@ as int, p2, m@ as int);
                lemma_pow_adds(a@ as int, 1, 2 * t);
                lemma_pow1(a@ as int);
                assert(1 + 2 * t == 2 * t + 1);
            }
        } else {
            acc = sq;
        }
        i = i - 1;
    }
    proof {
        lemma2_to64();
        lemma_div_basics(e@ as int);
    }
    acc
}


/// `a` has an inverse modulo `m`.
pub open spec fn has_inverse(a: nat, m: nat) -> bool {
    exists|x: nat| #[trigger] ((a * x) % m) == 1
}

/// Every odd common divisor above one of `u` and `v` divides both `a` and `m`.
pub open spec fn odd_divisors_inherited(u: nat, v: nat, a: nat, m: nat) -> bool {
    forall|d: nat|
        #![trigger u % d, v % d]
        d > 1 && d % 2 == 1 && u % d == 0 && v % d == 0 ==> a % d == 0 && m % d == 0
}

/// Halving modulo an odd modulus: `m` divides `2k` only where it divides `k`.
pub proof fn lemma_odd_mod_half(k: int, m: int)
    requires
        m > 1,
        m % 2 == 1,
        (2 * k) % m == 0,
    ensures
        k % m == 0,
{
    lemma_fundamental_div_mod(k, m);
    let q = k / m;
    let r = k % m;
    lemma_mod_bound(k, m);
    assert(2 * k == m * (2 * q) + 2 * r) by (nonlinear_arith)
        requires
            k == m * q + r,
    ;
    lemma_mod_multiples_vanish(2 * q, 2 * r, m);
    lemma_mod_once(2 * r, m);
}

/// `h` with `2h` congruent to `b`, for `b < m`.
fn mod_half(b: &U256, m: &U256) -> (h: U256)
    requires
        valid_modulus(m@),
        b@ < m@,
    ensures
        h@ < m@,
        2 * h@ == b@ || 2 * h@ == b@ + m@,
{
    if b.is_even() {
        let h = b.shr1();
        proof {
            lemma_fundamental_div_mod(b@ as int, 2);
        }
        h
    } else {
        let (s, carry) = b.add_carry(m);
        assert(!carry);
        assert(s@ == b@ + m@);
        proof {
            lemma_add_mod_noop(b@ as int, m@ as int, 2);
            lemma_fundamental_div_mod(s@ as int, 2);
        }
        let h = s.shr1();
        h
    }
}

/// From `(b * a) % m == u % m` with `u` even, the same for the halves.
proof fn lemma_half_step(a: nat, b: nat, h: nat, u: nat, m: nat)
    requires
        valid_modulus(m),
        (b * a) % m == u % m,
        u % 2 == 0,
        2 * h == b || 2 * h == b + m,
    ensures
        (h * a) % m == (u / 2) % m,
{
    let k = h * a - u / 2;
    assert(2 * k == b * a - u || 2 * k == b * a - u + m * a) by (nonlinear_arith)
        requires
            k == h * a - u / 2,
            u % 2 == 0,
            2 * h == b || 2 * h == b + m,
    ;
    lemma_sub_mod_noop((b * a) as int, u as int, m as int);
    lemma_mod_self_0(m as int);
    lemma_small_mod(0, m);
    assert((b * a - u) % (m as int) == 0);
    if 2 * k != b * a - u {
        lemma_mod_multiples_vanish(a as int, (b * a - u) as int, m as int);
        assert(m * a + (b * a - u) == b * a - u + m * a);
    }
    lemma_odd_mod_half(k, m as int);
    lemma_fundamental_div_mod(k, m as int);
    lemma_mod_multiples_vanish(k / (m as int), (u / 2) as int, m as int);
    assert(h * a == (m as int) * (k / (m as int)) + (u / 2));
}

/// The divisor condition does not depend on the order of `u` and `v`.
proof fn lemma_odd_divisors_sym(u: nat, v: nat, a: nat, m: nat)
    requires
        odd_divisors_inherited(u, v, a, m),
    ensures
        odd_divisors_inherited(v, u, a, m),
{
    assert forall|d: nat|
        #![trigger v % d, u % d]
        d > 1 && d % 2 == 1 && v % d == 0 && u % d == 0 implies a % d == 0 && m % d == 0 by {
        assert(u % d == 0 && v % d == 0);
    }
}

/// An odd common divisor above one of `a` and `m` rules out an inverse of `a`.
proof fn lemma_common_divisor_no_inverse(a: nat, m: nat, d: nat)
    requires
        m > 1,
        d > 1,
        a % d == 0,
        m % d == 0,
    ensures
        !has_inverse(a, m),
{
    assert forall|x: nat| #[trigger] ((a * x) % m) != 1 by {
        if (a * x) % m == 1 {
            lemma_fundamental_div_mod((a * x) as int, m as int);
            let k = (a * x) / m;
            lemma_mul_mod_noop_left(a as int, x as int, d as int);
            lemma_small_mod(0, d);
            assert((a * x) % d == 0);
            lemma_mul_mod_noop_left(m as int, k as int, d as int);
            assert((m * k) % d == 0) by {
                lemma_mul_is_commutative(m as int, k as int);
            }
            lemma_add_mod_noop((m * k) as int, 1, d as int);
            lemma_small_mod(1, d);
            assert(a * x == m * k + 1);
        }
    }
}

/// Divides `u` by two until it is odd, halving `b` alongside modulo `m`.
fn halve_until_odd(u0: U256, b0: U256, Ghost(v): Ghost<nat>, Ghost(a): Ghost<nat>, m: &U256) -> (r: (
    U256,
    U256,
))
    requires
        valid_modulus(m@),
        0 < u0@,
        b0@ < m@,
        (b0@ * a) % m@ == u0@ % m@,
        odd_divisors_inherited(u0@, v, a, m@),
    ensures
        0 < r.0@ <= u0@,
        r.0@ % 2 == 1,
        r.1@ < m@,
        (r.1@ * a) % m@ == r.0@ % m@,
        odd_divisors_inherited(r.0@, v, a, m@),
{
    let mut u = u0;
    let mut b = b0;
    while u.is_even()
        invariant
            valid_modulus(m@),
            0 < u@ <= u0@,
            b@ < m@,
            (b@ * a) % m@ == u@ % m@,
            odd_divisors_inherited(u@, v, a, m@),
        decreases u@,
    {
        let ghost uu = u@;
        let h = mod_half(&b, m);
        proof {
            lemma_half_step(a, b@, h@, u@, m@);
            assert forall|d: nat|
                #![trigger (uu / 2) % d, v % d]
                d > 1 && d % 2 == 1 && (uu / 2) % d == 0 && v % d == 0 implies a % d == 0 && m@ % d
                    == 0 by {
                lemma_fundamental_div_mod(uu as int, 2);
                lemma_mul_mod_noop_right(2, (uu / 2) as int, d as int);
                lemma_small_mod(0, d);
                assert(uu % d == 0);
            }
        }
        u = u.shr1();
        b = h;
    }
    (u, b)
}

/// One subtraction step: `u - v` with `b - c` alongside, for odd `v < u`.
fn subtract_step(u: &U256, v: &U256, b: &U256, c: &U256, Ghost(a): Ghost<nat>, m: &U256) -> (r: (
    U256,
    U256,
))
    requires
        valid_modulus(m@),
        v@ < u@,
        0 < v@,
        b@ < m@,
        c@ < m@,
        (b@ * a) % m@ == u@ % m@,
        (c@ * a) % m@ == v@ % m@,
        odd_divisors_inherited(u@, v@, a, m@),
    ensures
        r.0@ == u@ - v@,
        r.1@ < m@,
        (r.1@ * a) % m@ == r.0@ % m@,
        odd_divisors_inherited(r.0@, v@, a, m@),
{
    let (d, _) = u.sub_borrow(v);
    let nb = mod_sub(b, c, m);
    proof {
        lemma_sub_mod_noop((b@ * a) as int, (c@ * a) as int, m@ as int);
        lemma_sub_mod_noop(u@ as int, v@ as int, m@ as int);
        assert(b@ * a - c@ * a == (b@ - c@) * a) by (nonlinear_arith);
        lemma_mul_mod_noop_left((b@ - c@) as int, a as int, m@ as int);
        assert forall|dd: nat|
            #![trigger d@ % dd, v@ % dd]
            dd > 1 && dd % 2 == 1 && d@ % dd == 0 && v@ % dd == 0 implies a % dd == 0 && m@ % dd
                == 0 by {
            lemma_add_mod_noop(d@ as int, v@ as int, dd as int);
            lemma_small_mod(0, dd);
            assert(u@ % dd == 0);
        }
    }
    (d, nb)
}

/// The inverse of `a` modulo `m`, by the binary extended Euclidean algorithm; `None` where `a`
/// has none.
pub fn mod_inverse(a: &U256, m: &U256) -> (r: Option<U256>)
    requires
        valid_modulus(m@),
        a@ < m@,
    ensures
        r matches Some(x) ==> x@ < m@ && (a@ * x@) % m@ == 1,
        r is None <==> !has_inverse(a@, m@),
{
    if a.is_zero() {
        proof {
            assert forall|x: nat| #[trigger] ((a@ * x) % m@) != 1 by {
                lemma_small_mod(0, m@);
            }
        }
        return None;
    }
    let mut u = *a;
    let mut v = *m;
    let mut b = U256::one();
    let mut c = U256::zero();
    let one = U256::one();
    proof {
        lemma_small_mod(a@, m@);
        lemma_mod_self_0(m@ as int);
        lemma_small_mod(0, m@);
        lemma_small_mod(1, m@);
    }
    loop
        invariant
            one@ == 1,
            valid_modulus(m@),
            a@ < m@,
            0 < u@ <= a@,
            0 < v@ <= m@,
            b@ < m@,
            c@ < m@,
            (b@ * a@) % m@ == u@ % m@,
            (c@ * a@) % m@ == v@ % m@,
            odd_divisors_inherited(u@, v@, a@, m@),
        decreases u@ + v@,
    {
        let (u1, b1) = halve_until_odd(u, b, Ghost(v@), Ghost(a@), m);
        u = u1;
        b = b1;
        proof {
            lemma_odd_divisors_sym(u@, v@, a@, m@);
        }
        let (v1, c1) = halve_until_odd(v, c, Ghost(u@), Ghost(a@), m);
        v = v1;
        c = c1;
        proof {
            lemma_odd_divisors_sym(v@, u@, a@, m@);
        }
        if u.eq(&one) {
            proof {
                lemma_small_mod(1, m@);
                lemma_mul_is_commutative(a@ as int, b@ as int);
                assert((a@ * b@) % m@ == 1);
            }
            return Some(b);
        }
        if v.eq(&one) {
            proof {
                lemma_small_mod(1, m@);
                lemma_mul_is_commutative(a@ as int, c@ as int);
                assert((a@ * c@) % m@ == 1);
            }
            return Some(c);
        }
        if u.eq(&v) {
            proof {
                lemma_mod_self_0(u@ as int);
                assert(u@ % u@ == 0 && v@ % u@ == 0);
                lemma_common_divisor_no_inverse(a@, m@, u@);
            }
            return None;
        }
        if !u.lt(&v) {
            let (u2, b2) = subtract_step(&u, &v, &b, &c, Ghost(a@), m);
            u = u2;
            b = b2;
        } else {
            proof {
                lemma_odd_divisors_sym(u@, v@, a@, m@);
            }
            let (v2, c2) = subtract_step(&v, &u, &c, &b, Ghost(a@), m);
            v = v2;
            c = c2;
            proof {
                lemma_odd_divisors_sym(v@, u@, a@, m@);
            }
        }
    }
}

} // verus!
