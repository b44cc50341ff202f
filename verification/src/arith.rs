//! Fixed-width unsigned integers of 256 and 512 bits, stored as
//! little-endian arrays of 64-bit limbs, with their value as a natural number
//! as the model.
use vstd::prelude::*;
use vstd::arithmetic::power2::*;
use vstd::arithmetic::div_mod::*;
use vstd::arithmetic::mul::*;

verus! {

/// 2^64
pub open spec fn b1() -> nat {
    18446744073709551616nat
}

/// 2^128
pub open spec fn b2() -> nat {
    340282366920938463463374607431768211456nat
}

/// 2^192
pub open spec fn b3() -> nat {
    6277101735386680763835789423207666416102355444464034512896nat
}

/// 2^256
pub open spec fn b4() -> nat {
    115792089237316195423570985008687907853269984665640564039457584007913129639936nat
}

/// The value of a little-endian sequence of 64-bit limbs.
pub open spec fn limbs_val(s: Seq<u64>) -> nat
    decreases s.len(),
{
    if s.len() == 0 {
        0
    } else {
        s[0] as nat + b1() * limbs_val(s.drop_first())
    }
}

/// Bit `n` of the natural number `x`.
pub open spec fn nat_bit(x: nat, n: nat) -> bool {
    (x / pow2(n)) % 2 == 1
}

/// `x` with bit `n` replaced by `b`.
pub open spec fn nat_with_bit(x: nat, n: nat, b: bool) -> nat {
    (x - (if nat_bit(x, n) { pow2(n) } else { 0 }) + (if b { pow2(n) } else { 0 })) as nat
}

/// Errors of the conversions from byte slices.
#[derive(Debug, Clone, Copy, PartialEq, Eq)]
pub enum Error {
    InvalidLength { expected: usize, actual: usize },
}

/// A 256-bit unsigned integer; `self.0[0]` is the least significant limb.
#[derive(Copy, Clone, Debug, PartialEq, Eq)]
pub struct U256(pub [u64; 4]);

/// A 512-bit unsigned integer; `self.0[0]` is the least significant limb.
#[derive(Copy, Clone, Debug, PartialEq, Eq)]
pub struct U512(pub [u64; 8]);

impl View for U256 {
    type V = nat;

    open spec fn view(&self) -> nat {
        self.0[0] as nat + b1() * (self.0[1] as nat) + b2() * (self.0[2] as nat) + b3() * (self.0[3] as nat)
    }
}

impl View for U512 {
    type V = nat;

    open spec fn view(&self) -> nat {
        self.lo_val() + b4() * self.hi_val()
    }
}

impl U512 {
    pub open spec fn lo_val(&self) -> nat {
        self.0[0] as nat + b1() * (self.0[1] as nat) + b2() * (self.0[2] as nat) + b3() * (self.0[3] as nat)
    }

    pub open spec fn hi_val(&self) -> nat {
        self.0[4] as nat + b1() * (self.0[5] as nat) + b2() * (self.0[6] as nat) + b3() * (self.0[7] as nat)
    }
}

pub proof fn lemma_pow2_limbs()
    ensures
        pow2(64) == b1(),
        pow2(128) == b2(),
        pow2(192) == b3(),
        pow2(256) == b4(),
{
    lemma2_to64();
    lemma_pow2_adds(64, 64);
    lemma_pow2_adds(128, 64);
    lemma_pow2_adds(192, 64);
}

/// The value of four limbs as a sequence agrees with the explicit formula.
pub proof fn lemma_limbs_val4(l: [u64; 4])
    ensures
        limbs_val(l@) == l[0] as nat + b1() * l[1] + b2() * l[2] + b3() * l[3],
{
    let s = l@;
    assert(s.drop_first().drop_first().drop_first().drop_first().len() == 0);
    assert(limbs_val(s.drop_first().drop_first().drop_first()) == l[3] as nat + b1() * 0) by {
        reveal_with_fuel(limbs_val, 2);
    }
    assert(limbs_val(s.drop_first().drop_first()) == l[2] + b1() * l[3]);
    assert(limbs_val(s.drop_first()) == l[1] + b1() * (l[2] + b1() * l[3]));
    assert(limbs_val(s) == l[0] + b1() * (l[1] + b1() * (l[2] + b1() * l[3])));
    assert(b1() * (l[1] + b1() * (l[2] + b1() * l[3])) == b1() * l[1] + b2() * l[2] + b3() * l[3])
        by (nonlinear_arith);
}

/// The value of eight limbs as a sequence agrees with low and high halves.
pub proof fn lemma_limbs_val8(l: [u64; 8])
    ensures
        limbs_val(l@) == (l[0] as nat + b1() * l[1] + b2() * l[2] + b3() * l[3]) + b4() * (l[4]
            as nat + b1() * l[5] + b2() * l[6] + b3() * l[7]),
{
    let s = l@;
    let hi = s.subrange(4, 8);
    lemma_limbs_val_split(s, 4);
    let h: [u64; 4] = [l[4], l[5], l[6], l[7]];
    let lo: [u64; 4] = [l[0], l[1], l[2], l[3]];
    assert(h@ =~= hi);
    assert(lo@ =~= s.subrange(0, 4));
    lemma_limbs_val4(h);
    lemma_limbs_val4(lo);
    lemma_pow2_limbs();
}

/// Splitting a limb sequence at `k` splits its value.
pub proof fn lemma_limbs_val_split(s: Seq<u64>, k: nat)
    requires
        k <= s.len(),
    ensures
        limbs_val(s) == limbs_val(s.subrange(0, k as int)) + pow2(64 * k) * limbs_val(
            s.subrange(k as int, s.len() as int),
        ),
    decreases k,
{
    if k == 0 {
        assert(s.subrange(0, 0).len() == 0);
        assert(s.subrange(0, s.len() as int) =~= s);
        lemma2_to64();
    } else {
        let t = s.drop_first();
        lemma_limbs_val_split(t, (k - 1) as nat);
        assert(t.subrange(0, k - 1) =~= s.subrange(0, k as int).drop_first());
        assert(t.subrange(k - 1, t.len() as int) =~= s.subrange(k as int, s.len() as int));
        lemma_pow2_adds(64, 64 * (k - 1) as nat);
        lemma_pow2_limbs();
        let a = limbs_val(t.subrange(0, k - 1));
        let c = limbs_val(s.subrange(k as int, s.len() as int));
        let p = pow2(64 * (k - 1) as nat);
        assert(b1() * (a + p * c) == b1() * a + (b1() * p) * c) by (nonlinear_arith);
        assert(64 + 64 * (k - 1) as nat == 64 * k);
    }
}

/// Bit `n` of a limb sequence's value is bit `n % 64` of limb `n / 64`.
pub proof fn lemma_limbs_bit(s: Seq<u64>, n: nat)
    requires
        n < 64 * s.len(),
    ensures
        (limbs_val(s) / pow2(n)) % 2 == (s[(n / 64) as int] as nat / pow2(n % 64)) % 2,
    decreases n,
{
    let rest = limbs_val(s.drop_first());
    lemma_pow2_limbs();
    if n < 64 {
        let j = n;
        lemma_pow2_pos(j);
        lemma_pow2_pos((64 - j) as nat);
        lemma_pow2_adds(j, (64 - j) as nat);
        // limbs_val(s) == s[0] + pow2(j) * (pow2(64 - j) * rest)
        let k = pow2((64 - j) as nat) * rest;
        assert(b1() * rest == pow2(j) * k) by {
            lemma_mul_is_associative(pow2(j) as int, pow2((64 - j) as nat) as int, rest as int);
        }
        lemma_hoist_over_denominator(s[0] as int, k as int, pow2(j));
        lemma_mul_is_commutative(k as int, pow2(j) as int);
        // (s[0] / 2^j + k) % 2
        if j < 64 {
            lemma_pow2_adds(1, (63 - j) as nat);
            lemma2_to64();
            let k2 = pow2((63 - j) as nat) * rest;
            assert(k == 2 * k2) by {
                lemma_mul_is_associative(2, pow2((63 - j) as nat) as int, rest as int);
            }
            lemma_mod_multiples_vanish(k2 as int, (s[0] as nat / pow2(j)) as int, 2);
        }
        assert(n / 64 == 0);
        assert(n % 64 == n);
    } else {
        let m = (n - 64) as nat;
        lemma_limbs_bit(s.drop_first(), m);
        lemma_pow2_adds(64, m);
        lemma_pow2_pos(m);
        // limbs_val(s) / (2^64 * 2^m) == (limbs_val(s) / 2^64) / 2^m
        lemma_div_denominator(limbs_val(s) as int, pow2(64) as int, pow2(m) as int);
        // limbs_val(s) / 2^64 == rest
        assert(limbs_val(s) == s[0] as nat + b1() * rest);
        lemma_hoist_over_denominator(s[0] as int, rest as int, b1());
        lemma_mul_is_commutative(rest as int, b1() as int);
        assert((s[0] as nat) / b1() == 0) by {
            lemma_basic_div(s[0] as int, b1() as int);
        }
        assert(n / 64 == m / 64 + 1) by {
            lemma_div_plus_one(m as int, 64);
        }
        assert(n % 64 == m % 64) by {
            lemma_mod_add_multiples_vanish(m as int, 64);
        }
    }
}

/// `(l >> j) & 1` is bit `j` of `l`.
pub proof fn lemma_u64_bit(l: u64, j: u64)
    requires
        j < 64,
    ensures
        ((l >> j) & 1 == 1) == ((l as nat / pow2(j as nat)) % 2 == 1),
        (l >> j) & 1 == (l as nat / pow2(j as nat)) % 2,
{
    vstd::bits::lemma_u64_shr_is_div(l, j);
    let q = l >> j;
    assert(q & 1 == q % 2) by (bit_vector);
}

/// Unsigned add with carry in and carry out.
fn adc(a: u64, b: u64, c: u64) -> (r: (u64, u64))
    requires
        c <= 1,
    ensures
        r.0 + b1() * r.1 == a + b + c,
        r.1 <= 1,
{
    let s: u128 = a as u128 + b as u128 + c as u128;
    let lo = s as u64;
    let hi = (s >> 64u32) as u64;
    assert(lo as u128 + (hi as u128) * 0x1_0000_0000_0000_0000u128 == s && hi <= 1) by (bit_vector)
        requires
            s == a as u128 + b as u128 + c as u128,
            c <= 1,
            lo == s as u64,
            hi == (s >> 64u32) as u64,
    ;
    (lo, hi)
}

/// Unsigned subtract with borrow in and borrow out.
fn sbb(a: u64, b: u64, c: u64) -> (r: (u64, u64))
    requires
        c <= 1,
    ensures
        r.0 == a - b - c + b1() * r.1,
        r.1 <= 1,
{
    let t: u128 = b as u128 + c as u128;
    if (a as u128) >= t {
        ((a as u128 - t) as u64, 0)
    } else {
        ((a as u128 + 0x1_0000_0000_0000_0000u128 - t) as u64, 1)
    }
}

impl U256 {
    pub fn zero() -> (r: U256)
        ensures
            r@ == 0,
    {
        U256([0, 0, 0, 0])
    }

    pub fn one() -> (r: U256)
        ensures
            r@ == 1,
    {
        U256([1, 0, 0, 0])
    }

    pub fn from_u64(x: u64) -> (r: U256)
        ensures
            r@ == x,
    {
        U256([x, 0, 0, 0])
    }

    /// Builds a value from four little-endian 64-bit words.
    pub fn from_words(w: [u64; 4]) -> (r: U256)
        ensures
            r.0 == w,
            r@ == limbs_val(w@),
    {
        proof {
            lemma_limbs_val4(w);
        }
        U256(w)
    }

    /// The four little-endian 64-bit words of the value.
    pub fn to_words(&self) -> (r: [u64; 4])
        ensures
            r == self.0,
            limbs_val(r@) == self@,
    {
        proof {
            lemma_limbs_val4(self.0);
        }
        self.0
    }

    pub proof fn lemma_bound(&self)
        ensures
            self@ < b4(),
    {
    }

    pub fn is_zero(&self) -> (r: bool)
        ensures
            r == (self@ == 0),
    {
        self.0[0] == 0 && self.0[1] == 0 && self.0[2] == 0 && self.0[3] == 0
    }

    pub fn eq(&self, other: &U256) -> (r: bool)
        ensures
            r == (self@ == other@),
    {
        let (d, borrow) = self.sub_borrow(other);
        !borrow && d.is_zero()
    }

    pub fn is_even(&self) -> (r: bool)
        ensures
            r == (self@ % 2 == 0),
    {
        let l = self.0[0];
        let r = l & 1 == 0;
        assert((l & 1 == 0) == (l % 2 == 0)) by (bit_vector);
        let ghost x: nat = 9223372036854775808nat * (self.0[1] as nat) + 170141183460469231731687303715884105728nat
            * (self.0[2] as nat) + 3138550867693340381917894711603833208051177722232017256448nat * (self.0[3] as nat);
        assert(self@ == l + 2 * x) by {
            assert(b1() == 2 * 9223372036854775808nat);
            assert(b2() == 2 * 170141183460469231731687303715884105728nat);
            assert(b3() == 2 * 3138550867693340381917894711603833208051177722232017256448nat);
        }
        proof {
            lemma_mod_multiples_vanish(x as int, l as int, 2);
        }
        r
    }

    /// `self + other`, with the carry out of bit 255.
    pub fn add_carry(&self, other: &U256) -> (r: (U256, bool))
        ensures
            r.0@ + (if r.1 { b4() } else { 0 }) == self@ + other@,
    {
        let (r0, c0) = adc(self.0[0], other.0[0], 0);
        let (r1, c1) = adc(self.0[1], other.0[1], c0);
        let (r2, c2) = adc(self.0[2], other.0[2], c1);
        let (r3, c3) = adc(self.0[3], other.0[3], c2);
        (U256([r0, r1, r2, r3]), c3 == 1)
    }

    /// `self - other`, with the borrow out of bit 255.
    pub fn sub_borrow(&self, other: &U256) -> (r: (U256, bool))
        ensures
            r.0@ == self@ - other@ + (if r.1 { b4() } else { 0 }),
            r.1 == (self@ < other@),
    {
        let (r0, c0) = sbb(self.0[0], other.0[0], 0);
        let (r1, c1) = sbb(self.0[1], other.0[1], c0);
        let (r2, c2) = sbb(self.0[2], other.0[2], c1);
        let (r3, c3) = sbb(self.0[3], other.0[3], c2);
        let r = U256([r0, r1, r2, r3]);
        assert(r@ == self@ - other@ + b4() * c3);
        (r, c3 == 1)
    }

    /// `self < other`
    pub fn lt(&self, other: &U256) -> (r: bool)
        ensures
            r == (self@ < other@),
    {
        let (_, borrow) = self.sub_borrow(other);
        borrow
    }

    /// `self * 2`, with the bit shifted out.
    pub fn mul2(&self) -> (r: (U256, bool))
        ensures
            r.0@ + (if r.1 { b4() } else { 0 }) == 2 * self@,
    {
        self.add_carry(self)
    }

    /// Bit `n` of the value; `None` where `n >= 256`.
    pub fn get_bit(&self, n: usize) -> (r: Option<bool>)
        ensures
            n < 256 ==> r == Some(nat_bit(self@, n as nat)),
            n >= 256 ==> r.is_none(),
    {
        if n >= 256 {
            return None;
        }
        let k = n / 64;
        let j = n % 64;
        let l = self.0[k];
        let b = (l >> (j as u64)) & 1 == 1;
        proof {
            lemma_limbs_val4(self.0);
            lemma_limbs_bit(self.0@, n as nat);
            lemma_u64_bit(l, j as u64);
        }
        Some(b)
    }

    /// Sets bit `n` to `to`; returns `false`, changing nothing, where `n >= 256`.
    pub fn set_bit(&mut self, n: usize, to: bool) -> (r: bool)
        ensures
            r == (n < 256),
            n < 256 ==> final(self)@ == nat_with_bit(old(self)@, n as nat, to),
            n >= 256 ==> *final(self) == *old(self),
    {
        if n >= 256 {
            return false;
        }
        let k = n / 64;
        let j = (n % 64) as u64;
        let l = self.0[k];
        let ghost old_self = *self;
        let nl: u64 = if to {
            l | (1u64 << j)
        } else {
            l & !(1u64 << j)
        };
        proof {
            lemma_limbs_val4(self.0);
            lemma_limbs_bit(self.0@, n as nat);
            lemma_u64_bit(l, j);
            vstd::bits::lemma_u64_pow2_no_overflow(j as nat);
            vstd::bits::lemma_u64_shl_is_mul(1, j);
            lemma_pow2_pos(j as nat);
            let bit = (l >> j) & 1;
            let p = 1u64 << j;
            assert((to && bit == 1 ==> nl == l) && (to && bit == 0 ==> nl as int == l + p) && (!to
                && bit == 1 ==> nl as int == l - p) && (!to && bit == 0 ==> nl == l) && (bit == 0
                || bit == 1)) by (bit_vector)
                requires
                    j < 64,
                    bit == (l >> j) & 1,
                    p == 1u64 << j,
                    to ==> nl == l | p,
                    !to ==> nl == l & !p,
            ;
            assert(p == pow2(j as nat));
            lemma_pow2_adds(64 * (k as nat), j as nat);
            lemma_pow2_limbs();
            lemma2_to64();
            assert(64 * (k as nat) + j == n);
        }
        self.0[k] = nl;
        proof {
            let d = if to { pow2(j as nat) as int } else { 0 } - (if nat_bit(old_self@, n as nat) {
                pow2(j as nat) as int
            } else {
                0
            });
            assert(nl as int == l + d) by {
                let bit = (l >> j) & 1;
                if nat_bit(old_self@, n as nat) {
                    assert(bit == 1);
                } else {
                    assert(bit == 0);
                }
            }
            let w = pow2(64 * (k as nat));
            assert(pow2(n as nat) == w * pow2(j as nat));
            if k == 0 {
                assert(w == 1);
            } else if k == 1 {
                assert(w == b1());
            } else if k == 2 {
                assert(w == b2());
            } else {
                assert(w == b3());
            }
            assert(self@ == old_self@ + w * d) by (nonlinear_arith)
                requires
                    k < 4,
                    k == 0 ==> w == 1 && self.0[0] as int == old_self.0[0] + d && self.0[1]
                        == old_self.0[1] && self.0[2] == old_self.0[2] && self.0[3]
                        == old_self.0[3],
                    k == 1 ==> w == b1() && self.0[1] as int == old_self.0[1] + d && self.0[0]
                        == old_self.0[0] && self.0[2] == old_self.0[2] && self.0[3]
                        == old_self.0[3],
                    k == 2 ==> w == b2() && self.0[2] as int == old_self.0[2] + d && self.0[1]
                        == old_self.0[1] && self.0[0] == old_self.0[0] && self.0[3]
                        == old_self.0[3],
                    k == 3 ==> w == b3() && self.0[3] as int == old_self.0[3] + d && self.0[1]
                        == old_self.0[1] && self.0[2] == old_self.0[2] && self.0[0]
                        == old_self.0[0],
            ;
            assert(w * d == (if to { pow2(n as nat) as int } else { 0 }) - (if nat_bit(
                old_self@,
                n as nat,
            ) {
                pow2(n as nat) as int
            } else {
                0
            })) by (nonlinear_arith)
                requires
                    pow2(n as nat) == w * pow2(j as nat),
                    d == (if to { pow2(j as nat) as int } else { 0 }) - (if nat_bit(
                        old_self@,
                        n as nat,
                    ) {
                        pow2(j as nat) as int
                    } else {
                        0
                    }),
            ;
        }
        true
    }
}


/// The value of a big-endian byte sequence.
pub open spec fn be_val(s: Seq<u8>) -> nat
    decreases s.len(),
{
    if s.len() == 0 {
        0
    } else {
        be_val(s.drop_last()) * 256 + (s.last() as nat)
    }
}

/// The big-endian value of a concatenation.
pub proof fn lemma_be_val_concat(a: Seq<u8>, b: Seq<u8>)
    ensures
        be_val(a + b) == be_val(a) * pow2(8 * b.len()) + be_val(b),
    decreases b.len(),
{
    if b.len() == 0 {
        assert(a + b =~= a);
        lemma2_to64();
        assert(be_val(b) == 0);
        assert(pow2(8 * b.len()) == 1);
        assert(be_val(a + b) == be_val(a));
        assert(be_val(a + b) == be_val(a) * pow2(8 * b.len()) + be_val(b));
    } else {
        let b1 = b.drop_last();
        lemma_be_val_concat(a, b1);
        assert((a + b).drop_last() =~= a + b1);
        assert((a + b).last() == b.last());
        lemma_pow2_adds(8 * b1.len(), 8);
        lemma2_to64();
        assert(8 * b1.len() + 8 == 8 * b.len());
        let x = be_val(a);
        let p = pow2(8 * b1.len());
        assert(pow2(8 * b.len()) == p * 256);
        assert(be_val(a + b) == be_val(a + b1) * 256 + b.last());
        assert(be_val(b) == be_val(b1) * 256 + b.last());
        assert((x * p + be_val(b1)) * 256 + b.last() == x * (p * 256) + (be_val(b1) * 256 + b.last()))
            by (nonlinear_arith);
        assert(be_val(a + b) == be_val(a) * pow2(8 * b.len()) + be_val(b));
    }
}

/// A big-endian byte sequence is below `2^(8 * len)`.
pub proof fn lemma_be_val_bound(s: Seq<u8>)
    ensures
        be_val(s) < pow2(8 * s.len()),
    decreases s.len(),
{
    if s.len() == 0 {
        lemma2_to64();
    } else {
        lemma_be_val_bound(s.drop_last());
        lemma_pow2_adds(8 * (s.len() - 1) as nat, 8);
        lemma2_to64();
        assert(8 * (s.len() - 1) as nat + 8 == 8 * s.len());
        let p = pow2(8 * (s.len() - 1) as nat);
        assert(be_val(s.drop_last()) * 256 + s.last() < p * 256) by (nonlinear_arith)
            requires
                be_val(s.drop_last()) < p,
                s.last() < 256,
        ;
    }
}

/// Reads eight bytes at `off` as a big-endian word.
fn read_be_u64(s: &[u8], off: usize) -> (r: u64)
    requires
        off + 8 <= s.len(),
    ensures
        r == be_val(s@.subrange(off as int, off + 8)),
{
    let mut w: u64 = 0;
    let mut i: usize = 0;
    while i < 8
        invariant
            i <= 8,
            off + 8 <= s.len(),
            w == be_val(s@.subrange(off as int, off + i)),
        decreases 8 - i,
    {
        proof {
            lemma_be_val_bound(s@.subrange(off as int, off + i));
            if i < 7 {
                vstd::arithmetic::power2::lemma_pow2_strictly_increases(8 * i as nat, 56);
            }
            lemma2_to64_rest();
            assert(s@.subrange(off as int, off + i + 1).drop_last() =~= s@.subrange(
                off as int,
                off + i,
            ));
        }
        assert(w * 256 + 255 <= u64::MAX) by (nonlinear_arith)
            requires
                w < 72057594037927936u64,
        ;
        w = w * 256 + s[off + i] as u64;
        i = i + 1;
    }
    w
}

/// Writes a word as eight big-endian bytes at `off`.
fn write_be_u64(s: &mut [u8], off: usize, w: u64)
    requires
        off + 8 <= old(s).len(),
    ensures
        final(s).len() == old(s).len(),
        be_val(final(s)@.subrange(off as int, off + 8)) == w,
        forall|i: int|
            0 <= i < old(s).len() && !(off <= i < off + 8) ==> final(s)@[i] == old(s)@[i],
{
    let b0 = (w >> 56u64) as u8;
    let b1 = ((w >> 48u64) & 0xff) as u8;
    let b2 = ((w >> 40u64) & 0xff) as u8;
    let b3 = ((w >> 32u64) & 0xff) as u8;
    let b4 = ((w >> 24u64) & 0xff) as u8;
    let b5 = ((w >> 16u64) & 0xff) as u8;
    let b6 = ((w >> 8u64) & 0xff) as u8;
    let b7 = (w & 0xff) as u8;
    assert(((((((b0 as u64 * 256 + b1 as u64) * 256 + b2 as u64) * 256 + b3 as u64) * 256
        + b4 as u64) * 256 + b5 as u64) * 256 + b6 as u64) * 256 + b7 as u64 == w) by (bit_vector)
        requires
            b0 == (w >> 56u64) as u8,
            b1 == ((w >> 48u64) & 0xff) as u8,
            b2 == ((w >> 40u64) & 0xff) as u8,
            b3 == ((w >> 32u64) & 0xff) as u8,
            b4 == ((w >> 24u64) & 0xff) as u8,
            b5 == ((w >> 16u64) & 0xff) as u8,
            b6 == ((w >> 8u64) & 0xff) as u8,
            b7 == (w & 0xff) as u8,
    ;
    s[off] = b0;
    s[off + 1] = b1;
    s[off + 2] = b2;
    s[off + 3] = b3;
    s[off + 4] = b4;
    s[off + 5] = b5;
    s[off + 6] = b6;
    s[off + 7] = b7;
    proof {
        let t = s@.subrange(off as int, off + 8);
        assert(t =~= seq![b0, b1, b2, b3, b4, b5, b6, b7]);
        reveal_with_fuel(be_val, 9);
        assert(t.drop_last() =~= seq![b0, b1, b2, b3, b4, b5, b6]);
        assert(t.drop_last().drop_last() =~= seq![b0, b1, b2, b3, b4, b5]);
        assert(t.drop_last().drop_last().drop_last() =~= seq![b0, b1, b2, b3, b4]);
        assert(t.drop_last().drop_last().drop_last().drop_last() =~= seq![b0, b1, b2, b3]);
        assert(t.drop_last().drop_last().drop_last().drop_last().drop_last() =~= seq![b0, b1, b2]);
        assert(t.drop_last().drop_last().drop_last().drop_last().drop_last().drop_last() =~= seq![
            b0,
            b1,
        ]);
        assert(t.drop_last().drop_last().drop_last().drop_last().drop_last().drop_last().drop_last()
            =~= seq![b0]);
        assert(seq![b0].drop_last().len() == 0);
    }
}

/// The value of four words read big-endian from 32 bytes.
proof fn lemma_be_words(s: Seq<u8>, w: [u64; 4])
    requires
        s.len() == 32,
        w[3] == be_val(s.subrange(0, 8)),
        w[2] == be_val(s.subrange(8, 16)),
        w[1] == be_val(s.subrange(16, 24)),
        w[0] == be_val(s.subrange(24, 32)),
    ensures
        be_val(s) == w[0] as nat + b1() * w[1] + b2() * w[2] + b3() * w[3],
{
    lemma_pow2_limbs();
    lemma_be_val_concat(s.subrange(0, 8), s.subrange(8, 16));
    assert(s.subrange(0, 8) + s.subrange(8, 16) =~= s.subrange(0, 16));
    lemma_be_val_concat(s.subrange(0, 16), s.subrange(16, 24));
    assert(s.subrange(0, 16) + s.subrange(16, 24) =~= s.subrange(0, 24));
    lemma_be_val_concat(s.subrange(0, 24), s.subrange(24, 32));
    assert(s.subrange(0, 24) + s.subrange(24, 32) =~= s);
    assert(8 * s.subrange(8, 16).len() == 64);
    assert(8 * s.subrange(16, 24).len() == 64);
    assert(8 * s.subrange(24, 32).len() == 64);
    assert(be_val(s.subrange(0, 16)) == w[3] * b1() + w[2]);
    assert(be_val(s.subrange(0, 24)) == (w[3] * b1() + w[2]) * b1() + w[1]);
    assert(be_val(s) == ((w[3] * b1() + w[2]) * b1() + w[1]) * b1() + w[0]);
}

impl U256 {
    /// Reads a value from exactly 32 big-endian bytes.
    pub fn from_slice(s: &[u8]) -> (r: Result<U256, Error>)
        ensures
            s.len() == 32 ==> (r matches Ok(u) && u@ == be_val(s@)),
            s.len() != 32 ==> r == Err::<U256, Error>(
                Error::InvalidLength { expected: 32, actual: s.len() },
            ),
    {
        if s.len() != 32 {
            return Err(Error::InvalidLength { expected: 32, actual: s.len() });
        }
        let w3 = read_be_u64(s, 0);
        let w2 = read_be_u64(s, 8);
        let w1 = read_be_u64(s, 16);
        let w0 = read_be_u64(s, 24);
        let r = U256([w0, w1, w2, w3]);
        proof {
            lemma_be_words(s@, r.0);
        }
        Ok(r)
    }

    /// Writes the value as 32 big-endian bytes into a slice of exactly that length.
    pub fn to_big_endian(&self, s: &mut [u8]) -> (r: Result<(), Error>)
        ensures
            old(s).len() == 32 ==> r is Ok && final(s).len() == 32 && be_val(final(s)@)
                == self@,
            old(s).len() != 32 ==> r == Err::<(), Error>(
                Error::InvalidLength { expected: 32, actual: old(s).len() },
            ) && final(s)@ == old(s)@,
    {
        if s.len() != 32 {
            return Err(Error::InvalidLength { expected: 32, actual: s.len() });
        }
        write_be_u64(s, 0, self.0[3]);
        let ghost s0 = s@;
        write_be_u64(s, 8, self.0[2]);
        let ghost s1 = s@;
        write_be_u64(s, 16, self.0[1]);
        let ghost s2 = s@;
        write_be_u64(s, 24, self.0[0]);
        proof {
            assert(s@.subrange(0, 8) =~= s0.subrange(0, 8));
            assert(s@.subrange(8, 16) =~= s1.subrange(8, 16));
            assert(s@.subrange(16, 24) =~= s2.subrange(16, 24));
            lemma_be_words(s@, self.0);
        }
        Ok(())
    }
}


/// The value of four little-endian 128-bit words.
pub open spec fn u128_words_val(w: [u128; 4]) -> nat {
    w[0] as nat + b2() * (w[1] as nat) + b4() * (w[2] as nat) + b4() * b2() * (w[3] as nat)
}

/// Halving a bit position: `x / 2^i` is twice `x / 2^(i+1)` plus bit `i`.
pub proof fn lemma_div_pow2_step(x: nat, i: nat)
    ensures
        x / pow2(i) == 2 * (x / pow2(i + 1)) + (if nat_bit(x, i) { 1nat } else { 0nat }),
{
    lemma_pow2_pos(i);
    lemma_pow2_adds(i, 1);
    lemma2_to64();
    lemma_div_denominator(x as int, pow2(i) as int, 2);
    let y = x / pow2(i);
    lemma_fundamental_div_mod(y as int, 2);
}

/// Bit `i` and the higher bits of `x` from `x / 2^i`.
pub proof fn lemma_div_pow2_halves(x: nat, i: nat)
    ensures
        (x / pow2(i)) / 2 == x / pow2(i + 1),
        ((x / pow2(i)) % 2 == 1) == nat_bit(x, i),
{
    lemma_pow2_pos(i);
    lemma_pow2_adds(i, 1);
    lemma2_to64();
    lemma_div_denominator(x as int, pow2(i) as int, 2);
}

impl U512 {
    pub fn zero() -> (r: U512)
        ensures
            r@ == 0,
    {
        U512([0, 0, 0, 0, 0, 0, 0, 0])
    }

    /// Builds a value from four little-endian 128-bit words.
    pub fn from_u128_words(w: [u128; 4]) -> (r: U512)
        ensures
            r@ == u128_words_val(w),
    {
        let r = U512(
            [
                w[0] as u64,
                (w[0] >> 64u32) as u64,
                w[1] as u64,
                (w[1] >> 64u32) as u64,
                w[2] as u64,
                (w[2] >> 64u32) as u64,
                w[3] as u64,
                (w[3] >> 64u32) as u64,
            ],
        );
        proof {
            let mut k: int = 0;
            assert forall|k: int| 0 <= k < 4 implies (w[k] as u64) as nat + b1() * ((w[k] >> 64u32) as u64) as nat == w[k] by {
                let x = w[k];
                assert((x as u64) as u128 + ((x >> 64u32) as u64) as u128 * 0x1_0000_0000_0000_0000u128 == x) by (bit_vector);
            }
            assert(b4() * b2() == b2() * b4());
            assert(r.lo_val() == w[0] as nat + b2() * w[1]);
            assert(r.hi_val() == w[2] as nat + b2() * w[3]);
            assert(b4() * (w[2] as nat + b2() * w[3]) == b4() * w[2] + b4() * b2() * w[3]) by (nonlinear_arith);
        }
        r
    }

    /// Reads a value from exactly 64 big-endian bytes.
    pub fn from_slice(s: &[u8]) -> (r: Result<U512, Error>)
        ensures
            s.len() == 64 ==> (r matches Ok(u) && u@ == be_val(s@)),
            s.len() != 64 ==> r == Err::<U512, Error>(
                Error::InvalidLength { expected: 64, actual: s.len() },
            ),
    {
        if s.len() != 64 {
            return Err(Error::InvalidLength { expected: 64, actual: s.len() });
        }
        let w7 = read_be_u64(s, 0);
        let w6 = read_be_u64(s, 8);
        let w5 = read_be_u64(s, 16);
        let w4 = read_be_u64(s, 24);
        let w3 = read_be_u64(s, 32);
        let w2 = read_be_u64(s, 40);
        let w1 = read_be_u64(s, 48);
        let w0 = read_be_u64(s, 56);
        let r = U512([w0, w1, w2, w3, w4, w5, w6, w7]);
        proof {
            let hi = s@.subrange(0, 32);
            let lo = s@.subrange(32, 64);
            assert(hi.subrange(0, 8) =~= s@.subrange(0, 8));
            assert(hi.subrange(8, 16) =~= s@.subrange(8, 16));
            assert(hi.subrange(16, 24) =~= s@.subrange(16, 24));
            assert(hi.subrange(24, 32) =~= s@.subrange(24, 32));
            assert(lo.subrange(0, 8) =~= s@.subrange(32, 40));
            assert(lo.subrange(8, 16) =~= s@.subrange(40, 48));
            assert(lo.subrange(16, 24) =~= s@.subrange(48, 56));
            assert(lo.subrange(24, 32) =~= s@.subrange(56, 64));
            lemma_be_words(hi, [w4, w5, w6, w7]);
            lemma_be_words(lo, [w0, w1, w2, w3]);
            lemma_be_val_concat(hi, lo);
            assert(hi + lo =~= s@);
            lemma_pow2_limbs();
            assert(8 * lo.len() == 256);
            assert(be_val(hi) == r.hi_val());
            assert(be_val(lo) == r.lo_val());
            assert(be_val(s@) == be_val(hi) * b4() + be_val(lo));
            assert(r@ == r.lo_val() + b4() * r.hi_val());
            assert(r@ == be_val(s@)) by (nonlinear_arith)
                requires
                    r@ == r.lo_val() + b4() * r.hi_val(),
                    be_val(s@) == be_val(hi) * b4() + be_val(lo),
                    be_val(hi) == r.hi_val(),
                    be_val(lo) == r.lo_val(),
            ;
        }
        Ok(r)
    }

    /// Reads a value from 64 big-endian bytes.
    pub fn interpret(buf: &[u8; 64]) -> (r: U512)
        ensures
            r@ == be_val(buf@),
    {
        let s: &[u8] = buf.as_slice();
        match U512::from_slice(s) {
            Ok(u) => u,
            Err(_) => U512::zero(),
        }
    }

    /// Bit `n` of the value, for `n < 512`.
    pub fn get_bit(&self, n: usize) -> (r: bool)
        requires
            n < 512,
        ensures
            r == nat_bit(self@, n as nat),
    {
        let k = n / 64;
        let j = n % 64;
        let l = self.0[k];
        let b = (l >> (j as u64)) & 1 == 1;
        proof {
            lemma_limbs_val8(self.0);
            lemma_limbs_bit(self.0@, n as nat);
            lemma_u64_bit(l, j as u64);
        }
        b
    }

    /// `2 * self + bit`.
    fn double_plus(&self, bit: bool) -> (r: U512)
        requires
            2 * self@ + 1 < b4() * b4(),
        ensures
            r@ == 2 * self@ + (if bit { 1nat } else { 0nat }),
    {
        let c: u64 = if bit { 1 } else { 0 };
        let (r0, c0) = adc(self.0[0], self.0[0], c);
        let (r1, c1) = adc(self.0[1], self.0[1], c0);
        let (r2, c2) = adc(self.0[2], self.0[2], c1);
        let (r3, c3) = adc(self.0[3], self.0[3], c2);
        let (r4, c4) = adc(self.0[4], self.0[4], c3);
        let (r5, c5) = adc(self.0[5], self.0[5], c4);
        let (r6, c6) = adc(self.0[6], self.0[6], c5);
        let (r7, c7) = adc(self.0[7], self.0[7], c6);
        let r = U512([r0, r1, r2, r3, r4, r5, r6, r7]);
        assert(r.lo_val() + b4() * c3 == 2 * self.lo_val() + c);
        assert(r.hi_val() + b4() * c7 == 2 * self.hi_val() + c3);
        assert(c7 == 0) by (nonlinear_arith)
            requires
                r.lo_val() + b4() * c3 == 2 * self.lo_val() + c,
                r.hi_val() + b4() * c7 == 2 * self.hi_val() + c3,
                2 * (self.lo_val() + b4() * self.hi_val()) + 1 < b4() * b4(),
                c <= 1,
                b4() > 0,
        ;
        assert(r@ == 2 * self@ + c) by (nonlinear_arith)
            requires
                r.lo_val() + b4() * c3 == 2 * self.lo_val() + c,
                r.hi_val() == 2 * self.hi_val() + c3,
                r@ == r.lo_val() + b4() * r.hi_val(),
                self@ == self.lo_val() + b4() * self.hi_val(),
        ;
        r
    }

    /// Long division by a modulus below `2^255`: the quotient where it is below the modulus, and
    /// the remainder.
    pub fn divrem(&self, modulo: &U256) -> (r: (Option<U256>, U256))
        requires
            0 < modulo@,
            2 * modulo@ < b4(),
        ensures
            r.1@ == self@ % modulo@,
            r.0 is Some <==> self@ / modulo@ < modulo@,
            r.0 matches Some(q) ==> q@ == self@ / modulo@,
    {
        let mut q = U512::zero();
        let mut rem = U256::zero();
        let mut i: usize = 512;
        proof {
            lemma_pow2_limbs();
            lemma_pow2_adds(256, 256);
            lemma_div_basics(self@ as int);
            assert(self@ < b4() * b4()) by (nonlinear_arith)
                requires
                    self.lo_val() < b4(),
                    self.hi_val() < b4(),
                    self@ == self.lo_val() + b4() * self.hi_val(),
            ;
            lemma_basic_div(self@ as int, pow2(512) as int);
        }
        while i > 0
            invariant
                i <= 512,
                0 < modulo@,
                2 * modulo@ < b4(),
                self@ < b4() * b4(),
                rem@ < modulo@,
                self@ / pow2(i as nat) == q@ * modulo@ + rem@,
            decreases i,
        {
            let b = self.get_bit(i - 1);
            proof {
                lemma_div_pow2_step(self@, (i - 1) as nat);
                assert((i - 1) as nat + 1 == i as nat);
            }
            let (r2, _) = rem.mul2();
            let (r3, _) = r2.add_carry(&U256::from_u64(if b { 1 } else { 0 }));
            let ge = !r3.lt(modulo);
            let r4 = if ge {
                let (d, _) = r3.sub_borrow(modulo);
                d
            } else {
                r3
            };
            proof {
                let x = self@ / pow2((i - 1) as nat);
                let bb: nat = if b { 1 } else { 0 };
                let qb: nat = if ge { 1 } else { 0 };
                assert(x == (2 * q@ + qb) * modulo@ + r4@) by (nonlinear_arith)
                    requires
                        x == 2 * (q@ * modulo@ + rem@) + bb,
                        r3@ == 2 * rem@ + bb,
                        ge ==> r4@ == r3@ - modulo@,
                        !ge ==> r4@ == r3@,
                        qb == (if ge { 1nat } else { 0nat }),
                ;
                lemma_pow2_pos((i - 1) as nat);
                lemma_div_is_ordered_by_denominator(self@ as int, 1, pow2((i - 1) as nat) as int);
                lemma_div_basics(self@ as int);
                assert(2 * q@ + qb <= x) by (nonlinear_arith)
                    requires
                        x == (2 * q@ + qb) * modulo@ + r4@,
                        modulo@ >= 1,
                ;
            }
            q = q.double_plus(ge);
            rem = r4;
            i = i - 1;
        }
        proof {
            lemma2_to64();
            lemma_fundamental_div_mod_converse(self@ as int, modulo@ as int, q@ as int, rem@ as int);
        }
        if q.0[4] == 0 && q.0[5] == 0 && q.0[6] == 0 && q.0[7] == 0 {
            let q256 = U256([q.0[0], q.0[1], q.0[2], q.0[3]]);
            if q256.lt(modulo) {
                return (Some(q256), rem);
            }
        }
        proof {
            if q@ < modulo@ {
                assert(q.hi_val() == 0) by (nonlinear_arith)
                    requires
                        q@ == q.lo_val() + b4() * q.hi_val(),
                        q@ < b4(),
                ;
            }
        }
        (None, rem)
    }
}


impl U256 {
    /// `self / 2`
    pub fn shr1(&self) -> (r: U256)
        ensures
            r@ == self@ / 2,
    {
        let l0 = self.0[0];
        let l1 = self.0[1];
        let l2 = self.0[2];
        let l3 = self.0[3];
        let r0 = (l0 >> 1u64) | (l1 << 63u64);
        let r1 = (l1 >> 1u64) | (l2 << 63u64);
        let r2 = (l2 >> 1u64) | (l3 << 63u64);
        let r3 = l3 >> 1u64;
        assert(r0 as int == (l0 >> 1u64) + (l1 & 1) * 0x8000_0000_0000_0000int && l0 as int == 2 * (l0
            >> 1u64) + (l0 & 1) && (l0 & 1) <= 1) by (bit_vector)
            requires
                r0 == (l0 >> 1u64) | (l1 << 63u64),
        ;
        assert(r1 as int == (l1 >> 1u64) + (l2 & 1) * 0x8000_0000_0000_0000int && l1 as int == 2 * (l1
            >> 1u64) + (l1 & 1)) by (bit_vector)
            requires
                r1 == (l1 >> 1u64) | (l2 << 63u64),
        ;
        assert(r2 as int == (l2 >> 1u64) + (l3 & 1) * 0x8000_0000_0000_0000int && l2 as int == 2 * (l2
            >> 1u64) + (l2 & 1)) by (bit_vector)
            requires
                r2 == (l2 >> 1u64) | (l3 << 63u64),
        ;
        assert(l3 as int == 2 * r3 + (l3 & 1)) by (bit_vector)
            requires
                r3 == l3 >> 1u64,
        ;
        let r = U256([r0, r1, r2, r3]);
        assert(self@ == 2 * r@ + (l0 & 1));
        proof {
            lemma_fundamental_div_mod_converse(self@ as int, 2, r@ as int, (l0 & 1) as int);
        }
        r
    }
}


impl U256 {
    /// The 256-bit integer whose value is `n`, for `n < 2^256`.
    pub open spec fn from_nat(n: nat) -> U256 {
        U256(
            [
                (n % b1()) as u64,
                ((n / b1()) % b1()) as u64,
                ((n / b2()) % b1()) as u64,
                ((n / b3()) % b1()) as u64,
            ],
        )
    }

    /// Limbs are determined by the value.
    pub proof fn lemma_from_nat(x: U256)
        ensures
            U256::from_nat(x@) == x,
    {
        let n = x@;
        let l = x.0;
        let t1 = l[1] as nat + b1() * l[2] + b2() * l[3];
        let t2 = l[2] as nat + b1() * l[3];
        assert(n == l[0] + b1() * t1);
        assert(n == (l[0] + b1() * l[1]) + b2() * t2);
        assert(n == (l[0] + b1() * l[1] + b2() * l[2]) + b3() * l[3]);
        lemma_fundamental_div_mod_converse(n as int, b1() as int, t1 as int, l[0] as int);
        lemma_fundamental_div_mod_converse(n as int, b2() as int, t2 as int, (l[0] + b1() * l[1]) as int);
        lemma_fundamental_div_mod_converse(n as int, b3() as int, l[3] as int, (l[0] + b1() * l[1] + b2() * l[2]) as int);
        lemma_fundamental_div_mod_converse(t1 as int, b1() as int, t2 as int, l[1] as int);
        lemma_fundamental_div_mod_converse(t2 as int, b1() as int, l[3] as int, l[2] as int);
        lemma_small_mod(l[3] as nat, b1());
        let y = U256::from_nat(n);
        assert(y.0[0] == l[0]);
        assert(y.0[1] == l[1]);
        assert(y.0[2] == l[2]);
        assert(y.0[3] == l[3]);
        assert(y.0 =~= l);
    }

    /// Equal values mean equal integers.
    pub proof fn lemma_view_injective(x: U256, y: U256)
        requires
            x@ == y@,
        ensures
            x == y,
    {
        U256::lemma_from_nat(x);
        U256::lemma_from_nat(y);
    }
}

} // verus!
