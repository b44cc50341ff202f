//! The prime fields of BN254: `Fq`, over which the curves are defined, and `Fr`, the field of
//! scalars (the order of the groups). An element is stored as its canonical representative.
use vstd::prelude::*;
use vstd::arithmetic::power::*;
use vstd::arithmetic::div_mod::*;
use vstd::arithmetic::mul::*;
use crate::arith::{b1, b2, b3, b4, be_val, nat_with_bit, u128_words_val, U256, U512};
use crate::modular::{
    has_inverse, mod_add, mod_inverse, mod_mul, mod_neg, mod_pow, mod_reduce, mod_sub,
    valid_modulus,
};
use crate::FieldError;
use vstd::string::StringSliceAdditionalSpecFns;

verus! {

/// The characteristic of the base field.
pub open spec fn fq_modulus() -> nat {
    21888242871839275222246405745257275088696311157297823662689037894645226208583nat
}

/// The order of the groups, the characteristic of the scalar field.
pub open spec fn fr_modulus() -> nat {
    21888242871839275222246405745257275088548364400416034343698204186575808495617nat
}

/// `(a + b) mod q`
pub open spec fn fq_add(a: nat, b: nat) -> nat {
    (a + b) % fq_modulus()
}

/// `(a - b) mod q`
pub open spec fn fq_sub(a: nat, b: nat) -> nat {
    ((a - b) % (fq_modulus() as int)) as nat
}

/// `(-a) mod q`
pub open spec fn fq_neg(a: nat) -> nat {
    ((0 - a) % (fq_modulus() as int)) as nat
}

/// `(a * b) mod q`
pub open spec fn fq_mul(a: nat, b: nat) -> nat {
    (a * b) % fq_modulus()
}

/// The square root that `Fq::sqrt` computes: `a^((q+1)/4)`, none where `a^((q-1)/2)` is `-1`.
pub open spec fn fq_sqrt(a: nat) -> Option<nat> {
    if pow(a as int, ((fq_modulus() - 1) / 2) as nat) % (fq_modulus() as int) == fq_modulus() - 1 {
        None
    } else {
        Some((pow(a as int, ((fq_modulus() + 1) / 4) as nat) % (fq_modulus() as int)) as nat)
    }
}

/// The inverse of `2^256` modulo the scalar field's characteristic.
pub open spec fn fr_r_inv() -> nat {
    9915499612839321149637521777990102151350674507940716049588462388200839649614nat
}

/// The inverse of `2^256` modulo the base field's characteristic.
pub open spec fn fq_r_inv() -> nat {
    20988524275117001072002809824448087578619730785600314334253784976379291040311nat
}

/// The Montgomery form `v * 2^256 mod r` in which a scalar's raw bits are read and written.
pub open spec fn fr_raw(v: nat) -> nat {
    (v * b4()) % fr_modulus()
}

/// The decimal value of a byte sequence, `None` unless every byte is an ASCII digit.
pub open spec fn decimal_value(s: Seq<u8>) -> Option<nat>
    decreases s.len(),
{
    if s.len() == 0 {
        Some(0)
    } else {
        match decimal_value(s.drop_last()) {
            Some(v) => if 48 <= s.last() <= 57 {
                Some(v * 10 + (s.last() - 48) as nat)
            } else {
                None
            },
            None => None,
        }
    }
}

pub proof fn lemma_moduli()
    ensures
        valid_modulus(fq_modulus()),
        valid_modulus(fr_modulus()),
        (b4() * fr_r_inv()) % fr_modulus() == 1,
        (b4() * fq_r_inv()) % fq_modulus() == 1,
{
    assert((b4() * fr_r_inv()) % fr_modulus() == 1);
    assert((b4() * fq_r_inv()) % fq_modulus() == 1);
}

fn fq_m() -> (r: U256)
    ensures
        r@ == fq_modulus(),
{
    U256([0x3c208c16d87cfd47, 0x97816a916871ca8d, 0xb85045b68181585d, 0x30644e72e131a029])
}

fn fr_m() -> (r: U256)
    ensures
        r@ == fr_modulus(),
{
    U256([0x43e1f593f0000001, 0x2833e84879b97091, 0xb85045b68181585d, 0x30644e72e131a029])
}

/// Parses decimal digits modulo `m`.
fn parse_decimal(s: &str, m: &U256) -> (r: Option<U256>)
    requires
        valid_modulus(m@),
    ensures
        r is Some <==> decimal_value(s.spec_bytes()) is Some,
        r matches Some(x) ==> x@ == decimal_value(s.spec_bytes())->0 % m@,
{
    let bytes = s.as_bytes();
    let ten = U256::from_u64(10);
    let mut acc = U256::zero();
    let mut i: usize = 0;
    proof {
        lemma_small_mod(0, m@);
        assert(bytes@.subrange(0, 0) =~= Seq::<u8>::empty());
    }
    while i < bytes.len()
        invariant
            valid_modulus(m@),
            ten@ == 10,
            bytes@ == s.spec_bytes(),
            i <= bytes.len(),
            acc@ < m@,
            decimal_value(bytes@.subrange(0, i as int)) is Some,
            acc@ == decimal_value(bytes@.subrange(0, i as int))->0 % m@,
        decreases bytes.len() - i,
    {
        let c = bytes[i];
        let ghost pre = bytes@.subrange(0, i as int);
        let ghost nxt = bytes@.subrange(0, i + 1);
        proof {
            assert(nxt.drop_last() =~= pre);
            assert(nxt.last() == c);
        }
        if c < 48 || c > 57 {
            proof {
                assert(decimal_value(nxt) is None);
                lemma_decimal_none_extends(bytes@, (i + 1) as nat);
                assert(bytes@.subrange(0, bytes@.len() as int) =~= bytes@);
            }
            return None;
        }
        let t = mod_mul(&acc, &ten, m);
        let d = U256::from_u64((c - 48) as u64);
        let dm = mod_reduce(&d, m);
        acc = mod_add(&t, &dm, m);
        proof {
            let v = decimal_value(pre)->0;
            lemma_mul_mod_noop_left(v as int, 10, m@ as int);
            lemma_add_mod_noop((v * 10) as int, (c - 48) as int, m@ as int);
            lemma_mod_twice((v * 10) as int, m@ as int);
            lemma_mod_twice((c - 48) as int, m@ as int);
            lemma_add_mod_noop((v * 10) as int % (m@ as int), (c - 48) as int, m@ as int);
        }
        i = i + 1;
    }
    proof {
        assert(bytes@.subrange(0, bytes@.len() as int) =~= bytes@);
    }
    Some(acc)
}

/// Once a prefix has a non-digit, so has every longer prefix.
proof fn lemma_decimal_none_extends(s: Seq<u8>, k: nat)
    requires
        k <= s.len(),
        decimal_value(s.subrange(0, k as int)) is None,
    ensures
        decimal_value(s.subrange(0, s.len() as int)) is None,
    decreases s.len() - k,
{
    if k < s.len() {
        assert(s.subrange(0, k as int + 1).drop_last() =~= s.subrange(0, k as int));
        lemma_decimal_none_extends(s, k + 1);
    }
}

/// An element of the base field.
#[derive(Copy, Clone, Debug, PartialEq, Eq)]
pub struct Fq {
    v: U256,
}

impl View for Fq {
    type V = nat;

    closed spec fn view(&self) -> nat {
        self.v@ % fq_modulus()
    }
}

impl Fq {
    #[verifier::type_invariant]
    spec fn reduced(self) -> bool {
        self.v@ < fq_modulus()
    }

    /// The element with value `n mod q`.
    pub closed spec fn from_val(n: int) -> Fq {
        Fq { v: U256::from_nat((n % (fq_modulus() as int)) as nat) }
    }

    proof fn lemma_from_val_mod(n: int)
        ensures
            Fq::from_val(n % (fq_modulus() as int)) == Fq::from_val(n),
    {
        lemma_moduli();
        lemma_mod_twice(n, fq_modulus() as int);
    }

    /// Congruent values give the same element.
    pub proof fn lemma_from_val_congruent(n: int, m: int)
        requires
            n % (fq_modulus() as int) == m % (fq_modulus() as int),
        ensures
            Fq::from_val(n) == Fq::from_val(m),
    {
    }

    pub proof fn lemma_view_bound(x: Fq)
        ensures
            x@ < fq_modulus(),
    {
        lemma_moduli();
        lemma_mod_bound(x.v@ as int, fq_modulus() as int);
    }

    pub proof fn lemma_from_val(n: int)
        ensures
            Fq::from_val(n)@ == n % (fq_modulus() as int),
    {
        lemma_moduli();
        lemma_mod_bound(n as int, fq_modulus() as int);
        let k = (n % (fq_modulus() as int)) as nat;
        let u = U256::from_nat(k);
        assert(u@ == k) by {
            lemma_u256_from_nat_value(k);
        }
        lemma_small_mod(k, fq_modulus());
    }

    /// Elements with the same value are equal.
    proof fn lemma_view_eq(x: Fq, y: Fq)
        requires
            x@ == y@,
            x.v@ < fq_modulus(),
            y.v@ < fq_modulus(),
        ensures
            x == y,
    {
        lemma_moduli();
        lemma_small_mod(x.v@, fq_modulus());
        lemma_small_mod(y.v@, fq_modulus());
        U256::lemma_view_injective(x.v, y.v);
    }

    fn wrap(v: U256) -> (r: Fq)
        requires
            v@ < fq_modulus(),
        ensures
            r@ == v@,
            r == Fq::from_val(v@ as int),
    {
        proof {
            lemma_moduli();
            lemma_small_mod(v@, fq_modulus());
            U256::lemma_from_nat(v);
        }
        Fq { v }
    }

    /// The element with the given value, known to be below `q`.
    pub(crate) fn from_reduced(v: U256) -> (r: Fq)
        requires
            v@ < fq_modulus(),
        ensures
            r@ == v@,
    {
        Fq::wrap(v)
    }

    fn raw(&self) -> (r: U256)
        ensures
            r@ == self@,
            r@ < fq_modulus(),
    {
        proof {
            use_type_invariant(self);
            lemma_moduli();
            lemma_small_mod(self.v@, fq_modulus());
        }
        self.v
    }

    pub fn zero() -> (r: Fq)
        ensures
            r@ == 0,
            r == Fq::from_val(0),
    {
        Fq::wrap(U256::zero())
    }

    pub fn one() -> (r: Fq)
        ensures
            r@ == 1,
            r == Fq::from_val(1),
    {
        Fq::wrap(U256::one())
    }

    /// The element that 512 uniformly drawn bits give: reduced modulo `q`, then read in
    /// Montgomery form.
    pub fn from_random_words(w: [u128; 4]) -> (r: Fq)
        ensures
            r@ == ((u128_words_val(w) % fq_modulus()) * fq_r_inv()) % fq_modulus(),
    {
        proof {
            lemma_moduli();
        }
        let m = fq_m();
        let x = U512::from_u128_words(w);
        let (_, red) = x.divrem(&m);
        let rinv = U256(
            [0xed84884a014afa37, 0xeb2022850278edf8, 0xcf63e9cfb74492d9, 0x2e67157159e5c639],
        );
        let v = mod_mul(&rinv, &red, &m);
        proof {
            lemma_mul_is_commutative(rinv@ as int, red@ as int);
        }
        Fq::wrap(v)
    }

    /// A uniformly random element: the one that `from_random_words` gives for the drawn words.
    pub fn random<R: rand::Rng>(rng: &mut R) -> (r: Fq)
        ensures
            r@ < fq_modulus(),
            exists|w: [u128; 4]|
                r@ == ((#[trigger] u128_words_val(w) % fq_modulus()) * fq_r_inv()) % fq_modulus(),
    {
        let w = random_words(rng);
        let r = Fq::from_random_words(w);
        proof {
            Fq::lemma_view_bound(r);
        }
        r
    }

    /// `self` raised to the value of `exp`.
    pub fn pow(&self, exp: Fq) -> (r: Fq)
        ensures
            r@ == pow(self@ as int, exp@) % (fq_modulus() as int),
    {
        proof {
            lemma_moduli();
        }
        let m = fq_m();
        let e = exp.raw();
        Fq::wrap(mod_pow(&self.raw(), &e, &m))
    }

    /// The decimal string's value modulo `q`; `None` unless every byte is an ASCII digit.
    pub fn from_str(s: &str) -> (r: Option<Fq>)
        ensures
            r is Some <==> decimal_value(s.spec_bytes()) is Some,
            r matches Some(x) ==> x@ == decimal_value(s.spec_bytes())->0 % fq_modulus(),
    {
        proof {
            lemma_moduli();
        }
        match parse_decimal(s, &fq_m()) {
            Some(v) => Some(Fq::wrap(v)),
            None => None,
        }
    }

    /// The multiplicative inverse; `None` where there is none.
    pub fn inverse(&self) -> (r: Option<Fq>)
        ensures
            r matches Some(x) ==> (self@ * x@) % fq_modulus() == 1,
            r is None <==> !has_inverse(self@, fq_modulus()),
            self@ == 0 ==> r is None,
    {
        proof {
            lemma_moduli();
        }
        let r = match mod_inverse(&self.raw(), &fq_m()) {
            Some(x) => Some(Fq::wrap(x)),
            None => None,
        };
        proof {
            if self@ == 0 {
                assert(forall|x: nat| #[trigger] ((self@ * x) % fq_modulus()) == 0);
            }
        }
        r
    }

    pub fn is_zero(&self) -> (r: bool)
        ensures
            r == (self@ == 0),
    {
        self.raw().is_zero()
    }

    /// The element whose value is the 64 big-endian bytes modulo `q`.
    pub fn interpret(buf: &[u8; 64]) -> (r: Fq)
        ensures
            r@ == be_val(buf@) % fq_modulus(),
    {
        proof {
            lemma_moduli();
        }
        let (_, red) = U512::interpret(buf).divrem(&fq_m());
        Fq::wrap(red)
    }

    /// Reads 32 big-endian bytes: an error where the length is not 32, and where the value is
    /// not below `q`.
    pub fn from_slice(slice: &[u8]) -> (r: Result<Fq, FieldError>)
        ensures
            slice.len() != 32 ==> r == Err::<Fq, FieldError>(FieldError::InvalidSliceLength),
            slice.len() == 32 && be_val(slice@) >= fq_modulus() ==> r == Err::<Fq, FieldError>(
                FieldError::NotMember,
            ),
            slice.len() == 32 && be_val(slice@) < fq_modulus() ==> (r matches Ok(x) && x@
                == be_val(slice@)),
    {
        match U256::from_slice(slice) {
            Ok(u) => Fq::from_u256(u),
            Err(_) => Err(FieldError::InvalidSliceLength),
        }
    }

    /// Writes the value as 32 big-endian bytes into a slice of exactly that length.
    pub fn to_big_endian(&self, slice: &mut [u8]) -> (r: Result<(), FieldError>)
        ensures
            old(slice).len() == 32 ==> r is Ok && final(slice).len() == 32 && be_val(
                final(slice)@,
            ) == self@,
            old(slice).len() != 32 ==> r == Err::<(), FieldError>(FieldError::InvalidSliceLength)
                && final(slice)@ == old(slice)@,
    {
        match self.raw().to_big_endian(slice) {
            Ok(()) => Ok(()),
            Err(_) => Err(FieldError::InvalidSliceLength),
        }
    }

    /// The element with the given value: an error where it is not below `q`.
    pub fn from_u256(u256: U256) -> (r: Result<Fq, FieldError>)
        ensures
            u256@ < fq_modulus() ==> (r matches Ok(x) && x@ == u256@),
            u256@ >= fq_modulus() ==> r == Err::<Fq, FieldError>(FieldError::NotMember),
    {
        if u256.lt(&fq_m()) {
            Ok(Fq::wrap(u256))
        } else {
            Err(FieldError::NotMember)
        }
    }

    /// The canonical value.
    pub fn into_u256(self) -> (r: U256)
        ensures
            r@ == self@,
    {
        self.raw()
    }

    /// The characteristic `q`.
    pub fn modulus() -> (r: U256)
        ensures
            r@ == fq_modulus(),
    {
        fq_m()
    }

    /// The square root candidate `self^((q+1)/4)`; `None` where `self^((q-1)/2)` is `-1`.
    pub fn sqrt(&self) -> (r: Option<Fq>)
        ensures
            r is None <==> pow(self@ as int, ((fq_modulus() - 1) / 2) as nat) % (
            fq_modulus() as int) == fq_modulus() - 1,
            r matches Some(x) ==> x@ == pow(self@ as int, ((fq_modulus() + 1) / 4) as nat) % (
            fq_modulus() as int),
            r matches Some(x) ==> fq_sqrt(self@) == Some(x@),
            r is None <==> fq_sqrt(self@) is None,
            r matches Some(x) ==> (x@ * x@) % fq_modulus() == (self@ * pow(
                self@ as int,
                ((fq_modulus() - 1) / 2) as nat,
            )) % (fq_modulus() as int),
            r matches Some(x) ==> (pow(self@ as int, ((fq_modulus() - 1) / 2) as nat) % (
            fq_modulus() as int) == 1 ==> (x@ * x@) % fq_modulus() == self@),
    {
        proof {
            lemma_moduli();
        }
        let m = fq_m();
        let a = self.raw();
        // (q - 3) / 4
        let e = U256(
            [0x4f082305b61f3f51, 0x65e05aa45a1c72a3, 0x6e14116da0605617, 0x0c19139cb84c680a],
        );
        let a1 = mod_pow(&a, &e, &m);
        let a1a = mod_mul(&a1, &a, &m);
        let a0 = mod_mul(&a1, &a1a, &m);
        let minus_one = U256(
            [0x3c208c16d87cfd46, 0x97816a916871ca8d, 0xb85045b68181585d, 0x30644e72e131a029],
        );
        proof {
            let ai = a@ as int;
            let q = fq_modulus() as int;
            let k = e@;
            assert(k == (fq_modulus() - 3) / 4);
            lemma_mul_mod_noop_left(pow(ai, k), ai, q);
            lemma_pow_adds(ai, k, 1);
            lemma_pow1(ai);
            lemma_mul_mod_noop(pow(ai, k), pow(ai, k + 1), q);
            lemma_pow_adds(ai, k, k + 1);
            assert(k + 1 == (fq_modulus() + 1) / 4);
            assert(k + (k + 1) == (fq_modulus() - 1) / 2);
            assert(a1a@ == pow(ai, (k + 1) as nat) % q);
            assert(a0@ == pow(ai, (k + (k + 1)) as nat) % q);
            // x * x == a^((q+1)/2) == a * a^((q-1)/2)
            let x = pow(ai, (k + 1) as nat);
            lemma_mul_mod_noop(x, x, q);
            lemma_pow_adds(ai, (k + 1) as nat, (k + 1) as nat);
            lemma_pow_adds(ai, 1, (k + (k + 1)) as nat);
            lemma_mul_mod_noop_right(ai, pow(ai, (k + (k + 1)) as nat), q);
            assert((k + 1) + (k + 1) == 1 + (k + (k + 1)));
            if pow(ai, (k + (k + 1)) as nat) % q == 1 {
                lemma_mul_mod_noop_right(ai, pow(ai, (k + (k + 1)) as nat), q);
                lemma_small_mod(a@, fq_modulus());
                assert(ai * 1 == ai);
                assert((ai * pow(ai, (k + (k + 1)) as nat)) % q == ai);
                assert((k + (k + 1)) as nat == ((fq_modulus() - 1) / 2) as nat);
            }
        }
        if a0.eq(&minus_one) {
            None
        } else {
            Some(Fq::wrap(a1a))
        }
    }

    /// `(self + other) mod q`
    pub fn add_fq(&self, other: &Fq) -> (r: Fq)
        ensures
            r@ == (self@ + other@) % fq_modulus(),
            r == Fq::from_val((self@ + other@) as int),
    {
        proof {
            lemma_moduli();
            Fq::lemma_from_val_mod((self@ + other@) as int);
        }
        Fq::wrap(mod_add(&self.raw(), &other.raw(), &fq_m()))
    }

    /// `(self - other) mod q`
    pub fn sub_fq(&self, other: &Fq) -> (r: Fq)
        ensures
            r@ == (self@ - other@) % (fq_modulus() as int),
            r@ == fq_sub(self@, other@),
            r == Fq::from_val(self@ - other@),
    {
        proof {
            lemma_moduli();
            Fq::lemma_from_val_mod(self@ - other@);
        }
        Fq::wrap(mod_sub(&self.raw(), &other.raw(), &fq_m()))
    }

    /// `(-self) mod q`
    pub fn neg_fq(&self) -> (r: Fq)
        ensures
            r@ == (0 - self@) % (fq_modulus() as int),
            r@ == fq_neg(self@),
            r == Fq::from_val(0 - self@),
    {
        proof {
            lemma_moduli();
            Fq::lemma_from_val_mod(0 - self@);
        }
        Fq::wrap(mod_neg(&self.raw(), &fq_m()))
    }

    /// `(self * other) mod q`
    pub fn mul_fq(&self, other: &Fq) -> (r: Fq)
        ensures
            r@ == (self@ * other@) % fq_modulus(),
            r == Fq::from_val((self@ * other@) as int),
    {
        proof {
            lemma_moduli();
            Fq::lemma_from_val_mod((self@ * other@) as int);
        }
        Fq::wrap(mod_mul(&self.raw(), &other.raw(), &fq_m()))
    }

    /// Whether the two elements are equal.
    pub fn equals(&self, other: &Fq) -> (r: bool)
        ensures
            r == (self@ == other@),
    {
        self.raw().eq(&other.raw())
    }
}

impl core::ops::Add<Fq> for Fq {
    type Output = Fq;

    fn add(self, other: Fq) -> (r: Fq)
        ensures
            r@ == (self@ + other@) % fq_modulus(),
    {
        self.add_fq(&other)
    }
}

impl vstd::std_specs::ops::AddSpecImpl<Fq> for Fq {
    open spec fn obeys_add_spec() -> bool {
        true
    }

    open spec fn add_req(self, rhs: Fq) -> bool {
        true
    }

    open spec fn add_spec(self, rhs: Fq) -> Fq {
        Fq::from_val((self@ + rhs@) as int)
    }
}

impl core::ops::Sub<Fq> for Fq {
    type Output = Fq;

    fn sub(self, other: Fq) -> (r: Fq)
        ensures
            r@ == (self@ - other@) % (fq_modulus() as int),
    {
        self.sub_fq(&other)
    }
}

impl vstd::std_specs::ops::SubSpecImpl<Fq> for Fq {
    open spec fn obeys_sub_spec() -> bool {
        true
    }

    open spec fn sub_req(self, rhs: Fq) -> bool {
        true
    }

    open spec fn sub_spec(self, rhs: Fq) -> Fq {
        Fq::from_val(self@ - rhs@)
    }
}

impl core::ops::Mul<Fq> for Fq {
    type Output = Fq;

    fn mul(self, other: Fq) -> (r: Fq)
        ensures
            r@ == (self@ * other@) % fq_modulus(),
    {
        self.mul_fq(&other)
    }
}

impl vstd::std_specs::ops::MulSpecImpl<Fq> for Fq {
    open spec fn obeys_mul_spec() -> bool {
        true
    }

    open spec fn mul_req(self, rhs: Fq) -> bool {
        true
    }

    open spec fn mul_spec(self, rhs: Fq) -> Fq {
        Fq::from_val((self@ * rhs@) as int)
    }
}

impl core::ops::Neg for Fq {
    type Output = Fq;

    fn neg(self) -> (r: Fq)
        ensures
            r@ == (0 - self@) % (fq_modulus() as int),
    {
        self.neg_fq()
    }
}

impl vstd::std_specs::ops::NegSpecImpl for Fq {
    open spec fn obeys_neg_spec() -> bool {
        true
    }

    open spec fn neg_req(self) -> bool {
        true
    }

    open spec fn neg_spec(self) -> Fq {
        Fq::from_val(0 - self@)
    }
}

/// An element of the scalar field, held as the 256-bit Montgomery word `value * 2^256 mod r`.
///
/// Arithmetic always leaves the word below `r`; `set_bit` may leave it at or above `r`. The
/// value is the word times `2^-256`, modulo `r`. Equality and `to_big_endian` see the word.
#[derive(Copy, Clone, Debug, PartialEq, Eq)]
pub struct Fr {
    w: U256,
}

impl View for Fr {
    type V = nat;

    closed spec fn view(&self) -> nat {
        (self.w@ * fr_r_inv()) % fr_modulus()
    }
}

/// The Montgomery word of a value below `r` is read back as that value.
proof fn lemma_fr_raw_value(k: nat)
    requires
        k < fr_modulus(),
    ensures
        (fr_raw(k) * fr_r_inv()) % fr_modulus() == k,
        fr_raw(k) < fr_modulus(),
{
    lemma_moduli();
    let m = fr_modulus() as int;
    lemma_mul_mod_noop_left((k * b4()) as int, fr_r_inv() as int, m);
    lemma_mul_is_associative(k as int, b4() as int, fr_r_inv() as int);
    lemma_mul_mod_noop_right(k as int, (b4() * fr_r_inv()) as int, m);
    lemma_small_mod(k, fr_modulus());
    lemma_mod_bound((k * b4()) as int, m);
}

/// The Montgomery word of the value that a word stands for is that word modulo `r`.
pub proof fn lemma_fr_value_raw(w: nat)
    ensures
        fr_raw((w * fr_r_inv()) % fr_modulus()) == w % fr_modulus(),
{
    lemma_moduli();
    let m = fr_modulus() as int;
    lemma_mul_mod_noop_left((w * fr_r_inv()) as int, b4() as int, m);
    lemma_mul_is_associative(w as int, fr_r_inv() as int, b4() as int);
    lemma_mul_is_commutative(fr_r_inv() as int, b4() as int);
    lemma_mul_mod_noop_right(w as int, (fr_r_inv() * b4()) as int, m);
}

impl Fr {
    /// The Montgomery word as it is stored, compared and written.
    pub closed spec fn raw_word(self) -> nat {
        self.w@
    }

    /// Whether the word is the reduced Montgomery form of the value, as arithmetic leaves it.
    pub open spec fn canonical(self) -> bool {
        self.raw_word() == fr_raw(self@)
    }

    /// The element with value `n mod r`, in reduced Montgomery form.
    pub closed spec fn from_val(n: int) -> Fr {
        Fr { w: U256::from_nat(fr_raw((n % (fr_modulus() as int)) as nat)) }
    }

    proof fn lemma_from_val_mod(n: int)
        ensures
            Fr::from_val(n % (fr_modulus() as int)) == Fr::from_val(n),
    {
        lemma_moduli();
        lemma_mod_twice(n, fr_modulus() as int);
    }

    pub proof fn lemma_view_bound(x: Fr)
        ensures
            x@ < fr_modulus(),
    {
        lemma_moduli();
        lemma_mod_bound((x.w@ * fr_r_inv()) as int, fr_modulus() as int);
    }

    /// The value is the word times the inverse of `2^256`, modulo `r`; a word below `r` is the
    /// reduced Montgomery form of its value.
    pub proof fn lemma_view_raw(x: Fr)
        ensures
            x@ == (x.raw_word() * fr_r_inv()) % fr_modulus(),
            x.raw_word() < b4(),
            x.raw_word() < fr_modulus() ==> x.canonical(),
    {
        lemma_moduli();
        lemma_fr_value_raw(x.w@);
        x.w.lemma_bound();
        if x.w@ < fr_modulus() {
            lemma_small_mod(x.w@, fr_modulus());
        }
    }

    /// Elements in reduced Montgomery form are equal exactly where their values are.
    pub proof fn lemma_canonical_eq(a: Fr, b: Fr)
        requires
            a.canonical(),
            b.canonical(),
        ensures
            (a@ == b@) == (a == b),
    {
        if a@ == b@ {
            U256::lemma_view_injective(a.w, b.w);
        }
    }

    pub proof fn lemma_from_val(n: int)
        ensures
            Fr::from_val(n)@ == n % (fr_modulus() as int),
            Fr::from_val(n).canonical(),
    {
        lemma_moduli();
        lemma_mod_bound(n as int, fr_modulus() as int);
        let k = (n % (fr_modulus() as int)) as nat;
        lemma_fr_raw_value(k);
        assert(U256::from_nat(fr_raw(k))@ == fr_raw(k)) by {
            lemma_u256_from_nat_value(fr_raw(k));
        }
    }

    fn wrap(v: U256) -> (r: Fr)
        requires
            v@ < fr_modulus(),
        ensures
            r@ == v@,
            r == Fr::from_val(v@ as int),
            r.canonical(),
    {
        proof {
            lemma_moduli();
            lemma_small_mod(v@, fr_modulus());
        }
        let rm = U256(
            [0xac96341c4ffffffb, 0x36fc76959f60cd29, 0x666ea36f7879462e, 0x0e0a77c19a07df2f],
        );
        let w = mod_mul(&rm, &v, &fr_m());
        proof {
            assert(rm@ == b4() % fr_modulus());
            lemma_mul_mod_noop_left(b4() as int, v@ as int, fr_modulus() as int);
            lemma_fr_raw_value(v@);
            U256::lemma_from_nat(w);
            Fr::lemma_from_val(v@ as int);
        }
        Fr { w }
    }

    /// The value, below `r`.
    fn value(&self) -> (r: U256)
        ensures
            r@ == self@,
            r@ < fr_modulus(),
    {
        proof {
            lemma_moduli();
        }
        let red = mod_reduce(&self.w, &fr_m());
        let rinv = U256(
            [0xdc5ba0056db1194e, 0x090ef5a9e111ec87, 0xc8260de4aeb85d5d, 0x15ebf95182c5551c],
        );
        let v = mod_mul(&rinv, &red, &fr_m());
        proof {
            lemma_mul_mod_noop_right(rinv@ as int, self.w@ as int, fr_modulus() as int);
            lemma_mul_is_commutative(rinv@ as int, self.w@ as int);
        }
        v
    }

    pub fn zero() -> (r: Fr)
        ensures
            r@ == 0,
            r.canonical(),
    {
        Fr::wrap(U256::zero())
    }

    pub fn one() -> (r: Fr)
        ensures
            r@ == 1,
            r.canonical(),
    {
        Fr::wrap(U256::one())
    }

    /// The element that 512 uniformly drawn bits give: reduced modulo `r`, then read in
    /// Montgomery form.
    pub fn from_random_words(w: [u128; 4]) -> (r: Fr)
        ensures
            r@ == ((u128_words_val(w) % fr_modulus()) * fr_r_inv()) % fr_modulus(),
            r.canonical(),
    {
        proof {
            lemma_moduli();
        }
        let m = fr_m();
        let x = U512::from_u128_words(w);
        let (_, red) = x.divrem(&m);
        let rinv = U256(
            [0xdc5ba0056db1194e, 0x090ef5a9e111ec87, 0xc8260de4aeb85d5d, 0x15ebf95182c5551c],
        );
        let v = mod_mul(&rinv, &red, &m);
        proof {
            lemma_mul_is_commutative(rinv@ as int, red@ as int);
        }
        Fr::wrap(v)
    }

    /// A uniformly random element: the one that `from_random_words` gives for the drawn words.
    pub fn random<R: rand::Rng>(rng: &mut R) -> (r: Fr)
        ensures
            r@ < fr_modulus(),
            r.canonical(),
            exists|w: [u128; 4]|
                r@ == ((#[trigger] u128_words_val(w) % fr_modulus()) * fr_r_inv()) % fr_modulus(),
    {
        let w = random_words(rng);
        let r = Fr::from_random_words(w);
        proof {
            Fr::lemma_view_bound(r);
        }
        r
    }

    /// `self` raised to the value of `exp`.
    pub fn pow(&self, exp: Fr) -> (r: Fr)
        ensures
            r@ == pow(self@ as int, exp@) % (fr_modulus() as int),
            r.canonical(),
    {
        proof {
            lemma_moduli();
        }
        let m = fr_m();
        let e = exp.value();
        Fr::wrap(mod_pow(&self.value(), &e, &m))
    }

    /// The decimal string's value modulo `r`; `None` unless every byte is an ASCII digit.
    pub fn from_str(s: &str) -> (r: Option<Fr>)
        ensures
            r is Some <==> decimal_value(s.spec_bytes()) is Some,
            r matches Some(x) ==> x@ == decimal_value(s.spec_bytes())->0 % fr_modulus()
                && x.canonical(),
    {
        proof {
            lemma_moduli();
        }
        match parse_decimal(s, &fr_m()) {
            Some(v) => Some(Fr::wrap(v)),
            None => None,
        }
    }

    /// The multiplicative inverse; `None` where there is none.
    pub fn inverse(&self) -> (r: Option<Fr>)
        ensures
            r matches Some(x) ==> (self@ * x@) % fr_modulus() == 1 && x.canonical(),
            r is None <==> !has_inverse(self@, fr_modulus()),
            self@ == 0 ==> r is None,
    {
        proof {
            lemma_moduli();
        }
        let r = match mod_inverse(&self.value(), &fr_m()) {
            Some(x) => Some(Fr::wrap(x)),
            None => None,
        };
        proof {
            if self@ == 0 {
                assert(forall|x: nat| #[trigger] ((self@ * x) % fr_modulus()) == 0);
            }
        }
        r
    }

    /// Whether the stored word is zero; for a word below `r`, whether the value is zero.
    pub fn is_zero(&self) -> (r: bool)
        ensures
            r == (self.raw_word() == 0),
            self.raw_word() < fr_modulus() ==> r == (self@ == 0),
    {
        proof {
            lemma_moduli();
            Fr::lemma_view_raw(*self);
            lemma_fr_value_raw(self.w@);
            if self.w@ < fr_modulus() {
                lemma_small_mod(self.w@, fr_modulus());
                if self@ == 0 {
                    lemma_small_mod(0, fr_modulus());
                }
            }
        }
        self.w.is_zero()
    }

    /// The element whose value is the 64 big-endian bytes modulo `r`.
    pub fn interpret(buf: &[u8; 64]) -> (r: Fr)
        ensures
            r@ == be_val(buf@) % fr_modulus(),
            r.canonical(),
    {
        proof {
            lemma_moduli();
        }
        let (_, red) = U512::interpret(buf).divrem(&fr_m());
        Fr::wrap(red)
    }

    /// Reads 32 big-endian bytes, reduced modulo `r`: an error where the length is not 32.
    pub fn from_slice(slice: &[u8]) -> (r: Result<Fr, FieldError>)
        ensures
            slice.len() != 32 ==> r == Err::<Fr, FieldError>(FieldError::InvalidSliceLength),
            slice.len() == 32 ==> (r matches Ok(x) && x@ == be_val(slice@) % fr_modulus()
                && x.canonical()),
    {
        match U256::from_slice(slice) {
            Ok(u) => Ok(Fr::new_mul_factor(u)),
            Err(_) => Err(FieldError::InvalidSliceLength),
        }
    }

    /// Writes the stored Montgomery word as 32 big-endian bytes into a slice of exactly that
    /// length.
    pub fn to_big_endian(&self, slice: &mut [u8]) -> (r: Result<(), FieldError>)
        ensures
            old(slice).len() == 32 ==> r is Ok && final(slice).len() == 32 && be_val(
                final(slice)@,
            ) == self.raw_word(),
            old(slice).len() != 32 ==> r == Err::<(), FieldError>(FieldError::InvalidSliceLength)
                && final(slice)@ == old(slice)@,
    {
        match self.w.to_big_endian(slice) {
            Ok(()) => Ok(()),
            Err(_) => Err(FieldError::InvalidSliceLength),
        }
    }

    /// The element with the given value; `None` where it is not below `r`.
    pub fn new(val: U256) -> (r: Option<Fr>)
        ensures
            val@ < fr_modulus() ==> (r matches Some(x) && x@ == val@ && x.canonical()),
            val@ >= fr_modulus() ==> r is None,
    {
        if val.lt(&fr_m()) {
            Some(Fr::wrap(val))
        } else {
            None
        }
    }

    /// The element with the given value modulo `r`.
    pub fn new_mul_factor(val: U256) -> (r: Fr)
        ensures
            r@ == val@ % fr_modulus(),
            r.canonical(),
    {
        proof {
            lemma_moduli();
        }
        Fr::wrap(mod_reduce(&val, &fr_m()))
    }

    /// The value, below `r`.
    pub fn into_u256(self) -> (r: U256)
        ensures
            r@ == self@,
    {
        self.value()
    }

    /// Sets bit `bit` of the stored Montgomery word to `to`, leaving the word unreduced; no
    /// change where `bit >= 256`.
    pub fn set_bit(&mut self, bit: usize, to: bool)
        ensures
            bit < 256 ==> final(self).raw_word() == nat_with_bit(
                old(self).raw_word(),
                bit as nat,
                to,
            ),
            bit < 256 ==> final(self)@ == (final(self).raw_word() * fr_r_inv()) % fr_modulus(),
            bit >= 256 ==> *final(self) == *old(self),
    {
        let _ = self.w.set_bit(bit, to);
    }

    /// `(self + other) mod r`
    pub fn add_fr(&self, other: &Fr) -> (r: Fr)
        ensures
            r@ == (self@ + other@) % fr_modulus(),
            r == Fr::from_val((self@ + other@) as int),
            r.canonical(),
    {
        proof {
            lemma_moduli();
            Fr::lemma_from_val_mod((self@ + other@) as int);
        }
        Fr::wrap(mod_add(&self.value(), &other.value(), &fr_m()))
    }

    /// `(self - other) mod r`
    pub fn sub_fr(&self, other: &Fr) -> (r: Fr)
        ensures
            r@ == (self@ - other@) % (fr_modulus() as int),
            r == Fr::from_val(self@ - other@),
            r.canonical(),
    {
        proof {
            lemma_moduli();
            Fr::lemma_from_val_mod(self@ - other@);
        }
        Fr::wrap(mod_sub(&self.value(), &other.value(), &fr_m()))
    }

    /// `(-self) mod r`
    pub fn neg_fr(&self) -> (r: Fr)
        ensures
            r@ == (0 - self@) % (fr_modulus() as int),
            r == Fr::from_val(0 - self@),
            r.canonical(),
    {
        proof {
            lemma_moduli();
            Fr::lemma_from_val_mod(0 - self@);
        }
        Fr::wrap(mod_neg(&self.value(), &fr_m()))
    }

    /// `(self * other) mod r`
    pub fn mul_fr(&self, other: &Fr) -> (r: Fr)
        ensures
            r@ == (self@ * other@) % fr_modulus(),
            r == Fr::from_val((self@ * other@) as int),
            r.canonical(),
    {
        proof {
            lemma_moduli();
            Fr::lemma_from_val_mod((self@ * other@) as int);
        }
        Fr::wrap(mod_mul(&self.value(), &other.value(), &fr_m()))
    }

    /// Whether the two stored words are equal, as `==` compares them.
    pub fn equals(&self, other: &Fr) -> (r: bool)
        ensures
            r == (self.raw_word() == other.raw_word()),
            r == (*self == *other),
    {
        proof {
            if self.w@ == other.w@ {
                U256::lemma_view_injective(self.w, other.w);
            }
        }
        self.w.eq(&other.w)
    }
}

impl core::ops::Add<Fr> for Fr {
    type Output = Fr;

    fn add(self, other: Fr) -> (r: Fr)
        ensures
            r@ == (self@ + other@) % fr_modulus(),
    {
        self.add_fr(&other)
    }
}

impl vstd::std_specs::ops::AddSpecImpl<Fr> for Fr {
    open spec fn obeys_add_spec() -> bool {
        true
    }

    open spec fn add_req(self, rhs: Fr) -> bool {
        true
    }

    open spec fn add_spec(self, rhs: Fr) -> Fr {
        Fr::from_val((self@ + rhs@) as int)
    }
}

impl core::ops::Sub<Fr> for Fr {
    type Output = Fr;

    fn sub(self, other: Fr) -> (r: Fr)
        ensures
            r@ == (self@ - other@) % (fr_modulus() as int),
    {
        self.sub_fr(&other)
    }
}

impl vstd::std_specs::ops::SubSpecImpl<Fr> for Fr {
    open spec fn obeys_sub_spec() -> bool {
        true
    }

    open spec fn sub_req(self, rhs: Fr) -> bool {
        true
    }

    open spec fn sub_spec(self, rhs: Fr) -> Fr {
        Fr::from_val(self@ - rhs@)
    }
}

impl core::ops::Mul<Fr> for Fr {
    type Output = Fr;

    fn mul(self, other: Fr) -> (r: Fr)
        ensures
            r@ == (self@ * other@) % fr_modulus(),
    {
        self.mul_fr(&other)
    }
}

impl vstd::std_specs::ops::MulSpecImpl<Fr> for Fr {
    open spec fn obeys_mul_spec() -> bool {
        true
    }

    open spec fn mul_req(self, rhs: Fr) -> bool {
        true
    }

    open spec fn mul_spec(self, rhs: Fr) -> Fr {
        Fr::from_val((self@ * rhs@) as int)
    }
}

impl core::ops::Neg for Fr {
    type Output = Fr;

    fn neg(self) -> (r: Fr)
        ensures
            r@ == (0 - self@) % (fr_modulus() as int),
    {
        self.neg_fr()
    }
}

impl vstd::std_specs::ops::NegSpecImpl for Fr {
    open spec fn obeys_neg_spec() -> bool {
        true
    }

    open spec fn neg_req(self) -> bool {
        true
    }

    open spec fn neg_spec(self) -> Fr {
        Fr::from_val(0 - self@)
    }
}

/// The value of `U256::from_nat(n)` is `n` below `2^256`.
pub proof fn lemma_u256_from_nat_value(n: nat)
    requires
        n < b4(),
    ensures
        U256::from_nat(n)@ == n,
{
    let b1 = b1();
    let b2 = b2();
    let b3 = b3();
    lemma_fundamental_div_mod(n as int, b1 as int);
    lemma_fundamental_div_mod((n / b1) as int, b1 as int);
    lemma_fundamental_div_mod((n / b1 / b1) as int, b1 as int);
    lemma_div_denominator(n as int, b1 as int, b1 as int);
    lemma_div_denominator(n as int, b2 as int, b1 as int);
    assert(b1 * b1 == b2);
    assert(b2 * b1 == b3);
    lemma_div_is_ordered(n as int, b4() as int, b3 as int);
    assert(b4() / b3 == b1);
    lemma_small_mod(n / b3, b1);
    lemma_mod_bound(n as int, b1 as int);
    lemma_mod_bound((n / b1) as int, b1 as int);
    lemma_mod_bound((n / b2) as int, b1 as int);
}

/// Draws 512 random bits as four 128-bit words.
#[verifier::external_body]
fn random_words<R: rand::Rng>(rng: &mut R) -> [u128; 4] {
    rng.gen()
}

} // verus!
