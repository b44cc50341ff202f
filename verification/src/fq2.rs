//! The quadratic extension `Fq2 = Fq[i] / (i^2 + 1)`; an element `a + b i` is modelled by the
//! pair of values `(a, b)`.
use vstd::prelude::*;
use vstd::arithmetic::div_mod::*;
use vstd::arithmetic::mul::*;
use vstd::arithmetic::power2::pow2;
use crate::arith::{be_val, lemma_div_pow2_halves, lemma_div_pow2_step, lemma_pow2_limbs, U256, U512};
use crate::fp::{fq_modulus, fq_mul, fq_neg, fq_sub, lemma_moduli, Fq};
use crate::modular::has_inverse;

use crate::FieldError;

verus! {

/// `(x + y) mod q`, componentwise.
pub open spec fn fq2_add(x: (nat, nat), y: (nat, nat)) -> (nat, nat) {
    ((x.0 + y.0) % fq_modulus(), (x.1 + y.1) % fq_modulus())
}

/// `(x - y) mod q`, componentwise.
pub open spec fn fq2_sub(x: (nat, nat), y: (nat, nat)) -> (nat, nat) {
    (
        ((x.0 - y.0) % (fq_modulus() as int)) as nat,
        ((x.1 - y.1) % (fq_modulus() as int)) as nat,
    )
}

/// `-x mod q`, componentwise.
pub open spec fn fq2_neg(x: (nat, nat)) -> (nat, nat) {
    (((0 - x.0) % (fq_modulus() as int)) as nat, ((0 - x.1) % (fq_modulus() as int)) as nat)
}

/// `(x0 + x1 i)(y0 + y1 i)` with `i^2 = -1`, modulo `q`.
#[verifier::opaque]
pub open spec fn fq2_mul(x: (nat, nat), y: (nat, nat)) -> (nat, nat) {
    (
        ((x.0 * y.0 - x.1 * y.1) % (fq_modulus() as int)) as nat,
        (x.0 * y.1 + x.1 * y.0) % fq_modulus(),
    )
}

/// `x^n`, by squaring and multiplying along the bits of `n`.
pub open spec fn fq2_pow(x: (nat, nat), n: nat) -> (nat, nat)
    decreases n,
{
    if n == 0 {
        (1, 0)
    } else {
        let h = fq2_pow(x, n / 2);
        let h2 = fq2_mul(h, h);
        if n % 2 == 1 {
            fq2_mul(x, h2)
        } else {
            h2
        }
    }
}

/// The square root that `Fq2::sqrt` computes: with `a1 = a^((q-3)/4)` and `alpha = a1^2 a`,
/// none where `alpha^(q+1)` is `-1`, `i a1 a` where `alpha` is `-1`, and otherwise
/// `(1 + alpha)^((q-1)/2) a1 a`.
pub open spec fn fq2_sqrt(a: (nat, nat)) -> Option<(nat, nat)> {
    let q = fq_modulus();
    let a1 = fq2_pow(a, ((q - 3) / 4) as nat);
    let a1a = fq2_mul(a1, a);
    let alpha = fq2_mul(a1, a1a);
    let a0 = fq2_mul(fq2_pow(alpha, q), alpha);
    let minus_one = ((q - 1) as nat, 0nat);
    if a0 == minus_one {
        None
    } else if alpha == minus_one {
        Some(fq2_mul((0, 1), a1a))
    } else {
        Some(fq2_mul(fq2_pow(fq2_add(alpha, (1, 0)), ((q - 1) / 2) as nat), a1a))
    }
}

/// The norm `c0^2 - c1^2 (q - 1)`, that is `c0^2 + c1^2`, modulo `q`.
pub open spec fn fq2_norm(a: (nat, nat)) -> nat {
    fq_sub(fq_mul(a.0, a.0), fq_mul(fq_mul(a.1, a.1), (fq_modulus() - 1) as nat))
}

/// The inverse of `a` modulo `q`, where there is one.
pub open spec fn fq_inv(a: nat) -> nat {
    choose|x: nat| x < fq_modulus() && #[trigger] ((a * x) % fq_modulus()) == 1
}

/// The inverse `(c0 t, -c1 t)` with `t` the inverse of the norm.
pub open spec fn fq2_inv(a: (nat, nat)) -> (nat, nat) {
    let t = fq_inv(fq2_norm(a));
    (fq_mul(a.0, t), fq_neg(fq_mul(a.1, t)))
}

/// Inverses modulo `q` are unique.
pub proof fn lemma_fq_inv_unique(a: nat, x: nat)
    requires
        x < fq_modulus(),
        (a * x) % fq_modulus() == 1,
    ensures
        fq_inv(a) == x,
{
    lemma_moduli();
    let m = fq_modulus() as int;
    let y = fq_inv(a);
    assert((a * x) % fq_modulus() == 1);
    assert(y < fq_modulus() && (a * y) % fq_modulus() == 1);
    lemma_mul_mod_noop_right(y as int, (a * x) as int, m);
    lemma_mul_mod_noop_left((a * y) as int, x as int, m);
    assert(y * (a * x) == (a * y) * x) by (nonlinear_arith);
    lemma_small_mod(1, fq_modulus());
    lemma_small_mod(x, fq_modulus());
    lemma_small_mod(y, fq_modulus());
    assert(y * 1 == y);
    assert(1 * x == x);
}

/// The non-residue `xi = 9 + i` over which the higher extensions are built.
pub open spec fn fq2_xi() -> (nat, nat) {
    (9, 1)
}

/// `x * xi`
pub open spec fn fq2_mul_xi(x: (nat, nat)) -> (nat, nat) {
    fq2_mul(x, fq2_xi())
}

/// The conjugate `c0 - c1 i`, which is `x^q`.
pub open spec fn fq2_conj(x: (nat, nat)) -> (nat, nat) {
    (x.0, fq_neg(x.1))
}

/// `x^(q^k)`: the conjugate for odd `k`.
pub open spec fn fq2_frob(x: (nat, nat), k: nat) -> (nat, nat) {
    if k % 2 == 1 {
        fq2_conj(x)
    } else {
        x
    }
}

/// `x` times an element of the base field.
pub open spec fn fq2_scale(x: (nat, nat), k: nat) -> (nat, nat) {
    (fq_mul(x.0, k), fq_mul(x.1, k))
}

/// An element `c0 + c1 i` of the quadratic extension.
#[derive(Copy, Clone, Debug, PartialEq, Eq)]
pub struct Fq2 {
    c0: Fq,
    c1: Fq,
}

impl View for Fq2 {
    type V = (nat, nat);

    closed spec fn view(&self) -> (nat, nat) {
        (self.c0@, self.c1@)
    }
}

impl Fq2 {
    /// The element with the given component values modulo `q`.
    pub closed spec fn from_vals(a: int, b: int) -> Fq2 {
        Fq2 { c0: Fq::from_val(a), c1: Fq::from_val(b) }
    }

    pub proof fn lemma_view_bound(x: Fq2)
        ensures
            x@.0 < fq_modulus(),
            x@.1 < fq_modulus(),
    {
        Fq::lemma_view_bound(x.c0);
        Fq::lemma_view_bound(x.c1);
    }

    pub fn one() -> (r: Fq2)
        ensures
            r@ == (1nat, 0nat),
            r == Fq2::from_vals(1, 0),
    {
        Fq2 { c0: Fq::one(), c1: Fq::zero() }
    }

    /// The imaginary unit.
    pub fn i() -> (r: Fq2)
        ensures
            r@ == (0nat, 1nat),
    {
        Fq2 { c0: Fq::zero(), c1: Fq::one() }
    }

    pub fn zero() -> (r: Fq2)
        ensures
            r@ == (0nat, 0nat),
    {
        Fq2 { c0: Fq::zero(), c1: Fq::zero() }
    }

    /// `a + b i`
    pub fn new(a: Fq, b: Fq) -> (r: Fq2)
        ensures
            r@ == (a@, b@),
    {
        Fq2 { c0: a, c1: b }
    }

    pub fn is_zero(&self) -> (r: bool)
        ensures
            r == (self@ == (0nat, 0nat)),
    {
        self.c0.is_zero() && self.c1.is_zero()
    }

    /// The real part.
    pub fn real_part(&self) -> (r: Fq)
        ensures
            r@ == self@.0,
    {
        self.c0
    }

    /// The imaginary part.
    pub fn imaginary(&self) -> (r: Fq)
        ensures
            r@ == self@.1,
    {
        self.c1
    }

    pub fn equals(&self, other: &Fq2) -> (r: bool)
        ensures
            r == (self@ == other@),
    {
        self.c0.equals(&other.c0) && self.c1.equals(&other.c1)
    }

    pub fn add_fq2(&self, other: &Fq2) -> (r: Fq2)
        ensures
            r@ == fq2_add(self@, other@),
            r == Fq2::from_vals((self@.0 + other@.0) as int, (self@.1 + other@.1) as int),
    {
        Fq2 { c0: self.c0.add_fq(&other.c0), c1: self.c1.add_fq(&other.c1) }
    }

    pub fn sub_fq2(&self, other: &Fq2) -> (r: Fq2)
        ensures
            r@ == fq2_sub(self@, other@),
            r == Fq2::from_vals(self@.0 - other@.0, self@.1 - other@.1),
    {
        let r = Fq2 { c0: self.c0.sub_fq(&other.c0), c1: self.c1.sub_fq(&other.c1) };
        proof {
            lemma_moduli();
            lemma_mod_bound(self@.0 - other@.0, fq_modulus() as int);
            lemma_mod_bound(self@.1 - other@.1, fq_modulus() as int);
        }
        r
    }

    pub fn neg_fq2(&self) -> (r: Fq2)
        ensures
            r@ == fq2_neg(self@),
            r == Fq2::from_vals(0 - self@.0, 0 - self@.1),
    {
        let r = Fq2 { c0: self.c0.neg_fq(), c1: self.c1.neg_fq() };
        proof {
            lemma_moduli();
            lemma_mod_bound(0 - self@.0, fq_modulus() as int);
            lemma_mod_bound(0 - self@.1, fq_modulus() as int);
        }
        r
    }

    pub fn mul_fq2(&self, other: &Fq2) -> (r: Fq2)
        ensures
            r@ == fq2_mul(self@, other@),
            r == Fq2::from_vals(
                self@.0 * other@.0 - self@.1 * other@.1,
                (self@.0 * other@.1 + self@.1 * other@.0) as int,
            ),
    {
        reveal(fq2_mul);
        let aa = self.c0.mul_fq(&other.c0);
        let bb = self.c1.mul_fq(&other.c1);
        let ab = self.c0.mul_fq(&other.c1);
        let ba = self.c1.mul_fq(&other.c0);
        let r = Fq2 { c0: aa.sub_fq(&bb), c1: ab.add_fq(&ba) };
        proof {
            lemma_moduli();
            let q = fq_modulus() as int;
            let x = self@;
            let y = other@;
            lemma_sub_mod_noop((x.0 * y.0) as int, (x.1 * y.1) as int, q);
            lemma_add_mod_noop((x.0 * y.1) as int, (x.1 * y.0) as int, q);
            lemma_mod_bound(x.0 * y.0 - x.1 * y.1, q);
            Fq::lemma_from_val_congruent(aa@ - bb@, x.0 * y.0 - x.1 * y.1);
            Fq::lemma_from_val_congruent((ab@ + ba@) as int, (x.0 * y.1 + x.1 * y.0) as int);
        }
        r
    }

    /// `self` raised to the value of `exp`.
    pub fn pow(&self, exp: U256) -> (r: Fq2)
        ensures
            r@ == fq2_pow(self@, exp@),
    {
        let mut acc = Fq2::one();
        let mut i: usize = 256;
        proof {
            lemma_pow2_limbs();
            lemma_basic_div(exp@ as int, pow2(256) as int);
        }
        while i > 0
            invariant
                i <= 256,
                acc@ == fq2_pow(self@, exp@ / pow2(i as nat)),
            decreases i,
        {
            let bit = exp.get_bit(i - 1).unwrap();
            let ghost t = exp@ / pow2(i as nat);
            let ghost n = exp@ / pow2((i - 1) as nat);
            let ghost bv: int = if bit { 1 } else { 0 };
            proof {
                lemma_div_pow2_halves(exp@, (i - 1) as nat);
                lemma_div_pow2_step(exp@, (i - 1) as nat);
                assert((i - 1) as nat + 1 == i as nat);
                assert(n / 2 == t);
                assert(n % 2 == 1 <==> bit);
                assert(n == 0 ==> t == 0 && !bit);
            }
            let ghost acc0 = acc@;
            let sq = acc.mul_fq2(&acc);
            if bit {
                acc = self.mul_fq2(&sq);
            } else {
                acc = sq;
            }
            proof {
                if n == 0 {
                    reveal(fq2_mul);
                    lemma_moduli();
                    lemma_small_mod(1, fq_modulus());
                    lemma_small_mod(0, fq_modulus());
                    assert(acc0 == (1nat, 0nat));
                    assert((1int * 1int - 0int * 0int) % (fq_modulus() as int) == 1);
                    assert((1nat * 0nat + 0nat * 1nat) % fq_modulus() == 0);
                    assert(fq2_mul((1nat, 0nat), (1nat, 0nat)) == (1nat, 0nat));
                    assert(acc@ == (1nat, 0nat));
                }
            }
            i = i - 1;
        }
        proof {
            vstd::arithmetic::power2::lemma2_to64();
            lemma_div_basics(exp@ as int);
        }
        acc
    }

    /// The square root candidate described by `fq2_sqrt`.
    pub fn sqrt(&self) -> (r: Option<Fq2>)
        ensures
            r is Some <==> fq2_sqrt(self@) is Some,
            r matches Some(x) ==> x@ == fq2_sqrt(self@)->0,
            fq2_pow(self@, ((fq_modulus() - 1) / 2) as nat) == ((fq_modulus() - 1) as nat, 0nat)
                ==> (r matches Some(x) && fq2_mul(x@, x@) == self@),
    {
        proof {
            lemma_moduli();
            Fq2::lemma_view_bound(*self);
            if fq2_pow(self@, ((fq_modulus() - 1) / 2) as nat) == ((fq_modulus() - 1) as nat, 0nat) {
                crate::power_algebra::lemma_fq2_sqrt_nonresidue_branch(self@);
            }
        }
        // (q - 3) / 4
        let e1 = U256(
            [0x4f082305b61f3f51, 0x65e05aa45a1c72a3, 0x6e14116da0605617, 0x0c19139cb84c680a],
        );
        // (q - 1) / 2
        let e2 = U256(
            [0x9e10460b6c3e7ea3, 0xcbc0b548b438e546, 0xdc2822db40c0ac2e, 0x183227397098d014],
        );
        let q = Fq::modulus();
        let a1 = self.pow(e1);
        let a1a = a1.mul_fq2(self);
        let alpha = a1.mul_fq2(&a1a);
        let a0 = alpha.pow(q).mul_fq2(&alpha);
        let minus_one = Fq2::one().neg_fq2();
        proof {
            assert(e1@ == ((fq_modulus() - 3) / 4) as nat);
            assert(e2@ == ((fq_modulus() - 1) / 2) as nat);
            lemma_small_mod(1, fq_modulus());
            assert(minus_one@ == ((fq_modulus() - 1) as nat, 0nat));
        }
        if a0.equals(&minus_one) {
            return None;
        }
        if alpha.equals(&minus_one) {
            Some(Fq2::i().mul_fq2(&a1a))
        } else {
            let b = alpha.add_fq2(&Fq2::one()).pow(e2);
            Some(b.mul_fq2(&a1a))
        }
    }

    /// The multiplicative inverse; `None` where the norm has no inverse.
    pub fn inverse(&self) -> (r: Option<Fq2>)
        ensures
            r is None <==> !has_inverse(fq2_norm(self@), fq_modulus()),
            r matches Some(x) ==> x@ == fq2_inv(self@),
    {
        let minus_one = Fq::one().neg_fq();
        let norm = self.c0.mul_fq(&self.c0).sub_fq(&self.c1.mul_fq(&self.c1).mul_fq(&minus_one));
        proof {
            lemma_moduli();
            lemma_small_mod(1, fq_modulus());
            assert(minus_one@ == fq_modulus() - 1);
            assert(norm@ == fq2_norm(self@));
        }
        match norm.inverse() {
            Some(t) => {
                proof {
                    Fq::lemma_view_bound(t);
                    lemma_mul_is_commutative(norm@ as int, t@ as int);
                    lemma_fq_inv_unique(norm@, t@);
                }
                Some(Fq2 { c0: self.c0.mul_fq(&t), c1: self.c1.mul_fq(&t).neg_fq() })
            },
            None => None,
        }
    }

    /// The element with the given limbs of its components, each below `q`.
    pub(crate) fn from_limbs(a: [u64; 4], b: [u64; 4]) -> (r: Fq2)
        requires
            U256(a)@ < fq_modulus(),
            U256(b)@ < fq_modulus(),
        ensures
            r@ == (U256(a)@, U256(b)@),
    {
        Fq2 { c0: Fq::from_reduced(U256(a)), c1: Fq::from_reduced(U256(b)) }
    }

    /// The element of the base field with the given limbs, below `q`.
    pub(crate) fn from_real_limbs(a: [u64; 4]) -> (r: Fq2)
        requires
            U256(a)@ < fq_modulus(),
        ensures
            r@ == (U256(a)@, 0nat),
    {
        Fq2 { c0: Fq::from_reduced(U256(a)), c1: Fq::zero() }
    }

    /// `self * xi`
    pub fn mul_by_nonresidue(&self) -> (r: Fq2)
        ensures
            r@ == fq2_mul_xi(self@),
    {
        let xi = Fq2::from_limbs([9, 0, 0, 0], [1, 0, 0, 0]);
        self.mul_fq2(&xi)
    }

    /// `self^(q^k)`: the conjugate for odd `k`.
    pub fn frobenius_map(&self, k: usize) -> (r: Fq2)
        ensures
            r@ == fq2_frob(self@, k as nat),
    {
        if k % 2 == 1 {
            Fq2 { c0: self.c0, c1: self.c1.neg_fq() }
        } else {
            *self
        }
    }

    /// `self` times an element of the base field.
    pub fn scale(&self, k: &Fq) -> (r: Fq2)
        ensures
            r@ == fq2_scale(self@, k@),
    {
        Fq2 { c0: self.c0.mul_fq(k), c1: self.c1.mul_fq(k) }
    }

    /// Reads 64 big-endian bytes as `c0 + q c1`: an error where the length is not 64, and where
    /// `c1` is not below `q`.
    pub fn from_slice(bytes: &[u8]) -> (r: Result<Fq2, FieldError>)
        ensures
            bytes.len() != 64 ==> r == Err::<Fq2, FieldError>(FieldError::InvalidU512Encoding),
            bytes.len() == 64 && be_val(bytes@) / fq_modulus() >= fq_modulus() ==> r == Err::<
                Fq2,
                FieldError,
            >(FieldError::NotMember),
            bytes.len() == 64 && be_val(bytes@) / fq_modulus() < fq_modulus() ==> (r matches Ok(x)
                && x@ == (be_val(bytes@) % fq_modulus(), be_val(bytes@) / fq_modulus())),
    {
        proof {
            lemma_moduli();
        }
        let u512 = match U512::from_slice(bytes) {
            Ok(u) => u,
            Err(_) => {
                return Err(FieldError::InvalidU512Encoding);
            },
        };
        let (res, c0) = u512.divrem(&Fq::modulus());
        let c0_fq = match Fq::from_u256(c0) {
            Ok(x) => x,
            Err(_) => {
                return Err(FieldError::NotMember);
            },
        };
        let q1 = match res {
            Some(x) => x,
            None => {
                return Err(FieldError::NotMember);
            },
        };
        let imaginary = match Fq::from_u256(q1) {
            Ok(x) => x,
            Err(_) => {
                return Err(FieldError::NotMember);
            },
        };
        Ok(Fq2::new(c0_fq, imaginary))
    }
}

impl core::ops::Add<Fq2> for Fq2 {
    type Output = Fq2;

    fn add(self, other: Fq2) -> (r: Fq2)
        ensures
            r@ == fq2_add(self@, other@),
    {
        self.add_fq2(&other)
    }
}

impl vstd::std_specs::ops::AddSpecImpl<Fq2> for Fq2 {
    open spec fn obeys_add_spec() -> bool {
        true
    }

    open spec fn add_req(self, rhs: Fq2) -> bool {
        true
    }

    open spec fn add_spec(self, rhs: Fq2) -> Fq2 {
        Fq2::from_vals((self@.0 + rhs@.0) as int, (self@.1 + rhs@.1) as int)
    }
}

impl core::ops::Sub<Fq2> for Fq2 {
    type Output = Fq2;

    fn sub(self, other: Fq2) -> (r: Fq2)
        ensures
            r@ == fq2_sub(self@, other@),
    {
        self.sub_fq2(&other)
    }
}

impl vstd::std_specs::ops::SubSpecImpl<Fq2> for Fq2 {
    open spec fn obeys_sub_spec() -> bool {
        true
    }

    open spec fn sub_req(self, rhs: Fq2) -> bool {
        true
    }

    open spec fn sub_spec(self, rhs: Fq2) -> Fq2 {
        Fq2::from_vals(self@.0 - rhs@.0, self@.1 - rhs@.1)
    }
}

impl core::ops::Mul<Fq2> for Fq2 {
    type Output = Fq2;

    fn mul(self, other: Fq2) -> (r: Fq2)
        ensures
            r@ == fq2_mul(self@, other@),
    {
        self.mul_fq2(&other)
    }
}

impl vstd::std_specs::ops::MulSpecImpl<Fq2> for Fq2 {
    open spec fn obeys_mul_spec() -> bool {
        true
    }

    open spec fn mul_req(self, rhs: Fq2) -> bool {
        true
    }

    open spec fn mul_spec(self, rhs: Fq2) -> Fq2 {
        Fq2::from_vals(self@.0 * rhs@.0 - self@.1 * rhs@.1, (self@.0 * rhs@.1 + self@.1 * rhs@.0) as int)
    }
}

impl core::ops::Neg for Fq2 {
    type Output = Fq2;

    fn neg(self) -> (r: Fq2)
        ensures
            r@ == fq2_neg(self@),
    {
        self.neg_fq2()
    }
}

impl vstd::std_specs::ops::NegSpecImpl for Fq2 {
    open spec fn obeys_neg_spec() -> bool {
        true
    }

    open spec fn neg_req(self) -> bool {
        true
    }

    open spec fn neg_spec(self) -> Fq2 {
        Fq2::from_vals(0 - self@.0, 0 - self@.1)
    }
}

} // verus!
