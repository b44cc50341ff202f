//! The tower `Fq6 = Fq2[v] / (v^3 - xi)` and `Fq12 = Fq6[w] / (w^2 - v)` in which pairings take
//! their values. An element of `Fq6` is modelled by its three `Fq2` coefficients, one of `Fq12`
//! by its two `Fq6` coefficients.
use vstd::prelude::*;
use vstd::arithmetic::div_mod::*;
use vstd::arithmetic::power2::pow2;
use crate::arith::{lemma_div_pow2_halves, lemma_div_pow2_step, lemma_pow2_limbs, U256};
use crate::fp::{fq_modulus, lemma_moduli};
use crate::fq2::{
    fq2_add, fq2_frob, fq2_inv, fq2_mul, fq2_mul_xi, fq2_neg, fq2_norm, fq2_sub, Fq2,
};
use crate::modular::has_inverse;

verus! {

pub type Fq2V = (nat, nat);

pub type Fq6V = (Fq2V, Fq2V, Fq2V);

pub type Fq12V = (Fq6V, Fq6V);

/// Whether every coefficient is below `q`.
pub open spec fn fq6_reduced(a: Fq6V) -> bool {
    &&& a.0.0 < fq_modulus() && a.0.1 < fq_modulus()
    &&& a.1.0 < fq_modulus() && a.1.1 < fq_modulus()
    &&& a.2.0 < fq_modulus() && a.2.1 < fq_modulus()
}

pub open spec fn fq6_zero() -> Fq6V {
    ((0, 0), (0, 0), (0, 0))
}

pub open spec fn fq6_one() -> Fq6V {
    ((1, 0), (0, 0), (0, 0))
}

pub open spec fn fq6_add(a: Fq6V, b: Fq6V) -> Fq6V {
    (fq2_add(a.0, b.0), fq2_add(a.1, b.1), fq2_add(a.2, b.2))
}

pub open spec fn fq6_sub(a: Fq6V, b: Fq6V) -> Fq6V {
    (fq2_sub(a.0, b.0), fq2_sub(a.1, b.1), fq2_sub(a.2, b.2))
}

pub open spec fn fq6_neg(a: Fq6V) -> Fq6V {
    (fq2_neg(a.0), fq2_neg(a.1), fq2_neg(a.2))
}

/// The product of `a0 + a1 v + a2 v^2` and `b0 + b1 v + b2 v^2` with `v^3 = xi`.
pub open spec fn fq6_mul(a: Fq6V, b: Fq6V) -> Fq6V {
    (
        fq2_add(fq2_mul(a.0, b.0), fq2_mul_xi(fq2_add(fq2_mul(a.1, b.2), fq2_mul(a.2, b.1)))),
        fq2_add(fq2_add(fq2_mul(a.0, b.1), fq2_mul(a.1, b.0)), fq2_mul_xi(fq2_mul(a.2, b.2))),
        fq2_add(fq2_add(fq2_mul(a.0, b.2), fq2_mul(a.1, b.1)), fq2_mul(a.2, b.0)),
    )
}

/// `a v`
pub open spec fn fq6_mul_by_v(a: Fq6V) -> Fq6V {
    (fq2_mul_xi(a.2), a.0, a.1)
}

/// `a` times an element of `Fq2`.
pub open spec fn fq6_scale(a: Fq6V, k: Fq2V) -> Fq6V {
    (fq2_mul(a.0, k), fq2_mul(a.1, k), fq2_mul(a.2, k))
}

/// The numerators of the inverse of `a`.
pub open spec fn fq6_inv_parts(a: Fq6V) -> Fq6V {
    (
        fq2_add(fq2_mul(fq2_mul_xi(a.2), fq2_neg(a.1)), fq2_mul(a.0, a.0)),
        fq2_sub(fq2_mul_xi(fq2_mul(a.2, a.2)), fq2_mul(a.0, a.1)),
        fq2_sub(fq2_mul(a.1, a.1), fq2_mul(a.0, a.2)),
    )
}

/// The denominator of the inverse of `a`, in `Fq2`.
pub open spec fn fq6_inv_denominator(a: Fq6V) -> Fq2V {
    let c = fq6_inv_parts(a);
    fq2_add(fq2_add(fq2_mul(fq2_mul_xi(a.2), c.1), fq2_mul(fq2_mul_xi(a.1), c.2)), fq2_mul(a.0, c.0))
}

/// The inverse of `a` by its numerators over its denominator; none where the denominator's norm
/// has no inverse.
pub open spec fn fq6_inv(a: Fq6V) -> Option<Fq6V> {
    let d = fq6_inv_denominator(a);
    if !has_inverse(fq2_norm(d), fq_modulus()) {
        None
    } else {
        let t = fq2_inv(d);
        let c = fq6_inv_parts(a);
        Some((fq2_mul(t, c.0), fq2_mul(t, c.1), fq2_mul(t, c.2)))
    }
}

/// The coefficient of `v` in the Frobenius map `x -> x^(q^k)`.
pub open spec fn fq6_frob_c1(k: nat) -> Fq2V {
    if k == 1 {
        (
            21575463638280843010398324269430826099269044274347216827212613867836435027261nat,
            10307601595873709700152284273816112264069230130616436755625194854815875713954nat,
        )
    } else if k == 2 {
        (21888242871839275220042445260109153167277707414472061641714758635765020556616nat, 0nat)
    } else {
        (
            3772000881919853776433695186713858239009073593817195771773381919316419345261nat,
            2236595495967245188281701248203181795121068902605861227855261137820944008926nat,
        )
    }
}

/// The coefficient of `v^2` in the Frobenius map `x -> x^(q^k)`.
pub open spec fn fq6_frob_c2(k: nat) -> Fq2V {
    if k == 1 {
        (
            2581911344467009335267311115468803099551665605076196740867805258568234346338nat,
            19937756971775647987995932169929341994314640652964949448313374472400716661030nat,
        )
    } else if k == 2 {
        (2203960485148121921418603742825762020974279258880205651966nat, 0nat)
    } else {
        (
            5324479202449903542726783395506214481928257762400643279780343368557297135718nat,
            16208900380737693084919495127334387981393726419856888799917914180988844123039nat,
        )
    }
}

/// The coefficient of `w` in the Frobenius map `x -> x^(q^k)` on `Fq12`.
pub open spec fn fq12_frob_c1(k: nat) -> Fq2V {
    if k == 1 {
        (
            8376118865763821496583973867626364092589906065868298776909617916018768340080nat,
            16469823323077808223889137241176536799009286646108169935659301613961712198316nat,
        )
    } else if k == 2 {
        (21888242871839275220042445260109153167277707414472061641714758635765020556617nat, 0nat)
    } else {
        (
            11697423496358154304825782922584725312912383441159505038794027105778954184319nat,
            303847389135065887422783454877609941456349188919719272345083954437860409601nat,
        )
    }
}

/// The Frobenius map `x -> x^(q^k)` on `Fq6`, for `k` in `1..=3`.
pub open spec fn fq6_frob(a: Fq6V, k: nat) -> Fq6V {
    (
        fq2_frob(a.0, k),
        fq2_mul(fq2_frob(a.1, k), fq6_frob_c1(k)),
        fq2_mul(fq2_frob(a.2, k), fq6_frob_c2(k)),
    )
}

pub open spec fn fq12_one() -> Fq12V {
    (fq6_one(), fq6_zero())
}

/// The product of `a0 + a1 w` and `b0 + b1 w` with `w^2 = v`.
#[verifier::opaque]
pub open spec fn fq12_mul(a: Fq12V, b: Fq12V) -> Fq12V {
    (
        fq6_add(fq6_mul(a.0, b.0), fq6_mul_by_v(fq6_mul(a.1, b.1))),
        fq6_add(fq6_mul(a.0, b.1), fq6_mul(a.1, b.0)),
    )
}

/// The conjugate `a0 - a1 w`, the inverse of an element of norm one.
pub open spec fn fq12_conj(a: Fq12V) -> Fq12V {
    (a.0, fq6_neg(a.1))
}

/// The inverse `(a0 - a1 w) / (a0^2 - a1^2 v)`; none where the denominator has none.
pub open spec fn fq12_inv(a: Fq12V) -> Option<Fq12V> {
    match fq6_inv(fq6_sub(fq6_mul(a.0, a.0), fq6_mul_by_v(fq6_mul(a.1, a.1)))) {
        Some(t) => Some((fq6_mul(a.0, t), fq6_neg(fq6_mul(a.1, t)))),
        None => None,
    }
}

/// The Frobenius map `x -> x^(q^k)` on `Fq12`, for `k` in `1..=3`.
pub open spec fn fq12_frob(a: Fq12V, k: nat) -> Fq12V {
    (fq6_frob(a.0, k), fq6_scale(fq6_frob(a.1, k), fq12_frob_c1(k)))
}

/// `x^n`, by squaring and multiplying along the bits of `n`.
pub open spec fn fq12_pow(x: Fq12V, n: nat) -> Fq12V
    decreases n,
{
    if n == 0 {
        fq12_one()
    } else {
        let h = fq12_pow(x, n / 2);
        let h2 = fq12_mul(h, h);
        if n % 2 == 1 {
            fq12_mul(x, h2)
        } else {
            h2
        }
    }
}

/// The curve parameter `u`.
pub open spec fn bn_u() -> nat {
    4965661367192848881
}

/// `conj(x^u)`, which is `x^(-u)` on elements of norm one.
pub open spec fn fq12_exp_by_neg_z(x: Fq12V) -> Fq12V {
    fq12_conj(fq12_pow(x, bn_u()))
}

/// The easy part of the final exponentiation, `x^((q^6 - 1)(q^2 + 1))`.
pub open spec fn fq12_final_exp_first(x: Fq12V) -> Option<Fq12V> {
    match fq12_inv(x) {
        Some(b) => {
            let c = fq12_mul(fq12_conj(x), b);
            Some(fq12_mul(fq12_frob(c, 2), c))
        },
        None => None,
    }
}

/// The hard part of the final exponentiation, `x^((q^4 - q^2 + 1) / r)` by the addition chain
/// in `u`.
pub open spec fn fq12_final_exp_last(x: Fq12V) -> Fq12V {
    let a = fq12_exp_by_neg_z(x);
    let b = fq12_mul(a, a);
    let c = fq12_mul(b, b);
    let d = fq12_mul(c, b);
    let e = fq12_exp_by_neg_z(d);
    let f = fq12_mul(e, e);
    let g = fq12_exp_by_neg_z(f);
    let h = fq12_conj(d);
    let i = fq12_conj(g);
    let j = fq12_mul(i, e);
    let k = fq12_mul(j, h);
    let l = fq12_mul(k, b);
    let m = fq12_mul(k, e);
    let n = fq12_mul(x, m);
    let o = fq12_frob(l, 1);
    let p = fq12_mul(o, n);
    let q = fq12_frob(k, 2);
    let r = fq12_mul(q, p);
    let s = fq12_conj(x);
    let t = fq12_mul(s, l);
    let u = fq12_frob(t, 3);
    fq12_mul(u, r)
}

/// The final exponentiation `x^((q^12 - 1) / r)`; none where `x` has no inverse.
#[verifier::opaque]
pub open spec fn fq12_final_exp(x: Fq12V) -> Option<Fq12V> {
    match fq12_final_exp_first(x) {
        Some(y) => Some(fq12_final_exp_last(y)),
        None => None,
    }
}

/// An element `c0 + c1 v + c2 v^2` of `Fq6`.
#[derive(Copy, Clone, Debug, PartialEq, Eq)]
pub struct Fq6 {
    c0: Fq2,
    c1: Fq2,
    c2: Fq2,
}

impl View for Fq6 {
    type V = Fq6V;

    closed spec fn view(&self) -> Fq6V {
        (self.c0@, self.c1@, self.c2@)
    }
}

impl Fq6 {
    /// The coefficients are reduced.
    pub proof fn lemma_view_bound(a: Fq6)
        ensures
            a@.0.0 < fq_modulus() && a@.0.1 < fq_modulus(),
            a@.1.0 < fq_modulus() && a@.1.1 < fq_modulus(),
            a@.2.0 < fq_modulus() && a@.2.1 < fq_modulus(),
    {
        Fq2::lemma_view_bound(a.c0);
        Fq2::lemma_view_bound(a.c1);
        Fq2::lemma_view_bound(a.c2);
    }

    pub fn new(c0: Fq2, c1: Fq2, c2: Fq2) -> (r: Fq6)
        ensures
            r@ == (c0@, c1@, c2@),
    {
        Fq6 { c0, c1, c2 }
    }

    pub fn zero() -> (r: Fq6)
        ensures
            r@ == fq6_zero(),
    {
        Fq6 { c0: Fq2::zero(), c1: Fq2::zero(), c2: Fq2::zero() }
    }

    pub fn one() -> (r: Fq6)
        ensures
            r@ == fq6_one(),
    {
        Fq6 { c0: Fq2::one(), c1: Fq2::zero(), c2: Fq2::zero() }
    }

    pub fn equals(&self, other: &Fq6) -> (r: bool)
        ensures
            r == (self@ == other@),
    {
        self.c0.equals(&other.c0) && self.c1.equals(&other.c1) && self.c2.equals(&other.c2)
    }

    pub fn add_fq6(&self, other: &Fq6) -> (r: Fq6)
        ensures
            r@ == fq6_add(self@, other@),
    {
        Fq6 {
            c0: self.c0.add_fq2(&other.c0),
            c1: self.c1.add_fq2(&other.c1),
            c2: self.c2.add_fq2(&other.c2),
        }
    }

    pub fn sub_fq6(&self, other: &Fq6) -> (r: Fq6)
        ensures
            r@ == fq6_sub(self@, other@),
    {
        Fq6 {
            c0: self.c0.sub_fq2(&other.c0),
            c1: self.c1.sub_fq2(&other.c1),
            c2: self.c2.sub_fq2(&other.c2),
        }
    }

    pub fn neg_fq6(&self) -> (r: Fq6)
        ensures
            r@ == fq6_neg(self@),
    {
        Fq6 { c0: self.c0.neg_fq2(), c1: self.c1.neg_fq2(), c2: self.c2.neg_fq2() }
    }

    pub fn mul_fq6(&self, other: &Fq6) -> (r: Fq6)
        ensures
            r@ == fq6_mul(self@, other@),
    {
        let a = self;
        let b = other;
        let c0 = a.c0.mul_fq2(&b.c0).add_fq2(
            &a.c1.mul_fq2(&b.c2).add_fq2(&a.c2.mul_fq2(&b.c1)).mul_by_nonresidue(),
        );
        let c1 = a.c0.mul_fq2(&b.c1).add_fq2(&a.c1.mul_fq2(&b.c0)).add_fq2(
            &a.c2.mul_fq2(&b.c2).mul_by_nonresidue(),
        );
        let c2 = a.c0.mul_fq2(&b.c2).add_fq2(&a.c1.mul_fq2(&b.c1)).add_fq2(&a.c2.mul_fq2(&b.c0));
        Fq6 { c0, c1, c2 }
    }

    /// `self * v`
    pub fn mul_by_nonresidue(&self) -> (r: Fq6)
        ensures
            r@ == fq6_mul_by_v(self@),
    {
        Fq6 { c0: self.c2.mul_by_nonresidue(), c1: self.c0, c2: self.c1 }
    }

    /// `self` times an element of `Fq2`.
    pub fn scale(&self, k: &Fq2) -> (r: Fq6)
        ensures
            r@ == fq6_scale(self@, k@),
    {
        Fq6 { c0: self.c0.mul_fq2(k), c1: self.c1.mul_fq2(k), c2: self.c2.mul_fq2(k) }
    }

    /// The inverse described by `fq6_inv`.
    pub fn inverse(&self) -> (r: Option<Fq6>)
        ensures
            r is Some <==> fq6_inv(self@) is Some,
            r matches Some(x) ==> fq6_inv(self@) == Some(x@),
    {
        let a = self;
        let c0 = a.c2.mul_by_nonresidue().mul_fq2(&a.c1.neg_fq2()).add_fq2(&a.c0.mul_fq2(&a.c0));
        let c1 = a.c2.mul_fq2(&a.c2).mul_by_nonresidue().sub_fq2(&a.c0.mul_fq2(&a.c1));
        let c2 = a.c1.mul_fq2(&a.c1).sub_fq2(&a.c0.mul_fq2(&a.c2));
        let d = a.c2.mul_by_nonresidue().mul_fq2(&c1).add_fq2(
            &a.c1.mul_by_nonresidue().mul_fq2(&c2),
        ).add_fq2(&a.c0.mul_fq2(&c0));
        match d.inverse() {
            Some(t) => Some(Fq6 { c0: t.mul_fq2(&c0), c1: t.mul_fq2(&c1), c2: t.mul_fq2(&c2) }),
            None => None,
        }
    }

    /// `self^(q^k)`, for `k` in `1..=3`.
    pub fn frobenius_map(&self, k: usize) -> (r: Fq6)
        requires
            1 <= k <= 3,
        ensures
            r@ == fq6_frob(self@, k as nat),
    {
        let c1 = frobenius_coeff_c1(k);
        let c2 = frobenius_coeff_c2(k);
        Fq6 {
            c0: self.c0.frobenius_map(k),
            c1: self.c1.frobenius_map(k).mul_fq2(&c1),
            c2: self.c2.frobenius_map(k).mul_fq2(&c2),
        }
    }
}

/// The coefficient `fq6_frob_c1(k)` of the Frobenius map on `Fq6`.
fn frobenius_coeff_c1(k: usize) -> (r: Fq2)
    requires
        1 <= k <= 3,
    ensures
        r@ == fq6_frob_c1(k as nat),
{
    proof {
        lemma_moduli();
    }
    if k == 1 {
        Fq2::from_limbs(
            [0x99e39557176f553d, 0xb78cc310c2c3330c, 0x4c0bec3cf559b143, 0x2fb347984f7911f7],
            [0x1665d51c640fcba2, 0x32ae2a1d0b7c9dce, 0x4ba4cc8bd75a0794, 0x16c9e55061ebae20],
        )
    } else if k == 2 {
        Fq2::from_real_limbs(
            [0xe4bd44e5607cfd48, 0xc28f069fbb966e3d, 0x5e6dd9e7e0acccb0, 0x30644e72e131a029],
        )
    } else {
        Fq2::from_limbs(
            [0x7b746ee87bdcfb6d, 0x805ffd3d5d6942d3, 0xbaff1c77959f25ac, 0x0856e078b755ef0a],
            [0x380cab2baaa586de, 0x0fdf31bf98ff2631, 0xa9f30e6dec26094f, 0x04f1de41b3d1766f],
        )
    }
}

/// The coefficient `fq6_frob_c2(k)` of the Frobenius map on `Fq6`.
fn frobenius_coeff_c2(k: usize) -> (r: Fq2)
    requires
        1 <= k <= 3,
    ensures
        r@ == fq6_frob_c2(k as nat),
{
    proof {
        lemma_moduli();
    }
    if k == 1 {
        Fq2::from_limbs(
            [0x848a1f55921ea762, 0xd33365f7be94ec72, 0x80f3c0b75a181e84, 0x05b54f5e64eea801],
            [0xc13b4711cd2b8126, 0x3685d2ea1bdec763, 0x9f3a80b03b0b1c92, 0x2c145edbe7fd8aee],
        )
    } else if k == 2 {
        Fq2::from_real_limbs(
            [0x5763473177fffffe, 0xd4f263f1acdb5c4f, 0x59e26bcea0d48bac, 0],
        )
    } else {
        Fq2::from_limbs(
            [0x0e1a92bc3ccbf066, 0xe633094575b06bcb, 0x19bee0f7b5b2444e, 0x0bc58c6611c08dab],
            [0x5fe3ed9d730c239f, 0xa44a9e08737f96e5, 0xfeb0f6ef0cd21d04, 0x23d5e999e1910a12],
        )
    }
}

/// An element `c0 + c1 w` of `Fq12`.
#[derive(Copy, Clone, Debug, PartialEq, Eq)]
pub struct Fq12 {
    c0: Fq6,
    c1: Fq6,
}

impl View for Fq12 {
    type V = Fq12V;

    closed spec fn view(&self) -> Fq12V {
        (self.c0@, self.c1@)
    }
}

impl Fq12 {
    /// The coefficients are reduced.
    pub proof fn lemma_view_bound(a: Fq12)
        ensures
            fq6_reduced(a@.0),
            fq6_reduced(a@.1),
    {
        Fq6::lemma_view_bound(a.c0);
        Fq6::lemma_view_bound(a.c1);
    }

    /// The element whose coefficients have the given values, each taken modulo `q`.
    pub closed spec fn from_value(v: Fq12V) -> Fq12 {
        Fq12 {
            c0: Fq6 {
                c0: Fq2::from_vals(v.0.0.0 as int, v.0.0.1 as int),
                c1: Fq2::from_vals(v.0.1.0 as int, v.0.1.1 as int),
                c2: Fq2::from_vals(v.0.2.0 as int, v.0.2.1 as int),
            },
            c1: Fq6 {
                c0: Fq2::from_vals(v.1.0.0 as int, v.1.0.1 as int),
                c1: Fq2::from_vals(v.1.1.0 as int, v.1.1.1 as int),
                c2: Fq2::from_vals(v.1.2.0 as int, v.1.2.1 as int),
            },
        }
    }

    pub fn new(c0: Fq6, c1: Fq6) -> (r: Fq12)
        ensures
            r@ == (c0@, c1@),
    {
        Fq12 { c0, c1 }
    }

    pub fn one() -> (r: Fq12)
        ensures
            r@ == fq12_one(),
    {
        Fq12 { c0: Fq6::one(), c1: Fq6::zero() }
    }

    pub fn equals(&self, other: &Fq12) -> (r: bool)
        ensures
            r == (self@ == other@),
    {
        self.c0.equals(&other.c0) && self.c1.equals(&other.c1)
    }

    pub fn mul_fq12(&self, other: &Fq12) -> (r: Fq12)
        ensures
            r@ == fq12_mul(self@, other@),
    {
        reveal(fq12_mul);
        let c0 = self.c0.mul_fq6(&other.c0).add_fq6(
            &self.c1.mul_fq6(&other.c1).mul_by_nonresidue(),
        );
        let c1 = self.c0.mul_fq6(&other.c1).add_fq6(&self.c1.mul_fq6(&other.c0));
        Fq12 { c0, c1 }
    }

    /// `self` times the sparse element `ell_0 + ell_vv v^2 + ell_vw v w`, the value of a line
    /// of the Miller loop.
    pub fn mul_by_024(&self, ell_0: Fq2, ell_vw: Fq2, ell_vv: Fq2) -> (r: Fq12)
        ensures
            r@ == fq12_mul(
                self@,
                ((ell_0@, (0nat, 0nat), ell_vv@), ((0nat, 0nat), ell_vw@, (0nat, 0nat))),
            ),
    {
        let z = Fq2::zero();
        let sparse = Fq12 {
            c0: Fq6 { c0: ell_0, c1: z, c2: ell_vv },
            c1: Fq6 { c0: z, c1: ell_vw, c2: z },
        };
        self.mul_fq12(&sparse)
    }

    /// The conjugate `c0 - c1 w`.
    pub fn unitary_inverse(&self) -> (r: Fq12)
        ensures
            r@ == fq12_conj(self@),
    {
        Fq12 { c0: self.c0, c1: self.c1.neg_fq6() }
    }

    /// The inverse described by `fq12_inv`.
    pub fn inverse(&self) -> (r: Option<Fq12>)
        ensures
            r is Some <==> fq12_inv(self@) is Some,
            r matches Some(x) ==> fq12_inv(self@) == Some(x@),
    {
        let d = self.c0.mul_fq6(&self.c0).sub_fq6(&self.c1.mul_fq6(&self.c1).mul_by_nonresidue());
        match d.inverse() {
            Some(t) => Some(Fq12 { c0: self.c0.mul_fq6(&t), c1: self.c1.mul_fq6(&t).neg_fq6() }),
            None => None,
        }
    }

    /// `self^(q^k)`, for `k` in `1..=3`.
    pub fn frobenius_map(&self, k: usize) -> (r: Fq12)
        requires
            1 <= k <= 3,
        ensures
            r@ == fq12_frob(self@, k as nat),
    {
        proof {
            lemma_moduli();
        }
        let c = if k == 1 {
            Fq2::from_limbs(
                [0xd60b35dadcc9e470, 0x5c521e08292f2176, 0xe8b99fdd76e68b60, 0x1284b71c2865a7df],
                [0xca5cf05f80f362ac, 0x747992778eeec7e5, 0xa6327cfe12150b8e, 0x246996f3b4fae7e6],
            )
        } else if k == 2 {
            Fq2::from_real_limbs(
                [0xe4bd44e5607cfd49, 0xc28f069fbb966e3d, 0x5e6dd9e7e0acccb0, 0x30644e72e131a029],
            )
        } else {
            Fq2::from_limbs(
                [0xe86f7d391ed4a67f, 0x894cb38dbe55d24a, 0xefe9608cd0acaa90, 0x19dc81cfcc82e4bb],
                [0x7694aa2bf4c0c101, 0x7f03a5e397d439ec, 0x06cbeee33576139d, 0x00abf8b60be77d73],
            )
        };
        Fq12 { c0: self.c0.frobenius_map(k), c1: self.c1.frobenius_map(k).scale(&c) }
    }

    /// `self` raised to the value of `exp`.
    pub fn pow(&self, exp: U256) -> (r: Fq12)
        ensures
            r@ == fq12_pow(self@, exp@),
    {
        let mut acc = Fq12::one();
        let mut i: usize = 256;
        proof {
            lemma_pow2_limbs();
            lemma_basic_div(exp@ as int, pow2(256) as int);
        }
        while i > 0
            invariant
                i <= 256,
                acc@ == fq12_pow(self@, exp@ / pow2(i as nat)),
            decreases i,
        {
            let bit = exp.get_bit(i - 1).unwrap();
            let ghost t = exp@ / pow2(i as nat);
            let ghost n = exp@ / pow2((i - 1) as nat);
            proof {
                lemma_div_pow2_halves(exp@, (i - 1) as nat);
                lemma_div_pow2_step(exp@, (i - 1) as nat);
                assert((i - 1) as nat + 1 == i as nat);
                assert(n / 2 == t);
                assert(n % 2 == 1 <==> bit);
                assert(n == 0 ==> t == 0 && !bit);
            }
            let ghost acc0 = acc@;
            let sq = acc.mul_fq12(&acc);
            if bit {
                acc = self.mul_fq12(&sq);
            } else {
                acc = sq;
            }
            proof {
                if n == 0 {
                    lemma_fq12_one_squared();
                }
            }
            i = i - 1;
        }
        proof {
            vstd::arithmetic::power2::lemma2_to64();
            lemma_div_basics(exp@ as int);
        }
        acc
    }

    /// `conj(self^u)`.
    pub fn exp_by_neg_z(&self) -> (r: Fq12)
        ensures
            r@ == fq12_exp_by_neg_z(self@),
    {
        self.pow(U256::from_u64(4965661367192848881)).unitary_inverse()
    }

    fn final_exponentiation_first_chunk(&self) -> (r: Option<Fq12>)
        ensures
            r is Some <==> fq12_final_exp_first(self@) is Some,
            r matches Some(x) ==> fq12_final_exp_first(self@) == Some(x@),
    {
        match self.inverse() {
            Some(b) => {
                let a = self.unitary_inverse();
                let c = a.mul_fq12(&b);
                let d = c.frobenius_map(2);
                Some(d.mul_fq12(&c))
            },
            None => None,
        }
    }

    fn final_exponentiation_last_chunk(&self) -> (r: Fq12)
        ensures
            r@ == fq12_final_exp_last(self@),
    {
        let a = self.exp_by_neg_z();
        let b = a.mul_fq12(&a);
        let c = b.mul_fq12(&b);
        let d = c.mul_fq12(&b);
        let e = d.exp_by_neg_z();
        let f = e.mul_fq12(&e);
        let g = f.exp_by_neg_z();
        let h = d.unitary_inverse();
        let i = g.unitary_inverse();
        let j = i.mul_fq12(&e);
        let k = j.mul_fq12(&h);
        let l = k.mul_fq12(&b);
        let m = k.mul_fq12(&e);
        let n = self.mul_fq12(&m);
        let o = l.frobenius_map(1);
        let p = o.mul_fq12(&n);
        let q = k.frobenius_map(2);
        let r = q.mul_fq12(&p);
        let s = self.unitary_inverse();
        let t = s.mul_fq12(&l);
        let u = t.frobenius_map(3);
        u.mul_fq12(&r)
    }

    /// The final exponentiation of the pairing; `None` where `self` has no inverse.
    pub fn final_exponentiation(&self) -> (r: Option<Fq12>)
        ensures
            r is Some <==> fq12_final_exp(self@) is Some,
            r matches Some(x) ==> fq12_final_exp(self@) == Some(x@),
    {
        reveal(fq12_final_exp);
        match self.final_exponentiation_first_chunk() {
            Some(a) => Some(a.final_exponentiation_last_chunk()),
            None => None,
        }
    }
}

/// `1 * 1 = 1` in `Fq12`.
proof fn lemma_fq12_one_squared()
    ensures
        fq12_mul(fq12_one(), fq12_one()) == fq12_one(),
{
    reveal(fq12_mul);
    reveal(fq2_mul);
    lemma_moduli();
    let q = fq_modulus();
    lemma_small_mod(0, q);
    lemma_small_mod(1, q);
    lemma_small_mod(9, q);
    assert((0int - 0int) % (q as int) == 0);
    assert((1int * 1int - 0int * 0int) % (q as int) == 1);
    assert((0int * 0int - 0int * 0int) % (q as int) == 0);
    assert((1int * 0int - 0int * 0int) % (q as int) == 0);
    assert((0int * 9int - 0int * 1int) % (q as int) == 0);
    assert(fq2_mul((0, 0), (0, 0)) == (0nat, 0nat));
    assert(fq2_mul((1, 0), (1, 0)) == (1nat, 0nat));
    assert(fq2_mul((1, 0), (0, 0)) == (0nat, 0nat));
    assert(fq2_mul((0, 0), (1, 0)) == (0nat, 0nat));
    assert(fq2_mul_xi((0, 0)) == (0nat, 0nat));
    assert(fq2_add((0, 0), (0, 0)) == (0nat, 0nat));
    assert(fq2_add((1, 0), (0, 0)) == (1nat, 0nat));
    assert(fq6_mul(fq6_one(), fq6_one()) == fq6_one());
    assert(fq6_mul(fq6_zero(), fq6_zero()) == fq6_zero());
    assert(fq6_mul(fq6_one(), fq6_zero()) == fq6_zero());
    assert(fq6_mul(fq6_zero(), fq6_one()) == fq6_zero());
    assert(fq6_mul_by_v(fq6_zero()) == fq6_zero());
    assert(fq6_add(fq6_one(), fq6_zero()) == fq6_one());
    assert(fq6_add(fq6_zero(), fq6_zero()) == fq6_zero());
}

} // verus!
