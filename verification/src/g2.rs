//! The group `G2` of points of the twist `y^2 = x^3 + b` over `Fq2`, in Jacobian coordinates
//! `(x, y, z)` standing for the affine point `(x / z^2, y / z^3)`; `z = 0` is the point at infinity.
use vstd::prelude::*;
use vstd::arithmetic::div_mod::*;
use vstd::arithmetic::power2::pow2;
use crate::arith::{be_val, lemma_div_pow2_halves, lemma_div_pow2_step, lemma_pow2_limbs, U256};
use crate::fp::{fr_modulus, fq_modulus, lemma_moduli, Fq, Fr};
use crate::modular::has_inverse;
use crate::fq2::{fq2_add, fq2_inv, fq2_mul, fq2_neg, fq2_norm, fq2_sqrt, fq2_sub, Fq2};
use crate::{CurveError, FieldError, Group, GroupError};

verus! {

/// A point in Jacobian coordinates, by the values of its coordinates.
pub type JacFq2 = ((nat, nat), (nat, nat), (nat, nat));

/// The coefficient `b = 3 / (9 + i)` of the twist.
pub open spec fn g2_b() -> (nat, nat) {
    (
        19485874751759354771024239261021720505790618469301721065564631296452457478373nat,
        266929791119991161246907387137283842545076965332900288569378510910307636690nat,
    )
}

/// The point at infinity `(0, 1, 0)`.
pub open spec fn g2_zero() -> JacFq2 {
    ((0, 0), (1, 0), (0, 0))
}

/// The generator of the group.
pub open spec fn g2_one() -> JacFq2 {
    (
        (
            10857046999023057135944570762232829481370756359578518086990519993285655852781nat,
            11559732032986387107991004021392285783925812861821192530917403151452391805634nat,
        ),
        (
            8495653923123431417604973247489272438418190587263600148770280649306958101930nat,
            4082367875863433681332203403145435568316851327593401208105741076214120093531nat,
        ),
        (1, 0),
    )
}

pub open spec fn g2_is_zero(p: JacFq2) -> bool {
    p.2 == (0nat, 0nat)
}

/// The doubling formula in Jacobian coordinates.
pub open spec fn g2_double(p: JacFq2) -> JacFq2 {
    let a = fq2_mul(p.0, p.0);
    let b = fq2_mul(p.1, p.1);
    let c = fq2_mul(b, b);
    let xb = fq2_add(p.0, b);
    let d0 = fq2_sub(fq2_sub(fq2_mul(xb, xb), a), c);
    let d = fq2_add(d0, d0);
    let e = fq2_add(fq2_add(a, a), a);
    let f = fq2_mul(e, e);
    let x3 = fq2_sub(f, fq2_add(d, d));
    let c2 = fq2_add(c, c);
    let c4 = fq2_add(c2, c2);
    let c8 = fq2_add(c4, c4);
    let yz = fq2_mul(p.1, p.2);
    (x3, fq2_sub(fq2_mul(e, fq2_sub(d, x3)), c8), fq2_add(yz, yz))
}

/// The addition formula in Jacobian coordinates, doubling where both points agree.
pub open spec fn g2_add(p: JacFq2, q: JacFq2) -> JacFq2 {
    if g2_is_zero(p) {
        q
    } else if g2_is_zero(q) {
        p
    } else {
        let z1s = fq2_mul(p.2, p.2);
        let z2s = fq2_mul(q.2, q.2);
        let u1 = fq2_mul(p.0, z2s);
        let u2 = fq2_mul(q.0, z1s);
        let z1c = fq2_mul(p.2, z1s);
        let z2c = fq2_mul(q.2, z2s);
        let s1 = fq2_mul(p.1, z2c);
        let s2 = fq2_mul(q.1, z1c);
        if u1 == u2 && s1 == s2 {
            g2_double(p)
        } else {
            let h = fq2_sub(u2, u1);
            let sd = fq2_sub(s2, s1);
            let hh = fq2_add(h, h);
            let i = fq2_mul(hh, hh);
            let j = fq2_mul(h, i);
            let r = fq2_add(sd, sd);
            let v = fq2_mul(u1, i);
            let s1j = fq2_mul(s1, j);
            let x3 = fq2_sub(fq2_sub(fq2_mul(r, r), j), fq2_add(v, v));
            let y3 = fq2_sub(fq2_mul(r, fq2_sub(v, x3)), fq2_add(s1j, s1j));
            let zz = fq2_add(p.2, q.2);
            let z3 = fq2_mul(fq2_sub(fq2_sub(fq2_mul(zz, zz), z1s), z2s), h);
            (x3, y3, z3)
        }
    }
}

/// The negation: `y` negated, except at infinity.
pub open spec fn g2_neg(p: JacFq2) -> JacFq2 {
    if g2_is_zero(p) {
        p
    } else {
        (p.0, fq2_neg(p.1), p.2)
    }
}

/// `n p` by doubling and adding along the bits of `n` from the top, starting at the highest set
/// bit.
pub open spec fn g2_mul(p: JacFq2, n: nat) -> JacFq2
    decreases n,
{
    if n == 0 {
        g2_zero()
    } else {
        let h = g2_mul(p, n / 2);
        let d = if n / 2 == 0 {
            h
        } else {
            g2_double(h)
        };
        if n % 2 == 1 {
            g2_add(d, p)
        } else {
            d
        }
    }
}

/// Whether two points in Jacobian coordinates stand for the same affine point.
pub open spec fn g2_eq(p: JacFq2, q: JacFq2) -> bool {
    if g2_is_zero(p) {
        g2_is_zero(q)
    } else if g2_is_zero(q) {
        false
    } else {
        let z1s = fq2_mul(p.2, p.2);
        let z2s = fq2_mul(q.2, q.2);
        fq2_mul(p.0, z2s) == fq2_mul(q.0, z1s) && fq2_mul(p.1, fq2_mul(q.2, z2s)) == fq2_mul(
            q.1,
            fq2_mul(p.2, z1s),
        )
    }
}

/// Whether `(x, y)` lies on the curve.
pub open spec fn g2_on_curve(x: (nat, nat), y: (nat, nat)) -> bool {
    fq2_mul(y, y) == fq2_add(fq2_mul(fq2_mul(x, x), x), g2_b())
}

/// The 512-bit integer `c1 q + c0` by which two elements are ordered.
pub open spec fn fq2_u512(a: (nat, nat)) -> nat {
    a.1 * fq_modulus() + a.0
}

/// `(r - 1) P + P` is the point at infinity for `P = (x, y, 1)`, that is, `P` has order `r`.
pub open spec fn g2_in_subgroup(x: (nat, nat), y: (nat, nat)) -> bool {
    let p = (x, y, (1nat, 0nat));
    g2_is_zero(g2_add(g2_mul(p, (fr_modulus() - 1) as nat), p))
}

/// The point that `G2::from_compressed` decodes from a sign byte (10 for the smaller `y`, 11
/// for the larger) and the 64 big-endian bytes of `x = c0 + q c1`, or the error it gives.
pub open spec fn g2_decompress(bytes: Seq<u8>) -> Result<JacFq2, CurveError> {
    if bytes.len() != 65 {
        Err(CurveError::InvalidEncoding)
    } else {
        let v = be_val(bytes.subrange(1, 65));
        let sign = bytes[0];
        if v / fq_modulus() >= fq_modulus() {
            Err(CurveError::Field(FieldError::NotMember))
        } else {
            let x = (v % fq_modulus(), v / fq_modulus());
            match fq2_sqrt(fq2_add(fq2_mul(fq2_mul(x, x), x), g2_b())) {
                None => Err(CurveError::NotMember),
                Some(y) => {
                    let yn = fq2_neg(y);
                    let gt = fq2_u512(y) > fq2_u512(yn);
                    if sign != 10 && sign != 11 {
                        Err(CurveError::InvalidEncoding)
                    } else {
                        let ey = if (sign == 10) == gt {
                            yn
                        } else {
                            y
                        };
                        if g2_on_curve(x, ey) && g2_in_subgroup(x, ey) {
                            Ok((x, ey, (1nat, 0nat)))
                        } else {
                            Err(CurveError::NotMember)
                        }
                    }
                },
            }
        }
    }
}

/// `-(-a) = a` for a reduced value.
proof fn lemma_fq_neg_neg(a: nat)
    requires
        a < fq_modulus(),
    ensures
        ((0 - ((0 - a) % (fq_modulus() as int))) % (fq_modulus() as int)) == a,
{
    lemma_moduli();
    let q = fq_modulus() as int;
    if a == 0 {
        lemma_small_mod(0, fq_modulus());
    } else {
        lemma_fundamental_div_mod_converse(0 - a, q, -1, q - a);
        lemma_fundamental_div_mod_converse(0 - (q - a), q, -1, a as int);
    }
}

/// A decoded compressed point has the encoded `x`, and its `y` is the one of `y` and `-y` that
/// the sign byte asks for, ordered as the integers `c1 q + c0`: the smaller for 10, the larger
/// for 11.
pub proof fn lemma_g2_decompress_sign(bytes: Seq<u8>)
    requires
        g2_decompress(bytes) is Ok,
    ensures
        ({
            let p = g2_decompress(bytes)->Ok_0;
            let v = be_val(bytes.subrange(1, 65));
            let y = p.1;
            let yn = fq2_neg(p.1);
            &&& bytes.len() == 65
            &&& p.0 == (v % fq_modulus(), v / fq_modulus())
            &&& p.2 == (1nat, 0nat)
            &&& bytes[0] == 10 || bytes[0] == 11
            &&& bytes[0] == 10 ==> y.1 * fq_modulus() + y.0 <= yn.1 * fq_modulus() + yn.0
            &&& bytes[0] == 11 ==> y.1 * fq_modulus() + y.0 >= yn.1 * fq_modulus() + yn.0
        }),
{
    lemma_moduli();
    crate::tower_algebra::lemma_fq2_mul_bound();
    let v = be_val(bytes.subrange(1, 65));
    let x = (v % fq_modulus(), v / fq_modulus());
    let y = fq2_sqrt(fq2_add(fq2_mul(fq2_mul(x, x), x), g2_b()))->Some_0;
    assert(y.0 < fq_modulus() && y.1 < fq_modulus());
    lemma_fq_neg_neg(y.0);
    lemma_fq_neg_neg(y.1);
    assert(fq2_neg(fq2_neg(y)) == y);
}

/// The norm of one has an inverse modulo `q`.
pub proof fn lemma_norm_one_has_inverse()
    ensures
        has_inverse(fq2_norm((1nat, 0nat)), fq_modulus()),
{
    lemma_moduli();
    assert(fq2_norm((1nat, 0nat)) == 1) by {
        lemma_small_mod(1, fq_modulus());
        lemma_small_mod(0, fq_modulus());
        assert(crate::fp::fq_mul(0, 0) == 0);
        assert(crate::fp::fq_mul(0, (fq_modulus() - 1) as nat) == 0);
        assert(crate::fp::fq_mul(1, 1) == 1);
        assert(crate::fp::fq_sub(1, 0) == 1);
    }
    assert((1nat * 1nat) % fq_modulus() == 1);
}

/// The affine point `(x / z^2, y / z^3)`; none at infinity, or where `z` has no inverse.
pub open spec fn g2_to_affine(p: JacFq2) -> Option<((nat, nat), (nat, nat))> {
    if p.2 == (0nat, 0nat) {
        None
    } else if p.2 == (1nat, 0nat) {
        Some((p.0, p.1))
    } else if !has_inverse(fq2_norm(p.2), fq_modulus()) {
        None
    } else {
        let zi = fq2_inv(p.2);
        let zi2 = fq2_mul(zi, zi);
        Some((fq2_mul(p.0, zi2), fq2_mul(p.1, fq2_mul(zi2, zi))))
    }
}

/// Whether `normalize` and the affine conversion apply: at infinity, or with an invertible `z`.
pub open spec fn g2_invertible_z(p: JacFq2) -> bool {
    p.2 == (0nat, 0nat) || has_inverse(fq2_norm(p.2), fq_modulus())
}

/// A point of `G2` in Jacobian coordinates.
#[derive(Copy, Clone, Debug)]
pub struct G2 {
    x: Fq2,
    y: Fq2,
    z: Fq2,
}

impl View for G2 {
    type V = JacFq2;

    closed spec fn view(&self) -> JacFq2 {
        (self.x@, self.y@, self.z@)
    }
}

/// A point of `G2` in affine coordinates.
#[derive(Copy, Clone, Debug, PartialEq, Eq)]
pub struct AffineG2 {
    x: Fq2,
    y: Fq2,
}

impl View for AffineG2 {
    type V = ((nat, nat), (nat, nat));

    closed spec fn view(&self) -> ((nat, nat), (nat, nat)) {
        (self.x@, self.y@)
    }
}

impl G2 {
    /// The coordinates are reduced.
    pub proof fn lemma_view_bound(p: G2)
        ensures
            p@.0.0 < fq_modulus() && p@.0.1 < fq_modulus(),
            p@.1.0 < fq_modulus() && p@.1.1 < fq_modulus(),
            p@.2.0 < fq_modulus() && p@.2.1 < fq_modulus(),
    {
        Fq2::lemma_view_bound(p.x);
        Fq2::lemma_view_bound(p.y);
        Fq2::lemma_view_bound(p.z);
    }

    /// The point with the given Jacobian coordinates.
    pub fn new(x: Fq2, y: Fq2, z: Fq2) -> (r: G2)
        ensures
            r@ == (x@, y@, z@),
    {
        G2 { x, y, z }
    }

    pub fn x(&self) -> (r: Fq2)
        ensures
            r@ == self@.0,
    {
        self.x
    }

    pub fn set_x(&mut self, x: Fq2)
        ensures
            final(self)@ == (x@, old(self)@.1, old(self)@.2),
    {
        self.x = x;
    }

    pub fn y(&self) -> (r: Fq2)
        ensures
            r@ == self@.1,
    {
        self.y
    }

    pub fn set_y(&mut self, y: Fq2)
        ensures
            final(self)@ == (old(self)@.0, y@, old(self)@.2),
    {
        self.y = y;
    }

    pub fn z(&self) -> (r: Fq2)
        ensures
            r@ == self@.2,
    {
        self.z
    }

    pub fn set_z(&mut self, z: Fq2)
        ensures
            final(self)@ == (old(self)@.0, old(self)@.1, z@),
    {
        self.z = z;
    }

    /// The coefficient `b` of the twist.
    pub fn b() -> (r: Fq2)
        ensures
            r@ == g2_b(),
    {
        Fq2::new(
            Fq::from_reduced(
                U256([0x3267e6dc24a138e5, 0xb5b4c5e559dbefa3, 0x81be18991be06ac3, 0x2b149d40ceb8aaae]),
            ),
            Fq::from_reduced(
                U256([0xe4a2bd0685c315d2, 0xa74fa084e52d1852, 0xcd2cafadeed8fdf4, 0x009713b03af0fed4]),
            ),
        )
    }

    pub fn double(&self) -> (r: G2)
        ensures
            r@ == g2_double(self@),
    {
        let a = self.x.mul_fq2(&self.x);
        let b = self.y.mul_fq2(&self.y);
        let c = b.mul_fq2(&b);
        let xb = self.x.add_fq2(&b);
        let d0 = xb.mul_fq2(&xb).sub_fq2(&a).sub_fq2(&c);
        let d = d0.add_fq2(&d0);
        let e = a.add_fq2(&a).add_fq2(&a);
        let f = e.mul_fq2(&e);
        let x3 = f.sub_fq2(&d.add_fq2(&d));
        let c2 = c.add_fq2(&c);
        let c4 = c2.add_fq2(&c2);
        let c8 = c4.add_fq2(&c4);
        let yz = self.y.mul_fq2(&self.z);
        G2 { x: x3, y: e.mul_fq2(&d.sub_fq2(&x3)).sub_fq2(&c8), z: yz.add_fq2(&yz) }
    }

    pub fn add_g2(&self, other: &G2) -> (r: G2)
        ensures
            r@ == g2_add(self@, other@),
    {
        if self.is_zero() {
            return *other;
        }
        if other.is_zero() {
            return *self;
        }
        let z1s = self.z.mul_fq2(&self.z);
        let z2s = other.z.mul_fq2(&other.z);
        let u1 = self.x.mul_fq2(&z2s);
        let u2 = other.x.mul_fq2(&z1s);
        let z1c = self.z.mul_fq2(&z1s);
        let z2c = other.z.mul_fq2(&z2s);
        let s1 = self.y.mul_fq2(&z2c);
        let s2 = other.y.mul_fq2(&z1c);
        if u1.equals(&u2) && s1.equals(&s2) {
            self.double()
        } else {
            let h = u2.sub_fq2(&u1);
            let sd = s2.sub_fq2(&s1);
            let hh = h.add_fq2(&h);
            let i = hh.mul_fq2(&hh);
            let j = h.mul_fq2(&i);
            let r = sd.add_fq2(&sd);
            let v = u1.mul_fq2(&i);
            let s1j = s1.mul_fq2(&j);
            let x3 = r.mul_fq2(&r).sub_fq2(&j).sub_fq2(&v.add_fq2(&v));
            let y3 = r.mul_fq2(&v.sub_fq2(&x3)).sub_fq2(&s1j.add_fq2(&s1j));
            let zz = self.z.add_fq2(&other.z);
            let z3 = zz.mul_fq2(&zz).sub_fq2(&z1s).sub_fq2(&z2s).mul_fq2(&h);
            G2 { x: x3, y: y3, z: z3 }
        }
    }

    pub fn neg_g2(&self) -> (r: G2)
        ensures
            r@ == g2_neg(self@),
    {
        if self.is_zero() {
            *self
        } else {
            G2 { x: self.x, y: self.y.neg_fq2(), z: self.z }
        }
    }

    pub fn sub_g2(&self, other: &G2) -> (r: G2)
        ensures
            r@ == g2_add(self@, g2_neg(other@)),
    {
        self.add_g2(&other.neg_g2())
    }

    /// `self` times the value of `k`.
    pub fn mul_g2(&self, k: &Fr) -> (r: G2)
        ensures
            r@ == g2_mul(self@, k@),
    {
        let e = k.into_u256();
        let mut res = G2::zero();
        let mut found_one = false;
        let mut i: usize = 256;
        proof {
            lemma_pow2_limbs();
            lemma_basic_div(e@ as int, pow2(256) as int);
        }
        while i > 0
            invariant
                i <= 256,
                res@ == g2_mul(self@, e@ / pow2(i as nat)),
                found_one == (e@ / pow2(i as nat) > 0),
            decreases i,
        {
            let bit = e.get_bit(i - 1).unwrap();
            let ghost t = e@ / pow2(i as nat);
            let ghost n = e@ / pow2((i - 1) as nat);
            proof {
                lemma_div_pow2_halves(e@, (i - 1) as nat);
                lemma_div_pow2_step(e@, (i - 1) as nat);
                assert((i - 1) as nat + 1 == i as nat);
                assert(n / 2 == t);
                assert(n % 2 == 1 <==> bit);
                assert(n > 0 <==> (t > 0 || bit));
            }
            if found_one {
                res = res.double();
            }
            if bit {
                found_one = true;
                res = res.add_g2(self);
            }
            i = i - 1;
        }
        proof {
            vstd::arithmetic::power2::lemma2_to64();
            lemma_div_basics(e@ as int);
        }
        res
    }

    /// Whether the two points stand for the same affine point.
    pub fn eq_g2(&self, other: &G2) -> (r: bool)
        ensures
            r == g2_eq(self@, other@),
    {
        if self.is_zero() {
            return other.is_zero();
        }
        if other.is_zero() {
            return false;
        }
        let z1s = self.z.mul_fq2(&self.z);
        let z2s = other.z.mul_fq2(&other.z);
        if !self.x.mul_fq2(&z2s).equals(&other.x.mul_fq2(&z1s)) {
            return false;
        }
        let z1c = self.z.mul_fq2(&z1s);
        let z2c = other.z.mul_fq2(&z2s);
        self.y.mul_fq2(&z2c).equals(&other.y.mul_fq2(&z1c))
    }

    /// The affine form of the point; `None` at infinity.
    pub(crate) fn to_affine(&self) -> (r: Option<AffineG2>)
        ensures
            r matches Some(a) ==> g2_to_affine(self@) == Some(a@),
            r is None <==> g2_to_affine(self@) is None,
    {
        if self.z.is_zero() {
            return None;
        }
        if self.z.equals(&Fq2::one()) {
            return Some(AffineG2 { x: self.x, y: self.y });
        }
        let zinv = match self.z.inverse() {
            Some(zi) => zi,
            None => {
                return None;
            },
        };
        let zinv2 = zinv.mul_fq2(&zinv);
        Some(AffineG2 { x: self.x.mul_fq2(&zinv2), y: self.y.mul_fq2(&zinv2.mul_fq2(&zinv)) })
    }

    /// Whether `a`, as the integer `c1 q + c0`, exceeds `b`.
    fn u512_gt(a: &Fq2, b: &Fq2) -> (r: bool)
        ensures
            r == (fq2_u512(a@) > fq2_u512(b@)),
    {
        let a0 = a.real_part().into_u256();
        let a1 = a.imaginary().into_u256();
        let b0 = b.real_part().into_u256();
        let b1 = b.imaginary().into_u256();
        proof {
            Fq2::lemma_view_bound(*a);
            Fq2::lemma_view_bound(*b);
            let q = fq_modulus();
            assert(fq2_u512(a@) > fq2_u512(b@) <==> (a@.1 > b@.1 || (a@.1 == b@.1 && a@.0
                > b@.0))) by (nonlinear_arith)
                requires
                    a@.0 < q,
                    b@.0 < q,
                    fq2_u512(a@) == a@.1 * q + a@.0,
                    fq2_u512(b@) == b@.1 * q + b@.0,
            {
                if a@.1 > b@.1 {
                    assert(a@.1 * q >= (b@.1 + 1) * q);
                } else if a@.1 < b@.1 {
                    assert(b@.1 * q >= (a@.1 + 1) * q);
                }
            }
        }
        b1.lt(&a1) || (a1.eq(&b1) && b0.lt(&a0))
    }

    /// Reads a compressed point: a sign byte, 10 for the smaller `y` and 11 for the larger, then
    /// the 64 big-endian bytes of `x = c0 + q c1`.
    pub fn from_compressed(bytes: &[u8]) -> (r: Result<G2, CurveError>)
        ensures
            r matches Ok(p) ==> g2_decompress(bytes@) == Ok::<JacFq2, CurveError>(p@),
            r matches Err(e) ==> g2_decompress(bytes@) == Err::<JacFq2, CurveError>(e),
            r matches Ok(p) ==> g2_on_curve(p@.0, p@.1) && g2_in_subgroup(p@.0, p@.1) && p@.2 == (
            1nat, 0nat),
            r matches Ok(p) ==> (bytes@[0] == 10 ==> p@.1.1 * fq_modulus() + p@.1.0 <= fq2_neg(
                p@.1,
            ).1 * fq_modulus() + fq2_neg(p@.1).0) && (bytes@[0] == 11 ==> p@.1.1 * fq_modulus()
                + p@.1.0 >= fq2_neg(p@.1).1 * fq_modulus() + fq2_neg(p@.1).0),
    {
        proof {
            if g2_decompress(bytes@) is Ok {
                lemma_g2_decompress_sign(bytes@);
            }
        }
        if bytes.len() != 65 {
            return Err(CurveError::InvalidEncoding);
        }
        let sign = bytes[0];
        let xs = vstd::slice::slice_subrange(bytes, 1, 65);
        let x = match Fq2::from_slice(xs) {
            Ok(x) => x,
            Err(e) => {
                return Err(CurveError::Field(e));
            },
        };
        proof {
            lemma_moduli();
            vstd::arithmetic::div_mod::lemma_mod_bound(be_val(xs@) as int, fq_modulus() as int);
        }
        let y_squared = x.mul_fq2(&x).mul_fq2(&x).add_fq2(&G2::b());
        let y = match y_squared.sqrt() {
            Some(y) => y,
            None => {
                return Err(CurveError::NotMember);
            },
        };
        let y_neg = y.neg_fq2();
        let y_gt = G2::u512_gt(&y, &y_neg);
        let e_y = if sign == 10 {
            if y_gt {
                y_neg
            } else {
                y
            }
        } else if sign == 11 {
            if y_gt {
                y
            } else {
                y_neg
            }
        } else {
            return Err(CurveError::InvalidEncoding);
        };
        match AffineG2::new(x, e_y) {
            Ok(a) => Ok(G2::from(a)),
            Err(_) => Err(CurveError::NotMember),
        }
    }
}

impl AffineG2 {
    /// The affine point `(x, y)`, taken as given: neither the curve equation nor the order is
    /// checked.
    pub fn new_unchecked(x: Fq2, y: Fq2) -> (r: AffineG2)
        ensures
            r@ == (x@, y@),
    {
        AffineG2 { x, y }
    }

    /// The affine point `(x, y)`: an error where it is not on the twist, or not of order `r`.
    pub fn new(x: Fq2, y: Fq2) -> (r: Result<AffineG2, GroupError>)
        ensures
            g2_on_curve(x@, y@) && g2_in_subgroup(x@, y@) ==> (r matches Ok(a) && a@ == (x@, y@)),
            !g2_on_curve(x@, y@) ==> r == Err::<AffineG2, GroupError>(GroupError::NotOnCurve),
            g2_on_curve(x@, y@) && !g2_in_subgroup(x@, y@) ==> r == Err::<AffineG2, GroupError>(
                GroupError::NotInSubgroup,
            ),
    {
        let lhs = y.mul_fq2(&y);
        let rhs = x.mul_fq2(&x).mul_fq2(&x).add_fq2(&G2::b());
        if lhs.equals(&rhs) {
            let p = G2 { x, y, z: Fq2::one() };
            let minus_one = Fr::one().neg_fr();
            proof {
                lemma_moduli();
                vstd::arithmetic::div_mod::lemma_small_mod(1, fr_modulus());
                assert(minus_one@ == (fr_modulus() - 1) as nat);
            }
            if !p.mul_g2(&minus_one).add_g2(&p).is_zero() {
                return Err(GroupError::NotInSubgroup);
            }
            Ok(AffineG2 { x, y })
        } else {
            Err(GroupError::NotOnCurve)
        }
    }

    pub fn x(&self) -> (r: Fq2)
        ensures
            r@ == self@.0,
    {
        self.x
    }

    pub fn set_x(&mut self, x: Fq2)
        ensures
            final(self)@ == (x@, old(self)@.1),
    {
        self.x = x;
    }

    pub fn y(&self) -> (r: Fq2)
        ensures
            r@ == self@.1,
    {
        self.y
    }

    pub fn set_y(&mut self, y: Fq2)
        ensures
            final(self)@ == (old(self)@.0, y@),
    {
        self.y = y;
    }

    /// The affine form of a point; `None` at infinity, or where `z` has no inverse (its norm
    /// has none modulo `q`).
    pub fn from_jacobian(g2: G2) -> (r: Option<AffineG2>)
        ensures
            r matches Some(a) ==> g2_to_affine(g2@) == Some(a@),
            r is None <==> g2_to_affine(g2@) is None,
            r is None <==> !g2_invertible_z(g2@) || g2@.2 == (0nat, 0nat),
    {
        proof {
            lemma_norm_one_has_inverse();
        }
        g2.to_affine()
    }
}

impl From<AffineG2> for G2 {
    fn from(affine: AffineG2) -> (r: G2)
        ensures
            r@ == (affine@.0, affine@.1, (1nat, 0nat)),
            r == G2::from_affine_spec(affine),
    {
        G2 { x: affine.x, y: affine.y, z: Fq2::one() }
    }
}

impl vstd::std_specs::convert::FromSpecImpl<AffineG2> for G2 {
    open spec fn obeys_from_spec() -> bool {
        true
    }

    open spec fn from_spec(affine: AffineG2) -> G2 {
        G2::from_affine_spec(affine)
    }
}

impl G2 {
    pub closed spec fn from_affine_spec(affine: AffineG2) -> G2 {
        G2 { x: affine.x, y: affine.y, z: Fq2::from_vals(1, 0) }
    }
}

impl G2 {
    /// The point with the given coordinate values.
    pub closed spec fn from_jac(p: JacFq2) -> G2 {
        G2 {
            x: Fq2::from_vals(p.0.0 as int, p.0.1 as int),
            y: Fq2::from_vals(p.1.0 as int, p.1.1 as int),
            z: Fq2::from_vals(p.2.0 as int, p.2.1 as int),
        }
    }
}

impl core::ops::Add<G2> for G2 {
    type Output = G2;

    fn add(self, other: G2) -> (r: G2)
        ensures
            r@ == g2_add(self@, other@),
    {
        self.add_g2(&other)
    }
}

impl vstd::std_specs::ops::AddSpecImpl<G2> for G2 {
    open spec fn obeys_add_spec() -> bool {
        false
    }

    open spec fn add_req(self, rhs: G2) -> bool {
        true
    }

    open spec fn add_spec(self, rhs: G2) -> G2 {
        G2::from_jac(g2_add(self@, rhs@))
    }
}

impl core::ops::Sub<G2> for G2 {
    type Output = G2;

    fn sub(self, other: G2) -> (r: G2)
        ensures
            r@ == g2_add(self@, g2_neg(other@)),
    {
        self.sub_g2(&other)
    }
}

impl vstd::std_specs::ops::SubSpecImpl<G2> for G2 {
    open spec fn obeys_sub_spec() -> bool {
        false
    }

    open spec fn sub_req(self, rhs: G2) -> bool {
        true
    }

    open spec fn sub_spec(self, rhs: G2) -> G2 {
        G2::from_jac(g2_add(self@, g2_neg(rhs@)))
    }
}

impl core::ops::Neg for G2 {
    type Output = G2;

    fn neg(self) -> (r: G2)
        ensures
            r@ == g2_neg(self@),
    {
        self.neg_g2()
    }
}

impl vstd::std_specs::ops::NegSpecImpl for G2 {
    open spec fn obeys_neg_spec() -> bool {
        false
    }

    open spec fn neg_req(self) -> bool {
        true
    }

    open spec fn neg_spec(self) -> G2 {
        G2::from_jac(g2_neg(self@))
    }
}

impl core::ops::Mul<Fr> for G2 {
    type Output = G2;

    fn mul(self, other: Fr) -> (r: G2)
        ensures
            r@ == g2_mul(self@, other@),
    {
        self.mul_g2(&other)
    }
}

impl vstd::std_specs::ops::MulSpecImpl<Fr> for G2 {
    open spec fn obeys_mul_spec() -> bool {
        false
    }

    open spec fn mul_req(self, rhs: Fr) -> bool {
        true
    }

    open spec fn mul_spec(self, rhs: Fr) -> G2 {
        G2::from_jac(g2_mul(self@, rhs@))
    }
}

impl Group for G2 {
    open spec fn spec_is_zero(&self) -> bool {
        g2_is_zero(self@)
    }

    /// The point at infinity.
    fn zero() -> (r: G2)
        ensures
            r@ == g2_zero(),
    {
        G2 { x: Fq2::zero(), y: Fq2::one(), z: Fq2::zero() }
    }

    /// The generator of the group.
    fn one() -> (r: G2)
        ensures
            r@ == g2_one(),
    {
        let x = Fq2::new(
            Fq::from_reduced(
                U256([0x46debd5cd992f6ed, 0x674322d4f75edadd, 0x426a00665e5c4479, 0x1800deef121f1e76]),
            ),
            Fq::from_reduced(
                U256([0x97e485b7aef312c2, 0xf1aa493335a9e712, 0x7260bfb731fb5d25, 0x198e9393920d483a]),
            ),
        );
        let y = Fq2::new(
            Fq::from_reduced(
                U256([0x4ce6cc0166fa7daa, 0xe3d1e7690c43d37b, 0x4aab71808dcb408f, 0x12c85ea5db8c6deb]),
            ),
            Fq::from_reduced(
                U256([0x55acdadcd122975b, 0xbc4b313370b38ef3, 0xec9e99ad690c3395, 0x090689d0585ff075]),
            ),
        );
        G2 { x, y, z: Fq2::one() }
    }

    /// The generator times a random scalar.
    fn random<R: rand::Rng>(rng: &mut R) -> (r: G2)
        ensures
            exists|k: nat| k < fr_modulus() && r@ == g2_mul(g2_one(), k),
    {
        let k = Fr::random(rng);
        let r = G2::one().mul_g2(&k);
        proof {
            Fr::lemma_view_bound(k);
        }
        r
    }

    fn is_zero(&self) -> (r: bool)
        ensures
            r == g2_is_zero(self@),
    {
        self.z.is_zero()
    }

    fn normalize(&mut self)
        ensures
            g2_to_affine(old(self)@) matches Some(a) ==> final(self)@ == (a.0, a.1, (1nat, 0nat)),
            g2_to_affine(old(self)@) is None ==> *final(self) == *old(self),
    {
        let new = match self.to_affine() {
            Some(a) => a,
            None => {
                return ;
            },
        };
        *self = G2::from(new);
    }
}

impl PartialEq for G2 {
    fn eq(&self, other: &G2) -> (r: bool) {
        self.eq_g2(other)
    }
}

impl vstd::std_specs::cmp::PartialEqSpecImpl for G2 {
    open spec fn obeys_eq_spec() -> bool {
        true
    }

    open spec fn eq_spec(&self, other: &G2) -> bool {
        g2_eq(self@, other@)
    }
}

impl Eq for G2 {
}

} // verus!
