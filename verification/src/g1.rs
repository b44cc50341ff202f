//! The group `G1` of points of `y^2 = x^3 + 3` over `Fq`, in Jacobian coordinates `(x, y, z)`
//! standing for the affine point `(x / z^2, y / z^3)`; `z = 0` is the point at infinity.
use vstd::prelude::*;
use vstd::arithmetic::div_mod::*;
use vstd::arithmetic::power2::pow2;
use crate::arith::{be_val, lemma_div_pow2_halves, lemma_div_pow2_step, lemma_pow2_limbs};
use crate::fp::{fr_modulus, fq_add, fq_modulus, fq_mul, fq_neg, fq_sqrt, fq_sub, lemma_moduli, Fq, Fr};
use crate::modular::has_inverse;
use crate::fq2::{fq_inv, lemma_fq_inv_unique};
use crate::{CurveError, FieldError, Group, GroupError};

verus! {

/// A point in Jacobian coordinates, by the values of its coordinates.
pub type JacFq = (nat, nat, nat);

/// The coefficient `b = 3` of the curve.
pub open spec fn g1_b() -> nat {
    3
}

/// The point at infinity `(0, 1, 0)`.
pub open spec fn g1_zero() -> JacFq {
    (0, 1, 0)
}

/// The generator `(1, 2, 1)`.
pub open spec fn g1_one() -> JacFq {
    (1, 2, 1)
}

pub open spec fn g1_is_zero(p: JacFq) -> bool {
    p.2 == 0
}

/// The doubling formula in Jacobian coordinates.
pub open spec fn g1_double(p: JacFq) -> JacFq {
    let a = fq_mul(p.0, p.0);
    let b = fq_mul(p.1, p.1);
    let c = fq_mul(b, b);
    let xb = fq_add(p.0, b);
    let d0 = fq_sub(fq_sub(fq_mul(xb, xb), a), c);
    let d = fq_add(d0, d0);
    let e = fq_add(fq_add(a, a), a);
    let f = fq_mul(e, e);
    let x3 = fq_sub(f, fq_add(d, d));
    let c2 = fq_add(c, c);
    let c4 = fq_add(c2, c2);
    let c8 = fq_add(c4, c4);
    let yz = fq_mul(p.1, p.2);
    (x3, fq_sub(fq_mul(e, fq_sub(d, x3)), c8), fq_add(yz, yz))
}

/// The addition formula in Jacobian coordinates, doubling where both points agree.
pub open spec fn g1_add(p: JacFq, q: JacFq) -> JacFq {
    if g1_is_zero(p) {
        q
    } else if g1_is_zero(q) {
        p
    } else {
        let z1s = fq_mul(p.2, p.2);
        let z2s = fq_mul(q.2, q.2);
        let u1 = fq_mul(p.0, z2s);
        let u2 = fq_mul(q.0, z1s);
        let z1c = fq_mul(p.2, z1s);
        let z2c = fq_mul(q.2, z2s);
        let s1 = fq_mul(p.1, z2c);
        let s2 = fq_mul(q.1, z1c);
        if u1 == u2 && s1 == s2 {
            g1_double(p)
        } else {
            let h = fq_sub(u2, u1);
            let sd = fq_sub(s2, s1);
            let hh = fq_add(h, h);
            let i = fq_mul(hh, hh);
            let j = fq_mul(h, i);
            let r = fq_add(sd, sd);
            let v = fq_mul(u1, i);
            let s1j = fq_mul(s1, j);
            let x3 = fq_sub(fq_sub(fq_mul(r, r), j), fq_add(v, v));
            let y3 = fq_sub(fq_mul(r, fq_sub(v, x3)), fq_add(s1j, s1j));
            let zz = fq_add(p.2, q.2);
            let z3 = fq_mul(fq_sub(fq_sub(fq_mul(zz, zz), z1s), z2s), h);
            (x3, y3, z3)
        }
    }
}

/// The negation: `y` negated, except at infinity.
pub open spec fn g1_neg(p: JacFq) -> JacFq {
    if g1_is_zero(p) {
        p
    } else {
        (p.0, fq_neg(p.1), p.2)
    }
}

/// `n p` by doubling and adding along the bits of `n` from the top, starting at the highest set
/// bit.
pub open spec fn g1_mul(p: JacFq, n: nat) -> JacFq
    decreases n,
{
    if n == 0 {
        g1_zero()
    } else {
        let h = g1_mul(p, n / 2);
        let d = if n / 2 == 0 {
            h
        } else {
            g1_double(h)
        };
        if n % 2 == 1 {
            g1_add(d, p)
        } else {
            d
        }
    }
}

/// Whether two points in Jacobian coordinates stand for the same affine point.
pub open spec fn g1_eq(p: JacFq, q: JacFq) -> bool {
    if g1_is_zero(p) {
        g1_is_zero(q)
    } else if g1_is_zero(q) {
        false
    } else {
        let z1s = fq_mul(p.2, p.2);
        let z2s = fq_mul(q.2, q.2);
        fq_mul(p.0, z2s) == fq_mul(q.0, z1s) && fq_mul(p.1, fq_mul(q.2, z2s)) == fq_mul(
            q.1,
            fq_mul(p.2, z1s),
        )
    }
}

/// Whether `(x, y)` lies on the curve.
pub open spec fn g1_on_curve(x: nat, y: nat) -> bool {
    fq_mul(y, y) == fq_add(fq_mul(fq_mul(x, x), x), g1_b())
}

/// The point that `G1::from_compressed` decodes from a sign byte (2 for an even `y`, 3 for an odd
/// one) and the 32 big-endian bytes of `x`, or the error it gives.
pub open spec fn g1_decompress(bytes: Seq<u8>) -> Result<JacFq, CurveError> {
    if bytes.len() != 33 {
        Err(CurveError::InvalidEncoding)
    } else {
        let x = be_val(bytes.subrange(1, 33));
        let sign = bytes[0];
        if x >= fq_modulus() {
            Err(CurveError::Field(FieldError::NotMember))
        } else {
            match fq_sqrt(fq_add(fq_mul(fq_mul(x, x), x), g1_b())) {
                None => Err(CurveError::NotMember),
                Some(y0) => if sign != 2 && sign != 3 {
                    Err(CurveError::InvalidEncoding)
                } else {
                    let y = if (sign == 2) == (y0 % 2 == 1) {
                        fq_neg(y0)
                    } else {
                        y0
                    };
                    if g1_on_curve(x, y) {
                        Ok((x, y, 1nat))
                    } else {
                        Err(CurveError::NotMember)
                    }
                },
            }
        }
    }
}

/// A decoded compressed point has the encoded `x`, lies on the curve, and its `y` has the
/// parity that the sign byte asks for: even for 2, odd for 3 (where `y` is not zero).
pub proof fn lemma_g1_decompress_parity(bytes: Seq<u8>)
    requires
        g1_decompress(bytes) is Ok,
    ensures
        ({
            let p = g1_decompress(bytes)->Ok_0;
            &&& bytes.len() == 33
            &&& p.0 == be_val(bytes.subrange(1, 33))
            &&& p.2 == 1
            &&& g1_on_curve(p.0, p.1)
            &&& p.1 < fq_modulus()
            &&& bytes[0] == 2 || bytes[0] == 3
            &&& bytes[0] == 2 ==> p.1 % 2 == 0
            &&& bytes[0] == 3 && p.1 != 0 ==> p.1 % 2 == 1
        }),
{
    lemma_moduli();
    let q = fq_modulus() as int;
    let x = be_val(bytes.subrange(1, 33));
    let y0 = fq_sqrt(fq_add(fq_mul(fq_mul(x, x), x), g1_b()))->Some_0;
    assert(y0 < fq_modulus()) by {
        lemma_mod_bound(
            vstd::arithmetic::power::pow(
                fq_add(fq_mul(fq_mul(x, x), x), g1_b()) as int,
                ((fq_modulus() + 1) / 4) as nat,
            ),
            q,
        );
    }
    assert(q % 2 == 1);
    if y0 == 0 {
        lemma_small_mod(0, fq_modulus());
        assert(fq_neg(y0) == 0);
    } else {
        lemma_fundamental_div_mod_converse(0 - y0, q, -1, q - y0);
        assert(fq_neg(y0) == (q - y0) as nat);
        assert((q - y0) % 2 != y0 % 2);
    }
}

/// One has an inverse modulo `q`.
pub proof fn lemma_has_inverse_one()
    ensures
        has_inverse(1, fq_modulus()),
{
    lemma_moduli();
    assert((1nat * 1nat) % fq_modulus() == 1);
}

/// The affine point `(x / z^2, y / z^3)`; none at infinity, or where `z` has no inverse.
pub open spec fn g1_to_affine(p: JacFq) -> Option<(nat, nat)> {
    if p.2 == 0 {
        None
    } else if p.2 == 1 {
        Some((p.0, p.1))
    } else if !has_inverse(p.2, fq_modulus()) {
        None
    } else {
        let zi = fq_inv(p.2);
        let zi2 = fq_mul(zi, zi);
        Some((fq_mul(p.0, zi2), fq_mul(p.1, fq_mul(zi2, zi))))
    }
}

/// The chord sum of two affine points with different `x`: with `l = (y2 - y1) / (x2 - x1)`,
/// the point `(l^2 - x1 - x2, l (x1 - x3) - y1)`.
pub open spec fn g1_chord(a: (nat, nat), b: (nat, nat)) -> (nat, nat) {
    let l = fq_mul(fq_sub(b.1, a.1), fq_inv(fq_sub(b.0, a.0)));
    let x3 = fq_sub(fq_sub(fq_mul(l, l), a.0), b.0);
    (x3, fq_sub(fq_mul(l, fq_sub(a.0, x3)), a.1))
}

/// The tangent double of an affine point: with `l = 3 x^2 / (2 y)`, the point
/// `(l^2 - 2 x, l (x - x3) - y)`.
pub open spec fn g1_tangent(a: (nat, nat)) -> (nat, nat) {
    let l = fq_mul(fq_mul(3, fq_mul(a.0, a.0)), fq_inv(fq_add(a.1, a.1)));
    let x3 = fq_sub(fq_mul(l, l), fq_add(a.0, a.0));
    (x3, fq_sub(fq_mul(l, fq_sub(a.0, x3)), a.1))
}

/// A point of `G1` in Jacobian coordinates.
#[derive(Copy, Clone, Debug)]
pub struct G1 {
    x: Fq,
    y: Fq,
    z: Fq,
}

impl View for G1 {
    type V = JacFq;

    closed spec fn view(&self) -> JacFq {
        (self.x@, self.y@, self.z@)
    }
}

/// A point of `G1` in affine coordinates.
#[derive(Copy, Clone, Debug, PartialEq, Eq)]
pub struct AffineG1 {
    x: Fq,
    y: Fq,
}

impl View for AffineG1 {
    type V = (nat, nat);

    closed spec fn view(&self) -> (nat, nat) {
        (self.x@, self.y@)
    }
}

impl G1 {
    pub proof fn lemma_view_bound(p: G1)
        ensures
            p@.0 < fq_modulus(),
            p@.1 < fq_modulus(),
            p@.2 < fq_modulus(),
    {
        Fq::lemma_view_bound(p.x);
        Fq::lemma_view_bound(p.y);
        Fq::lemma_view_bound(p.z);
    }

    /// The point with the given Jacobian coordinates.
    pub fn new(x: Fq, y: Fq, z: Fq) -> (r: G1)
        ensures
            r@ == (x@, y@, z@),
    {
        G1 { x, y, z }
    }

    pub fn x(&self) -> (r: Fq)
        ensures
            r@ == self@.0,
    {
        self.x
    }

    pub fn set_x(&mut self, x: Fq)
        ensures
            final(self)@ == (x@, old(self)@.1, old(self)@.2),
    {
        self.x = x;
    }

    pub fn y(&self) -> (r: Fq)
        ensures
            r@ == self@.1,
    {
        self.y
    }

    pub fn set_y(&mut self, y: Fq)
        ensures
            final(self)@ == (old(self)@.0, y@, old(self)@.2),
    {
        self.y = y;
    }

    pub fn z(&self) -> (r: Fq)
        ensures
            r@ == self@.2,
    {
        self.z
    }

    pub fn set_z(&mut self, z: Fq)
        ensures
            final(self)@ == (old(self)@.0, old(self)@.1, z@),
    {
        self.z = z;
    }

    /// The coefficient `b` of the curve.
    pub fn b() -> (r: Fq)
        ensures
            r@ == g1_b(),
    {
        let one = Fq::one();
        let two = one.add_fq(&one);
        let r = two.add_fq(&one);
        proof {
            lemma_moduli();
            lemma_small_mod(2, fq_modulus());
            lemma_small_mod(3, fq_modulus());
        }
        r
    }

    pub fn double(&self) -> (r: G1)
        ensures
            r@ == g1_double(self@),
    {
        let a = self.x.mul_fq(&self.x);
        let b = self.y.mul_fq(&self.y);
        let c = b.mul_fq(&b);
        let xb = self.x.add_fq(&b);
        let d0 = xb.mul_fq(&xb).sub_fq(&a).sub_fq(&c);
        let d = d0.add_fq(&d0);
        let e = a.add_fq(&a).add_fq(&a);
        let f = e.mul_fq(&e);
        let x3 = f.sub_fq(&d.add_fq(&d));
        let c2 = c.add_fq(&c);
        let c4 = c2.add_fq(&c2);
        let c8 = c4.add_fq(&c4);
        let yz = self.y.mul_fq(&self.z);
        G1 { x: x3, y: e.mul_fq(&d.sub_fq(&x3)).sub_fq(&c8), z: yz.add_fq(&yz) }
    }

    pub fn add_g1(&self, other: &G1) -> (r: G1)
        ensures
            r@ == g1_add(self@, other@),
    {
        if self.is_zero() {
            return *other;
        }
        if other.is_zero() {
            return *self;
        }
        let z1s = self.z.mul_fq(&self.z);
        let z2s = other.z.mul_fq(&other.z);
        let u1 = self.x.mul_fq(&z2s);
        let u2 = other.x.mul_fq(&z1s);
        let z1c = self.z.mul_fq(&z1s);
        let z2c = other.z.mul_fq(&z2s);
        let s1 = self.y.mul_fq(&z2c);
        let s2 = other.y.mul_fq(&z1c);
        if u1.equals(&u2) && s1.equals(&s2) {
            self.double()
        } else {
            let h = u2.sub_fq(&u1);
            let sd = s2.sub_fq(&s1);
            let hh = h.add_fq(&h);
            let i = hh.mul_fq(&hh);
            let j = h.mul_fq(&i);
            let r = sd.add_fq(&sd);
            let v = u1.mul_fq(&i);
            let s1j = s1.mul_fq(&j);
            let x3 = r.mul_fq(&r).sub_fq(&j).sub_fq(&v.add_fq(&v));
            let y3 = r.mul_fq(&v.sub_fq(&x3)).sub_fq(&s1j.add_fq(&s1j));
            let zz = self.z.add_fq(&other.z);
            let z3 = zz.mul_fq(&zz).sub_fq(&z1s).sub_fq(&z2s).mul_fq(&h);
            G1 { x: x3, y: y3, z: z3 }
        }
    }

    pub fn neg_g1(&self) -> (r: G1)
        ensures
            r@ == g1_neg(self@),
    {
        if self.is_zero() {
            *self
        } else {
            G1 { x: self.x, y: self.y.neg_fq(), z: self.z }
        }
    }

    pub fn sub_g1(&self, other: &G1) -> (r: G1)
        ensures
            r@ == g1_add(self@, g1_neg(other@)),
    {
        self.add_g1(&other.neg_g1())
    }

    /// `self` times the value of `k`.
    pub fn mul_g1(&self, k: &Fr) -> (r: G1)
        ensures
            r@ == g1_mul(self@, k@),
    {
        let e = k.into_u256();
        let mut res = G1::zero();
        let mut found_one = false;
        let mut i: usize = 256;
        proof {
            lemma_pow2_limbs();
            lemma_basic_div(e@ as int, pow2(256) as int);
        }
        while i > 0
            invariant
                i <= 256,
                res@ == g1_mul(self@, e@ / pow2(i as nat)),
                found_one == (e@ / pow2(i as nat) > 0),
            decreases i,
        {
            let bit = e.get_bit(i - 1).unwrap();
            let ghost t = e@ / pow2(i as nat);
            let ghost n = e@ / pow2((i - 1) as nat);
            proof {
                lemma_div_pow2_halves(e@, (i - 1) as nat);
                lemma_div_pow2_step(e@, (i - 1) as nat);
                assert((i - 1) as nat + 1 == i as nat);
                assert(n / 2 == t);
                assert(n % 2 == 1 <==> bit);
                assert(n > 0 <==> (t > 0 || bit));
            }
            if found_one {
                res = res.double();
            }
            if bit {
                found_one = true;
                res = res.add_g1(self);
            }
            i = i - 1;
        }
        proof {
            vstd::arithmetic::power2::lemma2_to64();
            lemma_div_basics(e@ as int);
        }
        res
    }

    /// Whether the two points stand for the same affine point.
    pub fn eq_g1(&self, other: &G1) -> (r: bool)
        ensures
            r == g1_eq(self@, other@),
    {
        if self.is_zero() {
            return other.is_zero();
        }
        if other.is_zero() {
            return false;
        }
        let z1s = self.z.mul_fq(&self.z);
        let z2s = other.z.mul_fq(&other.z);
        if !self.x.mul_fq(&z2s).equals(&other.x.mul_fq(&z1s)) {
            return false;
        }
        let z1c = self.z.mul_fq(&z1s);
        let z2c = other.z.mul_fq(&z2s);
        self.y.mul_fq(&z2c).equals(&other.y.mul_fq(&z1c))
    }

    /// The affine form of the point; `None` at infinity.
    pub(crate) fn to_affine(&self) -> (r: Option<AffineG1>)
        ensures
            r matches Some(a) ==> g1_to_affine(self@) == Some(a@),
            r is None <==> g1_to_affine(self@) is None,
    {
        if self.z.is_zero() {
            return None;
        }
        if self.z.equals(&Fq::one()) {
            return Some(AffineG1 { x: self.x, y: self.y });
        }
        let zinv = match self.z.inverse() {
            Some(zi) => zi,
            None => {
                return None;
            },
        };
        proof {
            Fq::lemma_view_bound(zinv);
            lemma_fq_inv_unique(self@.2, zinv@);
        }
        let zinv2 = zinv.mul_fq(&zinv);
        Some(AffineG1 { x: self.x.mul_fq(&zinv2), y: self.y.mul_fq(&zinv2.mul_fq(&zinv)) })
    }

    /// Reads a compressed point: a sign byte, 2 for an even `y` and 3 for an odd one, then the
    /// 32 big-endian bytes of `x`.
    pub fn from_compressed(bytes: &[u8]) -> (r: Result<G1, CurveError>)
        ensures
            r matches Ok(p) ==> g1_decompress(bytes@) == Ok::<JacFq, CurveError>(p@),
            r matches Err(e) ==> g1_decompress(bytes@) == Err::<JacFq, CurveError>(e),
            r matches Ok(p) ==> g1_on_curve(p@.0, p@.1) && p@.2 == 1,
            r matches Ok(p) ==> p@.0 == be_val(bytes@.subrange(1, 33)) && (bytes@[0] == 2 ==> p@.1
                % 2 == 0) && (bytes@[0] == 3 && p@.1 != 0 ==> p@.1 % 2 == 1),
    {
        proof {
            if g1_decompress(bytes@) is Ok {
                lemma_g1_decompress_parity(bytes@);
            }
        }
        if bytes.len() != 33 {
            return Err(CurveError::InvalidEncoding);
        }
        let sign = bytes[0];
        let xs = vstd::slice::slice_subrange(bytes, 1, 33);
        let x = match Fq::from_slice(xs) {
            Ok(x) => x,
            Err(e) => {
                return Err(CurveError::Field(e));
            },
        };
        let y_squared = x.mul_fq(&x).mul_fq(&x).add_fq(&G1::b());
        let mut y = match y_squared.sqrt() {
            Some(y) => y,
            None => {
                return Err(CurveError::NotMember);
            },
        };
        let ghost y0 = y@;
        let odd = !y.into_u256().is_even();
        if sign == 2 && odd {
            y = y.neg_fq();
        } else if sign == 3 && !odd {
            y = y.neg_fq();
        } else if sign != 3 && sign != 2 {
            return Err(CurveError::InvalidEncoding);
        }
        match AffineG1::new(x, y) {
            Ok(a) => Ok(G1::from(a)),
            Err(_) => Err(CurveError::NotMember),
        }
    }
}

impl AffineG1 {
    /// The coordinates are reduced.
    pub proof fn lemma_view_bound(a: AffineG1)
        ensures
            a@.0 < fq_modulus(),
            a@.1 < fq_modulus(),
    {
        Fq::lemma_view_bound(a.x);
        Fq::lemma_view_bound(a.y);
    }

    /// The affine point `(x, y)`, taken as given: the curve equation is not checked.
    pub fn new_unchecked(x: Fq, y: Fq) -> (r: AffineG1)
        ensures
            r@ == (x@, y@),
    {
        AffineG1 { x, y }
    }

    /// The affine point `(x, y)`: an error where it is not on the curve.
    pub fn new(x: Fq, y: Fq) -> (r: Result<AffineG1, GroupError>)
        ensures
            g1_on_curve(x@, y@) ==> (r matches Ok(a) && a@ == (x@, y@)),
            !g1_on_curve(x@, y@) ==> r == Err::<AffineG1, GroupError>(GroupError::NotOnCurve),
    {
        let lhs = y.mul_fq(&y);
        let rhs = x.mul_fq(&x).mul_fq(&x).add_fq(&G1::b());
        if lhs.equals(&rhs) {
            Ok(AffineG1 { x, y })
        } else {
            Err(GroupError::NotOnCurve)
        }
    }

    pub fn x(&self) -> (r: Fq)
        ensures
            r@ == self@.0,
    {
        self.x
    }

    pub fn set_x(&mut self, x: Fq)
        ensures
            final(self)@ == (x@, old(self)@.1),
    {
        self.x = x;
    }

    pub fn y(&self) -> (r: Fq)
        ensures
            r@ == self@.1,
    {
        self.y
    }

    pub fn set_y(&mut self, y: Fq)
        ensures
            final(self)@ == (old(self)@.0, y@),
    {
        self.y = y;
    }

    /// The affine form of a point; `None` at infinity, or where `z` has no inverse modulo `q`.
    pub fn from_jacobian(g1: G1) -> (r: Option<AffineG1>)
        ensures
            r matches Some(a) ==> g1_to_affine(g1@) == Some(a@),
            r is None <==> g1_to_affine(g1@) is None,
            r is None <==> (g1@.2 == 0 || !has_inverse(g1@.2, fq_modulus())),
    {
        proof {
            lemma_has_inverse_one();
        }
        g1.to_affine()
    }
}

impl From<AffineG1> for G1 {
    fn from(affine: AffineG1) -> (r: G1)
        ensures
            r@ == (affine@.0, affine@.1, 1nat),
            r == G1::from_affine_spec(affine),
    {
        G1 { x: affine.x, y: affine.y, z: Fq::one() }
    }
}

impl vstd::std_specs::convert::FromSpecImpl<AffineG1> for G1 {
    open spec fn obeys_from_spec() -> bool {
        true
    }

    open spec fn from_spec(affine: AffineG1) -> G1 {
        G1::from_affine_spec(affine)
    }
}

impl G1 {
    pub closed spec fn from_affine_spec(affine: AffineG1) -> G1 {
        G1 { x: affine.x, y: affine.y, z: Fq::from_val(1) }
    }
}

impl G1 {
    /// The point with the given coordinate values.
    pub closed spec fn from_jac(p: JacFq) -> G1 {
        G1 { x: Fq::from_val(p.0 as int), y: Fq::from_val(p.1 as int), z: Fq::from_val(p.2 as int) }
    }
}

impl core::ops::Add<G1> for G1 {
    type Output = G1;

    fn add(self, other: G1) -> (r: G1)
        ensures
            r@ == g1_add(self@, other@),
    {
        self.add_g1(&other)
    }
}

impl vstd::std_specs::ops::AddSpecImpl<G1> for G1 {
    open spec fn obeys_add_spec() -> bool {
        false
    }

    open spec fn add_req(self, rhs: G1) -> bool {
        true
    }

    open spec fn add_spec(self, rhs: G1) -> G1 {
        G1::from_jac(g1_add(self@, rhs@))
    }
}

impl core::ops::Sub<G1> for G1 {
    type Output = G1;

    fn sub(self, other: G1) -> (r: G1)
        ensures
            r@ == g1_add(self@, g1_neg(other@)),
    {
        self.sub_g1(&other)
    }
}

impl vstd::std_specs::ops::SubSpecImpl<G1> for G1 {
    open spec fn obeys_sub_spec() -> bool {
        false
    }

    open spec fn sub_req(self, rhs: G1) -> bool {
        true
    }

    open spec fn sub_spec(self, rhs: G1) -> G1 {
        G1::from_jac(g1_add(self@, g1_neg(rhs@)))
    }
}

impl core::ops::Neg for G1 {
    type Output = G1;

    fn neg(self) -> (r: G1)
        ensures
            r@ == g1_neg(self@),
    {
        self.neg_g1()
    }
}

impl vstd::std_specs::ops::NegSpecImpl for G1 {
    open spec fn obeys_neg_spec() -> bool {
        false
    }

    open spec fn neg_req(self) -> bool {
        true
    }

    open spec fn neg_spec(self) -> G1 {
        G1::from_jac(g1_neg(self@))
    }
}

impl core::ops::Mul<Fr> for G1 {
    type Output = G1;

    fn mul(self, other: Fr) -> (r: G1)
        ensures
            r@ == g1_mul(self@, other@),
    {
        self.mul_g1(&other)
    }
}

impl vstd::std_specs::ops::MulSpecImpl<Fr> for G1 {
    open spec fn obeys_mul_spec() -> bool {
        false
    }

    open spec fn mul_req(self, rhs: Fr) -> bool {
        true
    }

    open spec fn mul_spec(self, rhs: Fr) -> G1 {
        G1::from_jac(g1_mul(self@, rhs@))
    }
}

impl Group for G1 {
    open spec fn spec_is_zero(&self) -> bool {
        g1_is_zero(self@)
    }

    /// The point at infinity.
    fn zero() -> (r: G1)
        ensures
            r@ == g1_zero(),
    {
        G1 { x: Fq::zero(), y: Fq::one(), z: Fq::zero() }
    }

    /// The generator `(1, 2)`.
    fn one() -> (r: G1)
        ensures
            r@ == g1_one(),
    {
        let one = Fq::one();
        let two = one.add_fq(&one);
        proof {
            lemma_moduli();
            lemma_small_mod(2, fq_modulus());
        }
        G1 { x: one, y: two, z: one }
    }

    /// The generator times a random scalar.
    fn random<R: rand::Rng>(rng: &mut R) -> (r: G1)
        ensures
            exists|k: nat| k < fr_modulus() && r@ == g1_mul(g1_one(), k),
    {
        let k = Fr::random(rng);
        let r = G1::one().mul_g1(&k);
        proof {
            Fr::lemma_view_bound(k);
        }
        r
    }

    fn is_zero(&self) -> (r: bool)
        ensures
            r == g1_is_zero(self@),
    {
        self.z.is_zero()
    }

    fn normalize(&mut self)
        ensures
            g1_to_affine(old(self)@) matches Some(a) ==> final(self)@ == (a.0, a.1, 1nat),
            g1_to_affine(old(self)@) is None ==> *final(self) == *old(self),
    {
        let new = match self.to_affine() {
            Some(a) => a,
            None => {
                return ;
            },
        };
        *self = G1::from(new);
    }
}

impl PartialEq for G1 {
    fn eq(&self, other: &G1) -> (r: bool) {
        self.eq_g1(other)
    }
}

impl vstd::std_specs::cmp::PartialEqSpecImpl for G1 {
    open spec fn obeys_eq_spec() -> bool {
        true
    }

    open spec fn eq_spec(&self, other: &G1) -> bool {
        g1_eq(self@, other@)
    }
}

impl Eq for G1 {
}

} // verus!
