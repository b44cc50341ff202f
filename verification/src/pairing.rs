//! The optimal ate pairing `e: G1 x G2 -> Gt`. The lines of the Miller loop are computed from
//! the `G2` point alone, evaluated at the `G1` point, multiplied up, and the product is raised to
//! the final exponent `(q^12 - 1) / r`.
use vstd::prelude::*;
use crate::arith::U256;
use crate::fp::{lemma_moduli, Fq, Fr};
use crate::fq2::{fq2_add, fq2_frob, fq2_mul, fq2_neg, fq2_scale, fq2_sub, fq2_xi, Fq2};
use crate::fq12::{fq6_add, fq6_one, fq6_zero, fq6_reduced, fq12_final_exp, fq12_inv, fq12_mul, fq12_one, fq12_pow, Fq12, Fq12V};
use crate::g1::{g1_to_affine, AffineG1, JacFq, G1};
use crate::g2::{g2_b, g2_to_affine, AffineG2, JacFq2, G2};
use crate::CurveError;

verus! {

/// The three coefficients `(ell_0, ell_vw, ell_vv)` of a line of the Miller loop.
pub type EllV = ((nat, nat), (nat, nat), (nat, nat));

/// An affine point of the twist, by the values of its coordinates.
pub type AffFq2 = ((nat, nat), (nat, nat));

/// `1 / 2` in `Fq`.
pub open spec fn two_inv() -> nat {
    10944121435919637611123202872628637544348155578648911831344518947322613104292nat
}

/// `xi^((q - 1) / 3)`, by which the `x` coordinate of the twist is multiplied under Frobenius.
pub open spec fn twist_mul_by_q_x() -> (nat, nat) {
    (
        21575463638280843010398324269430826099269044274347216827212613867836435027261nat,
        10307601595873709700152284273816112264069230130616436755625194854815875713954nat,
    )
}

/// `xi^((q - 1) / 2)`, by which the `y` coordinate of the twist is multiplied under Frobenius.
pub open spec fn twist_mul_by_q_y() -> (nat, nat) {
    (
        2821565182194536844548159561693502659359617185244120367078079554186484126554nat,
        3505843767911556378687030309984248845540243509899259641013678093033130930403nat,
    )
}

/// The signed binary digits of `6u + 2`, least significant first, with no two adjacent digits
/// nonzero.
pub open spec fn ate_naf() -> Seq<int> {
    seq![
        0int, 0, 0, 1, 0, 1, 0, -1, 0, 0, -1, 0, 0, 0, 1, 0, 0, -1, 0, -1, 0, 0, 0, 1, 0, -1, 0,
        0, 0, 0, -1, 0, 0, 1, 0, -1, 0, 0, 1, 0, 0, 0, 0, 0, -1, 0, 0, -1, 0, 1, 0, -1, 0, 0, 0,
        -1, 0, -1, 0, 0, 0, 1, 0, -1, 0, 1,
    ]
}

/// The digit that step `s` of the loops reads: the digits are taken from the most significant
/// down, the leading one left out.
pub open spec fn naf_step(s: nat) -> int {
    ate_naf()[64 - s]
}

/// The number of lines that step `s` of the loops uses: one, and one more for a nonzero digit.
pub open spec fn step_len(s: nat) -> nat {
    if naf_step(s) != 0 {
        2
    } else {
        1
    }
}

/// The number of lines that the first `k` steps use.
pub open spec fn prefix_len(k: nat) -> nat
    decreases k,
{
    if k == 0 {
        0
    } else {
        prefix_len((k - 1) as nat) + step_len((k - 1) as nat)
    }
}

/// The doubling step on the projective point `(X, Y, Z)` of the twist: the doubled point and the
/// coefficients of the tangent line.
#[verifier::opaque]
pub open spec fn doubling_step_spec(r: JacFq2) -> (JacFq2, EllV) {
    let x = r.0;
    let y = r.1;
    let z = r.2;
    let a = fq2_scale(fq2_mul(x, y), two_inv());
    let b = fq2_mul(y, y);
    let c = fq2_mul(z, z);
    let d = fq2_add(fq2_add(c, c), c);
    let e = fq2_mul(g2_b(), d);
    let f = fq2_add(fq2_add(e, e), e);
    let g = fq2_scale(fq2_add(b, f), two_inv());
    let h = fq2_sub(fq2_mul(fq2_add(y, z), fq2_add(y, z)), fq2_add(b, c));
    let i = fq2_sub(e, b);
    let j = fq2_mul(x, x);
    let e_sq = fq2_mul(e, e);
    (
        (
            fq2_mul(a, fq2_sub(b, f)),
            fq2_sub(fq2_mul(g, g), fq2_add(fq2_add(e_sq, e_sq), e_sq)),
            fq2_mul(b, h),
        ),
        (fq2_mul(fq2_xi(), i), fq2_neg(h), fq2_add(fq2_add(j, j), j)),
    )
}

/// The addition step of the affine point `q` to the projective point `r`: the sum and the
/// coefficients of the line through both.
#[verifier::opaque]
pub open spec fn addition_step_spec(r: JacFq2, q: AffFq2) -> (JacFq2, EllV) {
    let d = fq2_sub(r.0, fq2_mul(r.2, q.0));
    let e = fq2_sub(r.1, fq2_mul(r.2, q.1));
    let f = fq2_mul(d, d);
    let g = fq2_mul(e, e);
    let h = fq2_mul(d, f);
    let i = fq2_mul(r.0, f);
    let j = fq2_sub(fq2_add(fq2_mul(r.2, g), h), fq2_add(i, i));
    (
        (fq2_mul(d, j), fq2_sub(fq2_mul(e, fq2_sub(i, j)), fq2_mul(h, r.1)), fq2_mul(r.2, h)),
        (fq2_mul(fq2_xi(), fq2_sub(fq2_mul(e, q.0), fq2_mul(d, q.1))), d, fq2_neg(e)),
    )
}

/// The Frobenius endomorphism on an affine point of the twist.
pub open spec fn mul_by_q_spec(q: AffFq2) -> AffFq2 {
    (fq2_mul(fq2_frob(q.0, 1), twist_mul_by_q_x()), fq2_mul(fq2_frob(q.1, 1), twist_mul_by_q_y()))
}

/// The point and the lines after the first `k` steps of the precomputation for `q`.
pub open spec fn precompute_prefix(q: AffFq2, k: nat) -> (JacFq2, Seq<EllV>)
    decreases k,
{
    if k == 0 {
        ((q.0, q.1, (1nat, 0nat)), Seq::empty())
    } else {
        let prev = precompute_prefix(q, (k - 1) as nat);
        let dbl = doubling_step_spec(prev.0);
        let cs = prev.1.push(dbl.1);
        if naf_step((k - 1) as nat) == 1 {
            let add = addition_step_spec(dbl.0, q);
            (add.0, cs.push(add.1))
        } else if naf_step((k - 1) as nat) == -1 {
            let add = addition_step_spec(dbl.0, (q.0, fq2_neg(q.1)));
            (add.0, cs.push(add.1))
        } else {
            (dbl.0, cs)
        }
    }
}

/// All the lines of the Miller loop for `q`: those of the 65 steps, then those through the
/// images of `q` under the Frobenius map and its square, negated.
#[verifier::opaque]
pub open spec fn g2_precompute(q: AffFq2) -> Seq<EllV> {
    let pre = precompute_prefix(q, 65);
    let q1 = mul_by_q_spec(q);
    let q1q = mul_by_q_spec(q1);
    let q2 = (q1q.0, fq2_neg(q1q.1));
    let s1 = addition_step_spec(pre.0, q1);
    let s2 = addition_step_spec(s1.0, q2);
    pre.1.push(s1.1).push(s2.1)
}

/// The sparse element `ell_0 + (ell_vv p.x) v^2 + (ell_vw p.y) v w` of the line `c` at `p`.
pub open spec fn line_value(c: EllV, p: (nat, nat)) -> Fq12V {
    ((c.0, (0nat, 0nat), fq2_scale(c.2, p.0)), ((0nat, 0nat), fq2_scale(c.1, p.1), (0nat, 0nat)))
}

/// The sum in `Fq12`.
pub open spec fn fq12_add(a: Fq12V, b: Fq12V) -> Fq12V {
    (fq6_add(a.0, b.0), fq6_add(a.1, b.1))
}

/// An element of `Fq2` as an element of `Fq12`.
pub open spec fn fq12_embed(a: (nat, nat)) -> Fq12V {
    ((a, (0nat, 0nat), (0nat, 0nat)), ((0nat, 0nat), (0nat, 0nat), (0nat, 0nat)))
}

/// The element `w` that generates `Fq12` over `Fq6`, with `w^2 = v`.
pub open spec fn fq12_w() -> Fq12V {
    (fq6_zero(), fq6_one())
}

/// The line with coefficients `c` at the projective point `(x : y : z)` of the curve over
/// `Fq12`: `ell_0 z + ell_vv x w^4 + ell_vw y w^3`.
pub open spec fn line_at(c: EllV, x: Fq12V, y: Fq12V, z: Fq12V) -> Fq12V {
    let w = fq12_w();
    let w2 = fq12_mul(w, w);
    let w3 = fq12_mul(w2, w);
    let w4 = fq12_mul(w2, w2);
    fq12_add(
        fq12_add(fq12_mul(fq12_embed(c.0), z), fq12_mul(fq12_mul(fq12_embed(c.2), x), w4)),
        fq12_mul(fq12_mul(fq12_embed(c.1), y), w3),
    )
}

/// The image of a projective point `(X : Y : Z)` of the twist on the curve over `Fq12`:
/// `(X w^2 : Y w^3 : Z)`.
pub open spec fn untwist(t: JacFq2) -> (Fq12V, Fq12V, Fq12V) {
    let w = fq12_w();
    let w2 = fq12_mul(w, w);
    let w3 = fq12_mul(w2, w);
    (fq12_mul(fq12_embed(t.0), w2), fq12_mul(fq12_embed(t.1), w3), fq12_embed(t.2))
}

/// `f` times the lines at index `idx` of the first `n` pairs, in order.
pub open spec fn mul_lines(
    f: Fq12V,
    qs: Seq<AffFq2>,
    ps: Seq<(nat, nat)>,
    idx: int,
    n: nat,
) -> Fq12V
    decreases n,
{
    if n == 0 {
        f
    } else {
        fq12_mul(
            mul_lines(f, qs, ps, idx, (n - 1) as nat),
            line_value(g2_precompute(qs[n - 1])[idx], ps[n - 1]),
        )
    }
}

/// The accumulator of the Miller loop over the pairs `(qs[j], ps[j])` after `k` steps.
pub open spec fn miller_prefix(qs: Seq<AffFq2>, ps: Seq<(nat, nat)>, k: nat) -> Fq12V
    decreases k,
{
    if k == 0 {
        fq12_one()
    } else {
        let f = miller_prefix(qs, ps, (k - 1) as nat);
        let i = prefix_len((k - 1) as nat) as int;
        let f1 = mul_lines(fq12_mul(f, f), qs, ps, i, ps.len());
        if naf_step((k - 1) as nat) != 0 {
            mul_lines(f1, qs, ps, i + 1, ps.len())
        } else {
            f1
        }
    }
}

/// The value of the Miller loop over the pairs `(qs[j], ps[j])`.
#[verifier::opaque]
pub open spec fn miller_loop_value(qs: Seq<AffFq2>, ps: Seq<(nat, nat)>) -> Fq12V {
    let i = prefix_len(65) as int;
    mul_lines(mul_lines(miller_prefix(qs, ps, 65), qs, ps, i, ps.len()), qs, ps, i + 1, ps.len())
}

/// The pairing of two points given in Jacobian coordinates: one where either is at infinity,
/// and otherwise the final exponentiation of the Miller loop, none where that has no value.
pub open spec fn pairing_spec(p: JacFq, q: JacFq2) -> Option<Fq12V> {
    match g1_to_affine(p) {
        None => Some(fq12_one()),
        Some(a) => match g2_to_affine(q) {
            None => Some(fq12_one()),
            Some(b) => fq12_final_exp(miller_loop_value(seq![b], seq![a])),
        },
    }
}

/// The affine forms of the pairs of which neither point is at infinity, in order.
pub open spec fn batch_affine(pairs: Seq<(JacFq, JacFq2)>) -> (Seq<AffFq2>, Seq<(nat, nat)>)
    decreases pairs.len(),
{
    if pairs.len() == 0 {
        (Seq::empty(), Seq::empty())
    } else {
        let prev = batch_affine(pairs.drop_last());
        let last = pairs.last();
        match g1_to_affine(last.0) {
            None => prev,
            Some(a) => match g2_to_affine(last.1) {
                None => prev,
                Some(b) => (prev.0.push(b), prev.1.push(a)),
            },
        }
    }
}

/// The product of the pairings of the pairs: one where every pair has a point at infinity, and
/// otherwise the final exponentiation of the Miller loop over the others.
pub open spec fn pairing_batch_spec(pairs: Seq<(JacFq, JacFq2)>) -> Option<Fq12V> {
    let kept = batch_affine(pairs);
    if kept.0.len() == 0 {
        Some(fq12_one())
    } else {
        fq12_final_exp(miller_loop_value(kept.0, kept.1))
    }
}

/// The pairs of points by their Jacobian coordinates.
pub open spec fn g1g2_views(pairs: Seq<(G1, G2)>) -> Seq<(JacFq, JacFq2)> {
    pairs.map_values(|x: (G1, G2)| (x.0@, x.1@))
}

/// Whether some pair has a point without an affine form: at infinity, or with a `z` that has
/// no inverse.
pub open spec fn some_without_affine(pairs: Seq<(JacFq2, JacFq)>) -> bool {
    exists|j: int|
        0 <= j < pairs.len() && (g2_to_affine((#[trigger] pairs[j]).0) is None || g1_to_affine(
            pairs[j].1,
        ) is None)
}

/// The affine forms of the `G2` points of the pairs.
pub open spec fn g2_affines(pairs: Seq<(JacFq2, JacFq)>) -> Seq<AffFq2> {
    pairs.map_values(|x: (JacFq2, JacFq)| g2_to_affine(x.0).unwrap())
}

/// The affine forms of the `G1` points of the pairs.
pub open spec fn g1_affines(pairs: Seq<(JacFq2, JacFq)>) -> Seq<(nat, nat)> {
    pairs.map_values(|x: (JacFq2, JacFq)| g1_to_affine(x.1).unwrap())
}

/// The pairs of points by their Jacobian coordinates.
pub open spec fn g2g1_views(pairs: Seq<(G2, G1)>) -> Seq<(JacFq2, JacFq)> {
    pairs.map_values(|x: (G2, G1)| (x.0@, x.1@))
}

/// The coefficients of a line of the Miller loop.
#[derive(Copy, Clone, Debug)]
struct EllCoeffs {
    ell_0: Fq2,
    ell_vw: Fq2,
    ell_vv: Fq2,
}

impl View for EllCoeffs {
    type V = EllV;

    closed spec fn view(&self) -> EllV {
        (self.ell_0@, self.ell_vw@, self.ell_vv@)
    }
}

/// An affine point of the twist with the lines of its Miller loop.
struct G2Precomp {
    q: AffineG2,
    coeffs: Vec<EllCoeffs>,
}

impl G2Precomp {
    spec fn wf(&self) -> bool {
        &&& self.coeffs@.len() == g2_precompute(self.q@).len()
        &&& forall|i: int|
            0 <= i < self.coeffs@.len() ==> #[trigger] self.coeffs@[i]@ == g2_precompute(
                self.q@,
            )[i]
    }
}

/// The points of the precomputations.
spec fn precomp_points(s: Seq<G2Precomp>) -> Seq<AffFq2> {
    s.map_values(|p: G2Precomp| p.q@)
}

/// The values of affine points.
spec fn affine_points(s: Seq<AffineG1>) -> Seq<(nat, nat)> {
    s.map_values(|a: AffineG1| a@)
}

proof fn lemma_prefix_len_mono(k: nat, m: nat)
    requires
        k <= m,
    ensures
        prefix_len(k) <= prefix_len(m),
    decreases m - k,
{
    if k < m {
        lemma_prefix_len_mono(k, (m - 1) as nat);
    }
}

proof fn lemma_prefix_len_bound(k: nat)
    ensures
        k <= prefix_len(k) <= 2 * k,
    decreases k,
{
    if k > 0 {
        lemma_prefix_len_bound((k - 1) as nat);
    }
}

proof fn lemma_naf_digits()
    ensures
        forall|i: int| 0 <= i < 66 ==> -1 <= #[trigger] ate_naf()[i] <= 1,
{
    assert forall|i: int| 0 <= i < 66 implies -1 <= #[trigger] ate_naf()[i] <= 1 by {
        assert(ate_naf().len() == 66);
    }
}

proof fn lemma_precompute_prefix_len(q: AffFq2, k: nat)
    requires
        k <= 65,
    ensures
        precompute_prefix(q, k).1.len() == prefix_len(k),
    decreases k,
{
    if k > 0 {
        lemma_precompute_prefix_len(q, (k - 1) as nat);
        lemma_naf_digits();
        assert(-1 <= ate_naf()[64 - (k - 1)] <= 1);
    }
}

proof fn lemma_precompute_len(q: AffFq2)
    ensures
        g2_precompute(q).len() == prefix_len(65) + 2,
{
    reveal(g2_precompute);
    lemma_precompute_prefix_len(q, 65);
}

/// The twist's non-residue `xi = 9 + i`.
fn twist() -> (r: Fq2)
    ensures
        r@ == fq2_xi(),
{
    proof {
        lemma_moduli();
    }
    Fq2::from_limbs([9, 0, 0, 0], [1, 0, 0, 0])
}

/// Digit `i` of `ate_naf`.
fn ate_loop_count_naf(i: usize) -> (r: i8)
    requires
        i < 66,
    ensures
        r as int == ate_naf()[i as int],
{
    let naf: [i8; 66] = [
        0, 0, 0, 1, 0, 1, 0, -1, 0, 0, -1, 0, 0, 0, 1, 0, 0, -1, 0, -1, 0, 0, 0, 1, 0, -1, 0, 0,
        0, 0, -1, 0, 0, 1, 0, -1, 0, 0, 1, 0, 0, 0, 0, 0, -1, 0, 0, -1, 0, 1, 0, -1, 0, 0, 0, -1,
        0, -1, 0, 0, 0, 1, 0, -1, 0, 1,
    ];
    proof {
        assert(forall|j: int| 0 <= j < 66 ==> naf@[j] as int == #[trigger] ate_naf()[j]);
    }
    naf[i]
}

/// Doubles `r` and gives the coefficients of the tangent line.
fn doubling_step(r: &mut G2) -> (c: EllCoeffs)
    ensures
        (final(r)@, c@) == doubling_step_spec(old(r)@),
{
    proof {
        lemma_moduli();
        reveal(doubling_step_spec);
    }
    let two_inv = Fq::from_reduced(
        U256([0x9e10460b6c3e7ea4, 0xcbc0b548b438e546, 0xdc2822db40c0ac2e, 0x183227397098d014]),
    );
    let x = r.x();
    let y = r.y();
    let z = r.z();
    let a = x.mul_fq2(&y).scale(&two_inv);
    let b = y.mul_fq2(&y);
    let c = z.mul_fq2(&z);
    let d = c.add_fq2(&c).add_fq2(&c);
    let e = G2::b().mul_fq2(&d);
    let f = e.add_fq2(&e).add_fq2(&e);
    let g = b.add_fq2(&f).scale(&two_inv);
    let yz = y.add_fq2(&z);
    let h = yz.mul_fq2(&yz).sub_fq2(&b.add_fq2(&c));
    let i = e.sub_fq2(&b);
    let j = x.mul_fq2(&x);
    let e_sq = e.mul_fq2(&e);
    r.set_x(a.mul_fq2(&b.sub_fq2(&f)));
    r.set_y(g.mul_fq2(&g).sub_fq2(&e_sq.add_fq2(&e_sq).add_fq2(&e_sq)));
    r.set_z(b.mul_fq2(&h));
    EllCoeffs { ell_0: twist().mul_fq2(&i), ell_vw: h.neg_fq2(), ell_vv: j.add_fq2(&j).add_fq2(&j) }
}

/// Adds the affine point `base` to `r` and gives the coefficients of the line through both.
fn mixed_addition_step(r: &mut G2, base: &AffineG2) -> (c: EllCoeffs)
    ensures
        (final(r)@, c@) == addition_step_spec(old(r)@, base@),
{
    proof {
        reveal(addition_step_spec);
    }
    let x = r.x();
    let y = r.y();
    let z = r.z();
    let bx = base.x();
    let by = base.y();
    let d = x.sub_fq2(&z.mul_fq2(&bx));
    let e = y.sub_fq2(&z.mul_fq2(&by));
    let f = d.mul_fq2(&d);
    let g = e.mul_fq2(&e);
    let h = d.mul_fq2(&f);
    let i = x.mul_fq2(&f);
    let j = z.mul_fq2(&g).add_fq2(&h).sub_fq2(&i.add_fq2(&i));
    r.set_x(d.mul_fq2(&j));
    r.set_y(e.mul_fq2(&i.sub_fq2(&j)).sub_fq2(&h.mul_fq2(&y)));
    r.set_z(z.mul_fq2(&h));
    EllCoeffs {
        ell_0: twist().mul_fq2(&e.mul_fq2(&bx).sub_fq2(&d.mul_fq2(&by))),
        ell_vw: d,
        ell_vv: e.neg_fq2(),
    }
}

/// The Frobenius endomorphism on an affine point of the twist.
fn mul_by_q(q: &AffineG2) -> (r: AffineG2)
    ensures
        r@ == mul_by_q_spec(q@),
{
    proof {
        lemma_moduli();
    }
    let tx = Fq2::from_limbs(
        [0x99e39557176f553d, 0xb78cc310c2c3330c, 0x4c0bec3cf559b143, 0x2fb347984f7911f7],
        [0x1665d51c640fcba2, 0x32ae2a1d0b7c9dce, 0x4ba4cc8bd75a0794, 0x16c9e55061ebae20],
    );
    let ty = Fq2::from_limbs(
        [0xdc54014671a0135a, 0xdbaae0eda9c95998, 0xdc5ec698b6e2f9b9, 0x063cf305489af5dc],
        [0x82d37f632623b0e3, 0x21807dc98fa25bd2, 0x0704b5a7ec796f2b, 0x07c03cbcac41049a],
    );
    AffineG2::new_unchecked(
        q.x().frobenius_map(1).mul_fq2(&tx),
        q.y().frobenius_map(1).mul_fq2(&ty),
    )
}

/// The lines of the Miller loop for `q`.
fn precompute(q: &AffineG2) -> (r: G2Precomp)
    ensures
        r.wf(),
        r.q@ == q@,
{
    let mut r = G2::new(q.x(), q.y(), Fq2::one());
    let mut coeffs: Vec<EllCoeffs> = Vec::new();
    let q_neg = AffineG2::new_unchecked(q.x(), q.y().neg_fq2());
    let mut k: usize = 0;
    while k < 65
        invariant
            k <= 65,
            r@ == precompute_prefix(q@, k as nat).0,
            coeffs@.len() == precompute_prefix(q@, k as nat).1.len(),
            forall|i: int|
                0 <= i < coeffs@.len() ==> #[trigger] coeffs@[i]@ == precompute_prefix(
                    q@,
                    k as nat,
                ).1[i],
            q_neg@ == (q@.0, fq2_neg(q@.1)),
        decreases 65 - k,
    {
        let ghost prev = precompute_prefix(q@, k as nat);
        let c = doubling_step(&mut r);
        coeffs.push(c);
        let d = ate_loop_count_naf(64 - k);
        if d == 1 {
            let c2 = mixed_addition_step(&mut r, q);
            coeffs.push(c2);
        } else if d == -1 {
            let c2 = mixed_addition_step(&mut r, &q_neg);
            coeffs.push(c2);
        }
        proof {
            let next = precompute_prefix(q@, (k + 1) as nat);
            assert(naf_step(k as nat) == d as int);
            assert forall|i: int| 0 <= i < coeffs@.len() implies #[trigger] coeffs@[i]@ == next.1[i] by {
                if i < prev.1.len() {
                    assert(coeffs@[i]@ == prev.1[i]);
                }
            }
        }
        k = k + 1;
    }
    let q1 = mul_by_q(q);
    let q1q = mul_by_q(&q1);
    let q2 = AffineG2::new_unchecked(q1q.x(), q1q.y().neg_fq2());
    let ghost pre = precompute_prefix(q@, 65);
    let c1 = mixed_addition_step(&mut r, &q1);
    coeffs.push(c1);
    let c2 = mixed_addition_step(&mut r, &q2);
    coeffs.push(c2);
    proof {
        reveal(g2_precompute);
        let all = g2_precompute(q@);
        assert forall|i: int| 0 <= i < coeffs@.len() implies #[trigger] coeffs@[i]@ == all[i] by {
            if i < pre.1.len() {
                assert(coeffs@[i]@ == pre.1[i]);
            }
        }
    }
    G2Precomp { q: *q, coeffs }
}

/// `f` times the lines at index `idx` of all the pairs, in order.
fn mul_lines_at(f: Fq12, g2s: &Vec<G2Precomp>, g1s: &Vec<AffineG1>, idx: usize) -> (r: Fq12)
    requires
        g2s.len() == g1s.len(),
        forall|j: int| 0 <= j < g2s.len() ==> (#[trigger] g2s@[j]).wf(),
        idx < prefix_len(65) + 2,
    ensures
        r@ == mul_lines(
            f@,
            precomp_points(g2s@),
            affine_points(g1s@),
            idx as int,
            g1s.len() as nat,
        ),
{
    let ghost qs = precomp_points(g2s@);
    let ghost ps = affine_points(g1s@);
    let mut acc = f;
    let mut j: usize = 0;
    while j < g2s.len()
        invariant
            j <= g2s.len(),
            g2s.len() == g1s.len(),
            forall|j: int| 0 <= j < g2s.len() ==> (#[trigger] g2s@[j]).wf(),
            idx < prefix_len(65) + 2,
            qs == precomp_points(g2s@),
            ps == affine_points(g1s@),
            acc@ == mul_lines(f@, qs, ps, idx as int, j as nat),
        decreases g2s.len() - j,
    {
        let pre = &g2s[j];
        proof {
            assert(pre.wf());
            lemma_precompute_len(pre.q@);
        }
        let c = pre.coeffs[idx];
        let g1 = &g1s[j];
        proof {
            assert(c@ == g2_precompute(qs[j as int])[idx as int]);
            assert(g1@ == ps[j as int]);
        }
        acc = acc.mul_by_024(c.ell_0, c.ell_vw.scale(&g1.y()), c.ell_vv.scale(&g1.x()));
        j = j + 1;
    }
    acc
}

/// The Miller loop over the pairs `(g2s[j], g1s[j])`.
fn miller_loop_batch_inner(g2s: &Vec<G2Precomp>, g1s: &Vec<AffineG1>) -> (r: Fq12)
    requires
        g2s.len() == g1s.len(),
        forall|j: int| 0 <= j < g2s.len() ==> (#[trigger] g2s@[j]).wf(),
    ensures
        r@ == miller_loop_value(precomp_points(g2s@), affine_points(g1s@)),
{
    let ghost qs = precomp_points(g2s@);
    let ghost ps = affine_points(g1s@);
    let mut f = Fq12::one();
    let mut idx: usize = 0;
    let mut k: usize = 0;
    proof {
        lemma_prefix_len_mono(0, 65);
        lemma_prefix_len_bound(65);
    }
    while k < 65
        invariant
            k <= 65,
            g2s.len() == g1s.len(),
            forall|j: int| 0 <= j < g2s.len() ==> (#[trigger] g2s@[j]).wf(),
            qs == precomp_points(g2s@),
            ps == affine_points(g1s@),
            idx == prefix_len(k as nat),
            prefix_len(k as nat) <= prefix_len(65),
            prefix_len(65) <= 130,
            f@ == miller_prefix(qs, ps, k as nat),
        decreases 65 - k,
    {
        proof {
            lemma_prefix_len_mono((k + 1) as nat, 65);
        }
        f = f.mul_fq12(&f);
        f = mul_lines_at(f, g2s, g1s, idx);
        idx = idx + 1;
        let d = ate_loop_count_naf(64 - k);
        if d != 0 {
            f = mul_lines_at(f, g2s, g1s, idx);
            idx = idx + 1;
        }
        proof {
            assert(naf_step(k as nat) == d as int);
        }
        k = k + 1;
    }
    f = mul_lines_at(f, g2s, g1s, idx);
    idx = idx + 1;
    proof {
        reveal(miller_loop_value);
    }
    mul_lines_at(f, g2s, g1s, idx)
}

/// An element of the target group of the pairing, in `Fq12`.
#[derive(Copy, Clone, Debug, PartialEq, Eq)]
pub struct Gt(Fq12);

impl View for Gt {
    type V = Fq12V;

    closed spec fn view(&self) -> Fq12V {
        self.0@
    }
}

impl Gt {
    /// The coefficients are reduced.
    pub proof fn lemma_view_bound(x: Gt)
        ensures
            fq6_reduced(x@.0),
            fq6_reduced(x@.1),
    {
        Fq12::lemma_view_bound(x.0);
    }

    /// The element with the given value.
    pub closed spec fn from_value(v: Fq12V) -> Gt {
        Gt(Fq12::from_value(v))
    }

    pub fn one() -> (r: Gt)
        ensures
            r@ == fq12_one(),
    {
        Gt(Fq12::one())
    }

    /// `self` raised to the value of `exp`.
    pub fn pow(&self, exp: Fr) -> (r: Gt)
        ensures
            r@ == fq12_pow(self@, exp@),
    {
        Gt(self.0.pow(exp.into_u256()))
    }

    /// The multiplicative inverse; `None` where there is none.
    pub fn inverse(&self) -> (r: Option<Gt>)
        ensures
            r is Some <==> fq12_inv(self@) is Some,
            r matches Some(x) ==> fq12_inv(self@) == Some(x@),
    {
        match self.0.inverse() {
            Some(x) => Some(Gt(x)),
            None => None,
        }
    }

    /// The final exponentiation `self^((q^12 - 1) / r)`; `None` where `self` has no inverse.
    pub fn final_exponentiation(&self) -> (r: Option<Gt>)
        ensures
            r is Some <==> fq12_final_exp(self@) is Some,
            r matches Some(x) ==> fq12_final_exp(self@) == Some(x@),
    {
        match self.0.final_exponentiation() {
            Some(x) => Some(Gt(x)),
            None => None,
        }
    }
}

impl core::ops::Mul<Gt> for Gt {
    type Output = Gt;

    fn mul(self, other: Gt) -> (r: Gt)
        ensures
            r@ == fq12_mul(self@, other@),
    {
        Gt(self.0.mul_fq12(&other.0))
    }
}

impl vstd::std_specs::ops::MulSpecImpl<Gt> for Gt {
    open spec fn obeys_mul_spec() -> bool {
        false
    }

    open spec fn mul_req(self, rhs: Gt) -> bool {
        true
    }

    open spec fn mul_spec(self, rhs: Gt) -> Gt {
        Gt::from_value(fq12_mul(self@, rhs@))
    }
}

/// The pairing `e(p, q)`: one where either point is at infinity.
pub fn pairing(p: G1, q: G2) -> (r: Gt)
    requires
        pairing_spec(p@, q@) is Some,
    ensures
        pairing_spec(p@, q@) == Some(r@),
{
    pairing_checked(p, q).expect("miller loop cannot produce zero")
}

/// The pairing `e(p, q)`: one where either point is at infinity, and `None` where the Miller
/// loop has no inverse, so that the final exponentiation has no value.
pub fn pairing_checked(p: G1, q: G2) -> (r: Option<Gt>)
    ensures
        r is Some <==> pairing_spec(p@, q@) is Some,
        r matches Some(g) ==> pairing_spec(p@, q@) == Some(g@),
{
    let pa = match p.to_affine() {
        Some(a) => a,
        None => {
            return Some(Gt::one());
        },
    };
    let qa = match q.to_affine() {
        Some(a) => a,
        None => {
            return Some(Gt::one());
        },
    };
    let mut g2s: Vec<G2Precomp> = Vec::new();
    g2s.push(precompute(&qa));
    let mut g1s: Vec<AffineG1> = Vec::new();
    g1s.push(pa);
    let f = miller_loop_batch_inner(&g2s, &g1s);
    proof {
        assert(precomp_points(g2s@) =~= seq![qa@]);
        assert(affine_points(g1s@) =~= seq![pa@]);
    }
    match f.final_exponentiation() {
        Some(x) => Some(Gt(x)),
        None => None,
    }
}

/// The product of the pairings of the pairs, computed with one Miller loop and one final
/// exponentiation; pairs with a point at infinity contribute one.
pub fn pairing_batch(pairs: &[(G1, G2)]) -> (r: Gt)
    requires
        pairing_batch_spec(g1g2_views(pairs@)) is Some,
    ensures
        pairing_batch_spec(g1g2_views(pairs@)) == Some(r@),
{
    pairing_batch_checked(pairs).expect("miller loop cannot produce zero")
}

/// The product of the pairings of the pairs, as `pairing_batch` computes it, and `None` where the
/// Miller loop has no inverse, so that the final exponentiation has no value.
pub fn pairing_batch_checked(pairs: &[(G1, G2)]) -> (r: Option<Gt>)
    ensures
        r is Some <==> pairing_batch_spec(g1g2_views(pairs@)) is Some,
        r matches Some(g) ==> pairing_batch_spec(g1g2_views(pairs@)) == Some(g@),
{
    let ghost views = g1g2_views(pairs@);
    let mut g1s: Vec<AffineG1> = Vec::new();
    let mut g2s: Vec<G2Precomp> = Vec::new();
    let mut j: usize = 0;
    while j < pairs.len()
        invariant
            j <= pairs.len(),
            views == g1g2_views(pairs@),
            g2s.len() == g1s.len(),
            forall|i: int| 0 <= i < g2s.len() ==> (#[trigger] g2s@[i]).wf(),
            batch_affine(views.subrange(0, j as int)) == (
                precomp_points(g2s@),
                affine_points(g1s@),
            ),
        decreases pairs.len() - j,
    {
        let pair = pairs[j];
        let ghost before = views.subrange(0, j as int);
        proof {
            assert(views.subrange(0, j as int + 1).drop_last() =~= before);
            assert(views[j as int] == (pair.0@, pair.1@));
            assert(views.subrange(0, j as int + 1).last() == views[j as int]);
        }
        match pair.0.to_affine() {
            Some(pa) => {
                match pair.1.to_affine() {
                    Some(qa) => {
                        g1s.push(pa);
                        g2s.push(precompute(&qa));
                        proof {
                            assert(precomp_points(g2s@) =~= batch_affine(before).0.push(qa@));
                            assert(affine_points(g1s@) =~= batch_affine(before).1.push(pa@));
                        }
                    },
                    None => {},
                }
            },
            None => {},
        }
        j = j + 1;
    }
    proof {
        assert(views.subrange(0, pairs@.len() as int) =~= views);
    }
    if g2s.len() == 0 {
        return Some(Gt::one());
    }
    let f = miller_loop_batch_inner(&g2s, &g1s);
    match f.final_exponentiation() {
        Some(x) => Some(Gt(x)),
        None => None,
    }
}

/// The Miller loop over the pairs `(q, p)`, without the final exponentiation: an error where a
/// point has no affine form (at infinity, or with a `z` that has no inverse).
pub fn miller_loop_batch(pairs: &[(G2, G1)]) -> (r: Result<Gt, CurveError>)
    ensures
        r is Err <==> some_without_affine(g2g1_views(pairs@)),
        r matches Err(e) ==> e == CurveError::ToAffineConversion,
        r matches Ok(g) ==> g@ == miller_loop_value(
            g2_affines(g2g1_views(pairs@)),
            g1_affines(g2g1_views(pairs@)),
        ),
{
    let ghost views = g2g1_views(pairs@);
    let mut g2s: Vec<G2Precomp> = Vec::new();
    let mut g1s: Vec<AffineG1> = Vec::new();
    let mut j: usize = 0;
    while j < pairs.len()
        invariant
            j <= pairs.len(),
            views == g2g1_views(pairs@),
            g2s.len() == j,
            g1s.len() == j,
            forall|i: int| 0 <= i < g2s.len() ==> (#[trigger] g2s@[i]).wf(),
            forall|i: int|
                0 <= i < j ==> !(g2_to_affine((#[trigger] views[i]).0) is None || g1_to_affine(
                    views[i].1,
                ) is None),
            precomp_points(g2s@) == g2_affines(views).subrange(0, j as int),
            affine_points(g1s@) == g1_affines(views).subrange(0, j as int),
        decreases pairs.len() - j,
    {
        let pair = pairs[j];
        proof {
            assert(views[j as int] == (pair.0@, pair.1@));
        }
        let qa = match pair.0.to_affine() {
            Some(a) => a,
            None => {
                return Err(CurveError::ToAffineConversion);
            },
        };
        let pa = match pair.1.to_affine() {
            Some(a) => a,
            None => {
                return Err(CurveError::ToAffineConversion);
            },
        };
        g2s.push(precompute(&qa));
        g1s.push(pa);
        proof {
            assert(precomp_points(g2s@) =~= g2_affines(views).subrange(0, j as int + 1));
            assert(affine_points(g1s@) =~= g1_affines(views).subrange(0, j as int + 1));
        }
        j = j + 1;
    }
    proof {
        assert(g2_affines(views).subrange(0, pairs@.len() as int) =~= g2_affines(views));
        assert(g1_affines(views).subrange(0, pairs@.len() as int) =~= g1_affines(views));
    }
    Ok(Gt(miller_loop_batch_inner(&g2s, &g1s)))
}

} // verus!
