//! The addition formula of `G2` over the integers: its reduced coordinates are congruent modulo
//! `q` to exact expressions over pairs of integers, and swapping the summands negates `y` and
//! `z` of the exact result and keeps `x`.
use vstd::prelude::*;
use vstd::arithmetic::div_mod::*;
use crate::fp::{fq_modulus, lemma_moduli};
use crate::fq2::{fq2_add, fq2_inv, fq2_mul, fq2_norm, fq2_sub};
use crate::modular::has_inverse;
use crate::g2::{g2_add, g2_double, g2_eq, g2_is_zero, JacFq2};
use crate::tower_algebra::{
    cadd, cmul, cneg, cong, csub, iv, lemma_cadd_cong, lemma_cmul_cong, lemma_cneg_l,
    lemma_cneg_r, lemma_csub_cong, lemma_cmul_assoc, lemma_cmul_comm, lemma_cdist_r, lemma_csub_l, lemma_csub_r, lemma_cdist_l, lemma_fq2_add_cong, lemma_fq2_inv,
    lemma_cneg_cong, lemma_fq2_mul_bound, lemma_fq2_mul_cong, lemma_fq2_sub_cong, lemma_reduced_eq,
    lemma_reduced_zero, C2,
};

verus! {

pub(crate) proof fn lemma_c_mul(a: (nat, nat), b: (nat, nat), ea: C2, eb: C2)
    requires
        cong(iv(a), ea),
        cong(iv(b), eb),
    ensures
        cong(iv(fq2_mul(a, b)), cmul(ea, eb)),
{
    lemma_fq2_mul_cong(a, b);
    lemma_cmul_cong(iv(a), ea, iv(b), eb);
}

pub(crate) proof fn lemma_c_add(a: (nat, nat), b: (nat, nat), ea: C2, eb: C2)
    requires
        cong(iv(a), ea),
        cong(iv(b), eb),
    ensures
        cong(iv(fq2_add(a, b)), cadd(ea, eb)),
{
    lemma_fq2_add_cong(a, b);
    lemma_cadd_cong(iv(a), ea, iv(b), eb);
}

pub(crate) proof fn lemma_c_sub(a: (nat, nat), b: (nat, nat), ea: C2, eb: C2)
    requires
        cong(iv(a), ea),
        cong(iv(b), eb),
    ensures
        cong(iv(fq2_sub(a, b)), csub(ea, eb)),
{
    lemma_fq2_sub_cong(a, b);
    lemma_csub_cong(iv(a), ea, iv(b), eb);
}

/// The sum of two points by the addition formula, over pairs of integers, where they differ.
pub(crate) open spec fn g2_add_exact(p: (C2, C2, C2), q: (C2, C2, C2)) -> (C2, C2, C2) {
    let z1s = cmul(p.2, p.2);
    let z2s = cmul(q.2, q.2);
    let u1 = cmul(p.0, z2s);
    let u2 = cmul(q.0, z1s);
    let s1 = cmul(p.1, cmul(q.2, z2s));
    let s2 = cmul(q.1, cmul(p.2, z1s));
    let h = csub(u2, u1);
    let sd = csub(s2, s1);
    let hh = cadd(h, h);
    let i = cmul(hh, hh);
    let j = cmul(h, i);
    let r = cadd(sd, sd);
    let v = cmul(u1, i);
    let x3 = csub(csub(cmul(r, r), j), cadd(v, v));
    let y3 = csub(cmul(r, csub(v, x3)), cadd(cmul(s1, j), cmul(s1, j)));
    let zz = cadd(p.2, q.2);
    let z3 = cmul(csub(csub(cmul(zz, zz), z1s), z2s), h);
    (x3, y3, z3)
}

pub(crate) open spec fn jint2(p: JacFq2) -> (C2, C2, C2) {
    (iv(p.0), iv(p.1), iv(p.2))
}

/// Whether the addition formula takes its doubling branch on `p` and `q`.
pub(crate) open spec fn g2_doubling_case(p: JacFq2, q: JacFq2) -> bool {
    let z1s = fq2_mul(p.2, p.2);
    let z2s = fq2_mul(q.2, q.2);
    fq2_mul(p.0, z2s) == fq2_mul(q.0, z1s) && fq2_mul(p.1, fq2_mul(q.2, z2s)) == fq2_mul(
        q.1,
        fq2_mul(p.2, z1s),
    )
}

/// Away from infinity and from the doubling branch, the reduced sum is congruent to the exact one.
proof fn lemma_g2_add_cong(p: JacFq2, q: JacFq2)
    requires
        !g2_is_zero(p),
        !g2_is_zero(q),
        !g2_doubling_case(p, q),
    ensures
        cong(iv(g2_add(p, q).0), g2_add_exact(jint2(p), jint2(q)).0),
        cong(iv(g2_add(p, q).1), g2_add_exact(jint2(p), jint2(q)).1),
        cong(iv(g2_add(p, q).2), g2_add_exact(jint2(p), jint2(q)).2),
{
    let (x1, y1, z1) = jint2(p);
    let (x2, y2, z2) = jint2(q);
    let z1s = fq2_mul(p.2, p.2);
    let z2s = fq2_mul(q.2, q.2);
    let u1 = fq2_mul(p.0, z2s);
    let u2 = fq2_mul(q.0, z1s);
    let z1c = fq2_mul(p.2, z1s);
    let z2c = fq2_mul(q.2, z2s);
    let s1 = fq2_mul(p.1, z2c);
    let s2 = fq2_mul(q.1, z1c);
    let h = fq2_sub(u2, u1);
    let sd = fq2_sub(s2, s1);
    let hh = fq2_add(h, h);
    let i = fq2_mul(hh, hh);
    let j = fq2_mul(h, i);
    let r = fq2_add(sd, sd);
    let v = fq2_mul(u1, i);
    let s1j = fq2_mul(s1, j);
    let rr = fq2_mul(r, r);
    let vv = fq2_add(v, v);
    let x3 = fq2_sub(fq2_sub(rr, j), vv);
    let vx = fq2_sub(v, x3);
    let rvx = fq2_mul(r, vx);
    let s1j2 = fq2_add(s1j, s1j);
    let zz = fq2_add(p.2, q.2);
    let zzs = fq2_mul(zz, zz);
    let zd = fq2_sub(fq2_sub(zzs, z1s), z2s);
    let ez1s = cmul(z1, z1);
    let ez2s = cmul(z2, z2);
    let eu1 = cmul(x1, ez2s);
    let eu2 = cmul(x2, ez1s);
    let es1 = cmul(y1, cmul(z2, ez2s));
    let es2 = cmul(y2, cmul(z1, ez1s));
    let eh = csub(eu2, eu1);
    let esd = csub(es2, es1);
    let ehh = cadd(eh, eh);
    let ei = cmul(ehh, ehh);
    let ej = cmul(eh, ei);
    let er = cadd(esd, esd);
    let ev = cmul(eu1, ei);
    let ex3 = csub(csub(cmul(er, er), ej), cadd(ev, ev));
    let ezz = cadd(z1, z2);
    lemma_moduli();
    assert(cong(x1, x1) && cong(y1, y1) && cong(z1, z1) && cong(x2, x2) && cong(y2, y2) && cong(
        z2,
        z2,
    ));
    lemma_c_mul(p.2, p.2, z1, z1);
    lemma_c_mul(q.2, q.2, z2, z2);
    lemma_c_mul(p.0, z2s, x1, ez2s);
    lemma_c_mul(q.0, z1s, x2, ez1s);
    lemma_c_mul(p.2, z1s, z1, ez1s);
    lemma_c_mul(q.2, z2s, z2, ez2s);
    lemma_c_mul(p.1, z2c, y1, cmul(z2, ez2s));
    lemma_c_mul(q.1, z1c, y2, cmul(z1, ez1s));
    lemma_c_sub(u2, u1, eu2, eu1);
    lemma_c_sub(s2, s1, es2, es1);
    lemma_c_add(h, h, eh, eh);
    lemma_c_mul(hh, hh, ehh, ehh);
    lemma_c_mul(h, i, eh, ei);
    lemma_c_add(sd, sd, esd, esd);
    lemma_c_mul(u1, i, eu1, ei);
    lemma_c_mul(s1, j, es1, ej);
    lemma_c_mul(r, r, er, er);
    lemma_c_add(v, v, ev, ev);
    lemma_c_sub(rr, j, cmul(er, er), ej);
    lemma_c_sub(fq2_sub(rr, j), vv, csub(cmul(er, er), ej), cadd(ev, ev));
    lemma_c_sub(v, x3, ev, ex3);
    lemma_c_mul(r, vx, er, csub(ev, ex3));
    lemma_c_add(s1j, s1j, cmul(es1, ej), cmul(es1, ej));
    lemma_c_sub(rvx, s1j2, cmul(er, csub(ev, ex3)), cadd(cmul(es1, ej), cmul(es1, ej)));
    lemma_c_add(p.2, q.2, z1, z2);
    lemma_c_mul(zz, zz, ezz, ezz);
    lemma_c_sub(zzs, z1s, cmul(ezz, ezz), ez1s);
    lemma_c_sub(fq2_sub(zzs, z1s), z2s, csub(cmul(ezz, ezz), ez1s), ez2s);
    lemma_c_mul(zd, h, csub(csub(cmul(ezz, ezz), ez1s), ez2s), eh);
}

/// Swapping the summands keeps `x` of the exact sum and negates `y` and `z`.
proof fn lemma_g2_add_exact_swap(p: (C2, C2, C2), q: (C2, C2, C2))
    ensures
        g2_add_exact(q, p).0 == g2_add_exact(p, q).0,
        g2_add_exact(q, p).1 == cneg(g2_add_exact(p, q).1),
        g2_add_exact(q, p).2 == cneg(g2_add_exact(p, q).2),
{
    let z1s = cmul(p.2, p.2);
    let z2s = cmul(q.2, q.2);
    let u1 = cmul(p.0, z2s);
    let u2 = cmul(q.0, z1s);
    let s1 = cmul(p.1, cmul(q.2, z2s));
    let s2 = cmul(q.1, cmul(p.2, z1s));
    let h = csub(u2, u1);
    let sd = csub(s2, s1);
    let hh = cadd(h, h);
    let i = cmul(hh, hh);
    let j = cmul(h, i);
    let r = cadd(sd, sd);
    let v = cmul(u1, i);
    let x3 = csub(csub(cmul(r, r), j), cadd(v, v));
    let hn = csub(u1, u2);
    let sdn = csub(s1, s2);
    let hhn = cadd(hn, hn);
    let rn = cadd(sdn, sdn);
    let vn = cmul(u2, i);
    assert(hn == cneg(h));
    assert(hhn == cneg(hh));
    assert(rn == cneg(r));
    // (-a)(-a) = a a
    lemma_cneg_l(hh, cneg(hh));
    lemma_cneg_r(hh, hh);
    assert(cmul(hhn, hhn) == i);
    lemma_cneg_l(r, cneg(r));
    lemma_cneg_r(r, r);
    assert(cmul(rn, rn) == cmul(r, r));
    // j' = -j and j = u2 i - u1 i
    lemma_cneg_l(h, i);
    lemma_csub_l(u2, u1, i);
    assert(j == csub(vn, v));
    let x3n = csub(csub(cmul(rn, rn), cmul(hn, i)), cadd(vn, vn));
    assert(x3n == x3);
    // y
    let jn = cmul(hn, i);
    lemma_cneg_l(r, csub(vn, x3));
    lemma_csub_r(r, vn, x3);
    lemma_csub_r(r, v, x3);
    lemma_cneg_r(s2, j);
    lemma_csub_r(r, v, vn);
    assert(csub(v, vn) == cneg(j));
    lemma_cneg_r(r, j);
    lemma_csub_l(s2, s1, j);
    lemma_cdist_l(sd, sd, j);
    let y3 = csub(cmul(r, csub(v, x3)), cadd(cmul(s1, j), cmul(s1, j)));
    let y3n = csub(cmul(rn, csub(vn, x3)), cadd(cmul(s2, jn), cmul(s2, jn)));
    assert(y3n == cneg(y3));
    // z
    let zz = cadd(p.2, q.2);
    let a = csub(csub(cmul(zz, zz), z1s), z2s);
    assert(cadd(q.2, p.2) == zz);
    assert(csub(csub(cmul(zz, zz), z2s), z1s) == a);
    lemma_cneg_r(a, h);
}

/// The coordinates that the formula gives are reduced.
proof fn lemma_g2_add_reduced(p: JacFq2, q: JacFq2)
    requires
        !g2_is_zero(p),
        !g2_is_zero(q),
        !g2_doubling_case(p, q),
    ensures
        g2_reduced(g2_add(p, q)),
{
    lemma_moduli();
    lemma_fq2_mul_bound();
    let m = fq_modulus() as int;
    assert forall|a: int| #[trigger] (a % m) < m by {
        lemma_mod_bound(a, m);
    }
}

/// Whether every coordinate is reduced.
pub(crate) open spec fn g2_reduced(p: JacFq2) -> bool {
    &&& p.0.0 < fq_modulus() && p.0.1 < fq_modulus()
    &&& p.1.0 < fq_modulus() && p.1.1 < fq_modulus()
    &&& p.2.0 < fq_modulus() && p.2.1 < fq_modulus()
}

/// A point and the one with the same `x` and with `y` and `z` negated are the same point.
proof fn lemma_g2_eq_negated(a: JacFq2, b: JacFq2)
    requires
        g2_reduced(a),
        g2_reduced(b),
        a.0 == b.0,
        cong(iv(b.1), cneg(iv(a.1))),
        cong(iv(b.2), cneg(iv(a.2))),
    ensures
        g2_eq(a, b),
{
    lemma_moduli();
    lemma_fq2_mul_bound();
    let z = (0nat, 0nat);
    lemma_cneg_cong(iv(b.2), cneg(iv(a.2)));
    assert(cneg(cneg(iv(a.2))) == iv(a.2));
    if a.2 == z {
        assert(cneg(iv(z)) == (0int, 0int));
        lemma_reduced_zero(b.2);
    } else if b.2 == z {
        assert(cneg(iv(z)) == (0int, 0int));
        lemma_reduced_zero(a.2);
    } else {
        let (az, ay) = (iv(a.2), iv(a.1));
        let bz2 = fq2_mul(b.2, b.2);
        let az2 = fq2_mul(a.2, a.2);
        assert(cong(az, az) && cong(ay, ay) && cong(iv(a.0), iv(a.0)));
        lemma_c_mul(b.2, b.2, cneg(az), cneg(az));
        lemma_c_mul(a.2, a.2, az, az);
        lemma_cneg_l(az, cneg(az));
        lemma_cneg_r(az, az);
        assert(cneg(cneg(cmul(az, az))) == cmul(az, az));
        lemma_reduced_eq(bz2, az2);
        // y z^3 agrees
        assert(cong(iv(az2), iv(az2)));
        lemma_c_mul(b.2, bz2, cneg(az), iv(az2));
        lemma_c_mul(a.2, az2, az, iv(az2));
        lemma_c_mul(a.1, fq2_mul(b.2, bz2), ay, cmul(cneg(az), iv(az2)));
        lemma_c_mul(b.1, fq2_mul(a.2, az2), cneg(ay), cmul(az, iv(az2)));
        lemma_cneg_l(az, iv(az2));
        lemma_cneg_r(ay, cmul(az, iv(az2)));
        lemma_cneg_l(ay, cmul(az, iv(az2)));
        lemma_reduced_eq(fq2_mul(a.1, fq2_mul(b.2, bz2)), fq2_mul(b.1, fq2_mul(a.2, az2)));
    }
}

/// Addition on `G2` is commutative away from its doubling branch: `p + q` and `q + p` are the
/// same point, the one with `y` and `z` negated.
pub(crate) proof fn lemma_g2_add_comm_distinct(p: JacFq2, q: JacFq2)
    requires
        g2_reduced(p),
        g2_reduced(q),
        !g2_is_zero(p) && !g2_is_zero(q) ==> !g2_doubling_case(p, q),
    ensures
        g2_eq(g2_add(p, q), g2_add(q, p)),
{
    lemma_moduli();
    if g2_is_zero(p) || g2_is_zero(q) {
        return;
    }
    assert(!g2_doubling_case(q, p));
    lemma_g2_add_cong(p, q);
    lemma_g2_add_cong(q, p);
    lemma_g2_add_exact_swap(jint2(p), jint2(q));
    let a = g2_add(p, q);
    let b = g2_add(q, p);
    let e = g2_add_exact(jint2(p), jint2(q));
    lemma_g2_add_reduced(p, q);
    lemma_g2_add_reduced(q, p);
    lemma_reduced_eq(a.0, b.0);
    lemma_cneg_cong(iv(a.1), e.1);
    lemma_cneg_cong(iv(a.2), e.2);
    lemma_g2_eq_negated(a, b);
}

/// `(a b)(c d) = (a c)(b d)`
pub(crate) proof fn lemma_cmul4(a: C2, b: C2, c: C2, d: C2)
    ensures
        cmul(cmul(a, b), cmul(c, d)) == cmul(cmul(a, c), cmul(b, d)),
{
    lemma_cmul_assoc(a, b, cmul(c, d));
    lemma_cmul_assoc(b, c, d);
    lemma_cmul_comm(b, c);
    lemma_cmul_assoc(c, b, d);
    lemma_cmul_assoc(a, c, cmul(b, d));
}

/// `(u + v)^2 - u^2 - v^2 = u v + u v`
pub(crate) proof fn lemma_square_cross(u: C2, v: C2)
    ensures
        csub(csub(cmul(cadd(u, v), cadd(u, v)), cmul(u, u)), cmul(v, v)) == cadd(
            cmul(u, v),
            cmul(u, v),
        ),
{
    lemma_cdist_l(u, v, cadd(u, v));
    lemma_cdist_r(u, u, v);
    lemma_cdist_r(v, u, v);
    lemma_cmul_comm(v, u);
}

/// The doubling formula over pairs of integers.
pub(crate) open spec fn g2_double_exact(p: (C2, C2, C2)) -> (C2, C2, C2) {
    let a = cmul(p.0, p.0);
    let b = cmul(p.1, p.1);
    let c = cmul(b, b);
    let xb = cadd(p.0, b);
    let d0 = csub(csub(cmul(xb, xb), a), c);
    let d = cadd(d0, d0);
    let e = cadd(cadd(a, a), a);
    let f = cmul(e, e);
    let x3 = csub(f, cadd(d, d));
    let c2 = cadd(c, c);
    let c4 = cadd(c2, c2);
    let c8 = cadd(c4, c4);
    let yz = cmul(p.1, p.2);
    (x3, csub(cmul(e, csub(d, x3)), c8), cadd(yz, yz))
}

/// Scaling the coordinates by `l^2, l^3, l` scales the exact double by `l^8, l^12, l^4`.
proof fn lemma_g2_double_exact_scale(p: (C2, C2, C2), l: C2)
    ensures
        ({
            let l2 = cmul(l, l);
            let l4 = cmul(l2, l2);
            let l8 = cmul(l4, l4);
            let s = g2_double_exact((cmul(p.0, l2), cmul(p.1, cmul(l2, l)), cmul(p.2, l)));
            let d = g2_double_exact(p);
            s.0 == cmul(d.0, l8) && s.1 == cmul(d.1, cmul(l8, l4)) && s.2 == cmul(d.2, l4)
        }),
{
    let l2 = cmul(l, l);
    let l3 = cmul(l2, l);
    let l4 = cmul(l2, l2);
    let l6 = cmul(l4, l2);
    let l8 = cmul(l4, l4);
    let l12 = cmul(l8, l4);
    let (x, y, z) = p;
    let (sx, sy, sz) = (cmul(x, l2), cmul(y, l3), cmul(z, l));
    let a = cmul(x, x);
    let b = cmul(y, y);
    let c = cmul(b, b);
    let sa = cmul(sx, sx);
    let sb = cmul(sy, sy);
    let sc = cmul(sb, sb);
    // powers of `l`
    lemma_cmul4(l2, l, l2, l);
    assert(cmul(l3, l3) == l6);
    lemma_cmul4(l4, l2, l4, l2);
    lemma_cmul4(l4, l4, l2, l2);
    lemma_cmul_comm(l4, l2);
    lemma_cmul_assoc(l2, l2, l4);
    lemma_cmul_comm(l2, l4);
    assert(cmul(l2, l6) == l8);
    assert(cmul(l6, l6) == l12);
    lemma_cmul_assoc(l2, l, l);
    assert(cmul(l3, l) == l4);
    // the scaled intermediate values
    lemma_cmul4(x, l2, x, l2);
    assert(sa == cmul(a, l4));
    lemma_cmul4(y, l3, y, l3);
    assert(sb == cmul(b, l6));
    lemma_cmul4(b, l6, b, l6);
    assert(sc == cmul(c, l12));
    lemma_square_cross(x, b);
    lemma_square_cross(sx, sb);
    lemma_cmul4(x, l2, b, l6);
    assert(cmul(sx, sb) == cmul(cmul(x, b), l8));
    let xb = cmul(x, b);
    lemma_cdist_l(xb, xb, l8);
    let d0 = cadd(xb, xb);
    let d = cadd(d0, d0);
    lemma_cdist_l(d0, d0, l8);
    let sd = cadd(cmul(d0, l8), cmul(d0, l8));
    assert(sd == cmul(d, l8));
    let e = cadd(cadd(a, a), a);
    lemma_cdist_l(a, a, l4);
    lemma_cdist_l(cadd(a, a), a, l4);
    let se = cadd(cadd(sa, sa), sa);
    assert(se == cmul(e, l4));
    let f = cmul(e, e);
    lemma_cmul4(e, l4, e, l4);
    assert(cmul(se, se) == cmul(f, l8));
    lemma_cdist_l(d, d, l8);
    lemma_csub_l(f, cadd(d, d), l8);
    let x3 = csub(f, cadd(d, d));
    let sx3 = csub(cmul(se, se), cadd(sd, sd));
    assert(sx3 == cmul(x3, l8));
    lemma_csub_l(d, x3, l8);
    assert(csub(sd, sx3) == cmul(csub(d, x3), l8));
    lemma_cmul4(e, l4, csub(d, x3), l8);
    lemma_cmul_comm(l4, l8);
    assert(cmul(se, csub(sd, sx3)) == cmul(cmul(e, csub(d, x3)), l12));
    let c2 = cadd(c, c);
    let c4 = cadd(c2, c2);
    let c8 = cadd(c4, c4);
    lemma_cdist_l(c, c, l12);
    lemma_cdist_l(c2, c2, l12);
    lemma_cdist_l(c4, c4, l12);
    let sc8 = cadd(cadd(cadd(sc, sc), cadd(sc, sc)), cadd(cadd(sc, sc), cadd(sc, sc)));
    assert(sc8 == cmul(c8, l12));
    lemma_csub_l(cmul(e, csub(d, x3)), c8, l12);
    lemma_cmul4(y, l3, z, l);
    let yz = cmul(y, z);
    assert(cmul(sy, sz) == cmul(yz, l4));
    lemma_cdist_l(yz, yz, l4);
}

/// The reduced double is congruent to the exact double of any congruent coordinates.
proof fn lemma_g2_double_cong(p: JacFq2, ep: (C2, C2, C2))
    requires
        cong(iv(p.0), ep.0),
        cong(iv(p.1), ep.1),
        cong(iv(p.2), ep.2),
    ensures
        cong(iv(g2_double(p).0), g2_double_exact(ep).0),
        cong(iv(g2_double(p).1), g2_double_exact(ep).1),
        cong(iv(g2_double(p).2), g2_double_exact(ep).2),
{
    let (x, y, z) = ep;
    let a = fq2_mul(p.0, p.0);
    let b = fq2_mul(p.1, p.1);
    let c = fq2_mul(b, b);
    let xb = fq2_add(p.0, b);
    let xbs = fq2_mul(xb, xb);
    let d0 = fq2_sub(fq2_sub(xbs, a), c);
    let d = fq2_add(d0, d0);
    let e = fq2_add(fq2_add(a, a), a);
    let f = fq2_mul(e, e);
    let dd = fq2_add(d, d);
    let x3 = fq2_sub(f, dd);
    let c2 = fq2_add(c, c);
    let c4 = fq2_add(c2, c2);
    let c8 = fq2_add(c4, c4);
    let yz = fq2_mul(p.1, p.2);
    let dx = fq2_sub(d, x3);
    let edx = fq2_mul(e, dx);
    let ea = cmul(x, x);
    let eb = cmul(y, y);
    let ec = cmul(eb, eb);
    let exb = cadd(x, eb);
    let ed0 = csub(csub(cmul(exb, exb), ea), ec);
    let ed = cadd(ed0, ed0);
    let ee = cadd(cadd(ea, ea), ea);
    let ef = cmul(ee, ee);
    let ex3 = csub(ef, cadd(ed, ed));
    let ec2 = cadd(ec, ec);
    let ec4 = cadd(ec2, ec2);
    lemma_c_mul(p.0, p.0, x, x);
    lemma_c_mul(p.1, p.1, y, y);
    lemma_c_mul(b, b, eb, eb);
    lemma_c_add(p.0, b, x, eb);
    lemma_c_mul(xb, xb, exb, exb);
    lemma_c_sub(xbs, a, cmul(exb, exb), ea);
    lemma_c_sub(fq2_sub(xbs, a), c, csub(cmul(exb, exb), ea), ec);
    lemma_c_add(d0, d0, ed0, ed0);
    lemma_c_add(a, a, ea, ea);
    lemma_c_add(fq2_add(a, a), a, cadd(ea, ea), ea);
    lemma_c_mul(e, e, ee, ee);
    lemma_c_add(d, d, ed, ed);
    lemma_c_sub(f, dd, ef, cadd(ed, ed));
    lemma_c_add(c, c, ec, ec);
    lemma_c_add(c2, c2, ec2, ec2);
    lemma_c_add(c4, c4, ec4, ec4);
    lemma_c_sub(d, x3, ed, ex3);
    lemma_c_mul(e, dx, ee, csub(ed, ex3));
    lemma_c_sub(edx, c8, cmul(ee, csub(ed, ex3)), cadd(ec4, ec4));
    lemma_c_mul(p.1, p.2, y, z);
    lemma_c_add(yz, yz, cmul(y, z), cmul(y, z));
}

/// One and zero in products over pairs of integers.
proof fn lemma_cmul_units(a: C2)
    ensures
        cmul(a, (1int, 0int)) == a,
        cmul((1int, 0int), a) == a,
        cmul((0int, 0int), a) == (0int, 0int),
        cmul(a, (0int, 0int)) == (0int, 0int),
{
    reveal(cmul);
}

/// Two points whose coordinates are congruent to `e` and to `e` scaled by `mu^2, mu^3, mu`,
/// with `mu` invertible, are the same point.
proof fn lemma_g2_eq_scaled(a: JacFq2, b: JacFq2, e: (C2, C2, C2), mu: C2, nu: C2)
    requires
        g2_reduced(a),
        g2_reduced(b),
        cong(iv(a.0), e.0),
        cong(iv(a.1), e.1),
        cong(iv(a.2), e.2),
        cong(iv(b.0), cmul(e.0, cmul(mu, mu))),
        cong(iv(b.1), cmul(e.1, cmul(cmul(mu, mu), mu))),
        cong(iv(b.2), cmul(e.2, mu)),
        cong(cmul(mu, nu), (1, 0)),
    ensures
        g2_eq(a, b),
{
    lemma_moduli();
    lemma_fq2_mul_bound();
    let z = (0nat, 0nat);
    let zc = (0int, 0int);
    lemma_cmul_units(mu);
    lemma_cmul_units(nu);
    lemma_cmul_units(e.2);
    if a.2 == z {
        lemma_cmul_cong(e.2, zc, mu, mu);
        lemma_reduced_zero(b.2);
    } else if b.2 == z {
        lemma_cmul_cong(cmul(e.2, mu), zc, nu, nu);
        lemma_cmul_assoc(e.2, mu, nu);
        lemma_cmul_cong(e.2, e.2, cmul(mu, nu), (1, 0));
        lemma_reduced_zero(a.2);
    } else {
        let m2 = cmul(mu, mu);
        let m3 = cmul(m2, mu);
        let bz = cmul(e.2, mu);
        let e22 = cmul(e.2, e.2);
        let bz2 = fq2_mul(b.2, b.2);
        let az2 = fq2_mul(a.2, a.2);
        lemma_c_mul(b.2, b.2, bz, bz);
        lemma_c_mul(a.2, a.2, e.2, e.2);
        lemma_c_mul(a.0, bz2, e.0, cmul(bz, bz));
        lemma_c_mul(b.0, az2, cmul(e.0, m2), e22);
        lemma_cmul4(e.2, mu, e.2, mu);
        lemma_cmul_assoc(e.0, m2, e22);
        lemma_cmul_comm(m2, e22);
        lemma_reduced_eq(fq2_mul(a.0, bz2), fq2_mul(b.0, az2));
        // y z^3
        lemma_c_mul(b.2, bz2, bz, cmul(bz, bz));
        lemma_c_mul(a.2, az2, e.2, e22);
        lemma_c_mul(a.1, fq2_mul(b.2, bz2), e.1, cmul(bz, cmul(bz, bz)));
        lemma_c_mul(b.1, fq2_mul(a.2, az2), cmul(e.1, m3), cmul(e.2, e22));
        lemma_cmul4(e.2, mu, e22, m2);
        lemma_cmul_comm(mu, m2);
        lemma_cmul_assoc(e.1, m3, cmul(e.2, e22));
        lemma_cmul_comm(m3, cmul(e.2, e22));
        lemma_reduced_eq(fq2_mul(a.1, fq2_mul(b.2, bz2)), fq2_mul(b.1, fq2_mul(a.2, az2)));
    }
}

proof fn lemma_g2_double_reduced(p: JacFq2)
    ensures
        g2_reduced(g2_double(p)),
{
    lemma_moduli();
    lemma_fq2_mul_bound();
    let m = fq_modulus() as int;
    assert forall|a: int| #[trigger] (a % m) < m by {
        lemma_mod_bound(a, m);
    }
}

/// In its doubling branch, addition on `G2` is commutative for points whose `z` has an inverse:
/// `p + q` and `q + p` are the doubles of `p` and of `q`, the same point.
pub(crate) proof fn lemma_g2_add_comm_doubling(p: JacFq2, q: JacFq2)
    requires
        g2_reduced(p),
        g2_reduced(q),
        !g2_is_zero(p),
        !g2_is_zero(q),
        g2_doubling_case(p, q),
        has_inverse(fq2_norm(p.2), fq_modulus()),
        has_inverse(fq2_norm(q.2), fq_modulus()),
    ensures
        g2_eq(g2_add(p, q), g2_add(q, p)),
{
    lemma_moduli();
    assert(g2_doubling_case(q, p));
    let (x1, y1, z1) = jint2(p);
    let (x2, y2, z2) = jint2(q);
    lemma_fq2_inv(p.2);
    lemma_fq2_inv(q.2);
    let w1 = iv(fq2_inv(p.2));
    let w2 = iv(fq2_inv(q.2));
    let one = (1int, 0int);
    assert(cong(x1, x1) && cong(y1, y1) && cong(z1, z1) && cong(x2, x2) && cong(y2, y2) && cong(
        z2,
        z2,
    ));
    // the doubling branch: `x1 z2^2 = x2 z1^2` and `y1 z2^3 = y2 z1^3`
    let z1s = fq2_mul(p.2, p.2);
    let z2s = fq2_mul(q.2, q.2);
    let ez1s = cmul(z1, z1);
    let ez2s = cmul(z2, z2);
    let ez1c = cmul(z1, ez1s);
    let ez2c = cmul(z2, ez2s);
    lemma_c_mul(p.2, p.2, z1, z1);
    lemma_c_mul(q.2, q.2, z2, z2);
    lemma_c_mul(p.0, z2s, x1, ez2s);
    lemma_c_mul(q.0, z1s, x2, ez1s);
    lemma_c_mul(q.2, z2s, z2, ez2s);
    lemma_c_mul(p.2, z1s, z1, ez1s);
    lemma_c_mul(p.1, fq2_mul(q.2, z2s), y1, ez2c);
    lemma_c_mul(q.1, fq2_mul(p.2, z1s), y2, ez1c);
    assert(cong(cmul(x1, ez2s), cmul(x2, ez1s)));
    assert(cong(cmul(y1, ez2c), cmul(y2, ez1c)));
    // `q` is `p` scaled by `l = z2 / z1`
    let l = cmul(z2, w1);
    let k = cmul(z1, w2);
    let u = cmul(z1, w1);
    let v = cmul(z2, w2);
    let l2 = cmul(l, l);
    let ww = cmul(w1, w1);
    let www = cmul(w1, ww);
    lemma_cmul_units(one);
    lemma_cmul_units(x2);
    lemma_cmul_units(y2);
    lemma_cmul_units(z2);
    lemma_cmul_cong(u, one, u, one);
    lemma_cmul_cong(u, one, cmul(u, u), one);
    // x
    lemma_cmul_cong(cmul(x1, ez2s), cmul(x2, ez1s), ww, ww);
    lemma_cmul_assoc(x1, ez2s, ww);
    lemma_cmul4(z2, z2, w1, w1);
    lemma_cmul_assoc(x2, ez1s, ww);
    lemma_cmul4(z1, z1, w1, w1);
    lemma_cmul_cong(x2, x2, cmul(u, u), one);
    assert(cong(x2, cmul(x1, l2)));
    // y
    lemma_cmul_cong(cmul(y1, ez2c), cmul(y2, ez1c), www, www);
    lemma_cmul_assoc(y1, ez2c, www);
    lemma_cmul4(z2, ez2s, w1, ww);
    lemma_cmul_comm(l, l2);
    lemma_cmul_assoc(y2, ez1c, www);
    lemma_cmul4(z1, ez1s, w1, ww);
    lemma_cmul_cong(y2, y2, cmul(u, cmul(u, u)), one);
    assert(cong(y2, cmul(y1, cmul(l2, l))));
    // z
    crate::tower_algebra::lemma_perm3(z1, z2, w1);
    lemma_cmul_cong(z2, z2, u, one);
    assert(cong(z2, cmul(z1, l)));
    // `l` is invertible
    lemma_cmul4(z2, w1, z1, w2);
    lemma_cmul4(z1, w1, z2, w2);
    lemma_cmul_comm(z2, z1);
    lemma_cmul_cong(u, one, v, one);
    assert(cong(cmul(l, k), one));
    let k2 = cmul(k, k);
    let l4 = cmul(l2, l2);
    let k4 = cmul(k2, k2);
    lemma_cmul4(l, l, k, k);
    lemma_cmul_cong(cmul(l, k), one, cmul(l, k), one);
    lemma_cmul4(l2, l2, k2, k2);
    lemma_cmul_cong(cmul(l2, k2), one, cmul(l2, k2), one);
    assert(cong(cmul(l4, k4), one));
    // the doubles
    let sp = (cmul(x1, l2), cmul(y1, cmul(l2, l)), cmul(z1, l));
    lemma_g2_double_cong(p, jint2(p));
    lemma_g2_double_cong(q, sp);
    lemma_g2_double_exact_scale(jint2(p), l);
    lemma_g2_double_reduced(p);
    lemma_g2_double_reduced(q);
    lemma_g2_eq_scaled(g2_double(p), g2_double(q), g2_double_exact(jint2(p)), l4, k4);
}

} // verus!
