//! The addition formula of `G1` over the integers: its reduced coordinates are congruent modulo
//! `q` to exact polynomials in the coordinates of the summands, and swapping the summands
//! negates `y` and `z` of the exact result and keeps `x`.
use vstd::prelude::*;
use vstd::arithmetic::div_mod::*;
use vstd::arithmetic::mul::*;
use crate::fp::{fq_add, fq_modulus, fq_mul, fq_sub, lemma_moduli};
use crate::g1::{g1_add, g1_chord, g1_double, g1_tangent, g1_eq, g1_is_zero, g1_to_affine, JacFq};
use crate::fq2::fq_inv;
use crate::modular::has_inverse;
use crate::tower_algebra::{lemma_fq_inv, lemma_mul_cong};

verus! {

/// Congruence modulo `q`.
pub(crate) open spec fn cg(a: int, b: int) -> bool {
    a % (fq_modulus() as int) == b % (fq_modulus() as int)
}

proof fn lemma_cg_mul(a: nat, b: nat, ea: int, eb: int)
    requires
        cg(a as int, ea),
        cg(b as int, eb),
    ensures
        cg(fq_mul(a, b) as int, ea * eb),
{
    lemma_moduli();
    let m = fq_modulus() as int;
    lemma_mod_twice((a * b) as int, m);
    lemma_mul_cong(a as int, ea, b as int, eb, m);
}

proof fn lemma_cg_add(a: nat, b: nat, ea: int, eb: int)
    requires
        cg(a as int, ea),
        cg(b as int, eb),
    ensures
        cg(fq_add(a, b) as int, ea + eb),
{
    lemma_moduli();
    let m = fq_modulus() as int;
    lemma_mod_twice((a + b) as int, m);
    lemma_add_mod_noop(a as int, b as int, m);
    lemma_add_mod_noop(ea, eb, m);
}

proof fn lemma_cg_sub(a: nat, b: nat, ea: int, eb: int)
    requires
        cg(a as int, ea),
        cg(b as int, eb),
    ensures
        cg(fq_sub(a, b) as int, ea - eb),
{
    lemma_moduli();
    let m = fq_modulus() as int;
    lemma_mod_bound(a - b, m);
    lemma_mod_twice(a - b, m);
    lemma_sub_mod_noop(a as int, b as int, m);
    lemma_sub_mod_noop(ea, eb, m);
}

/// Reduced congruent values are equal.
proof fn lemma_cg_eq(a: nat, b: nat)
    requires
        a < fq_modulus(),
        b < fq_modulus(),
        cg(a as int, b as int),
    ensures
        a == b,
{
    lemma_moduli();
    lemma_small_mod(a, fq_modulus());
    lemma_small_mod(b, fq_modulus());
}

/// The sum of two points by the addition formula, over the integers, where the points differ.
pub(crate) open spec fn g1_add_exact(p: (int, int, int), q: (int, int, int)) -> (int, int, int) {
    let z1s = p.2 * p.2;
    let z2s = q.2 * q.2;
    let u1 = p.0 * z2s;
    let u2 = q.0 * z1s;
    let s1 = p.1 * (q.2 * z2s);
    let s2 = q.1 * (p.2 * z1s);
    let h = u2 - u1;
    let sd = s2 - s1;
    let hh = h + h;
    let i = hh * hh;
    let j = h * i;
    let r = sd + sd;
    let v = u1 * i;
    let x3 = r * r - j - (v + v);
    let y3 = r * (v - x3) - (s1 * j + s1 * j);
    let zz = p.2 + q.2;
    let z3 = (zz * zz - z1s - z2s) * h;
    (x3, y3, z3)
}

pub(crate) open spec fn jint(p: JacFq) -> (int, int, int) {
    (p.0 as int, p.1 as int, p.2 as int)
}

/// Whether the addition formula takes its doubling branch on `p` and `q`.
pub(crate) open spec fn g1_doubling_case(p: JacFq, q: JacFq) -> bool {
    let z1s = fq_mul(p.2, p.2);
    let z2s = fq_mul(q.2, q.2);
    fq_mul(p.0, z2s) == fq_mul(q.0, z1s) && fq_mul(p.1, fq_mul(q.2, z2s)) == fq_mul(
        q.1,
        fq_mul(p.2, z1s),
    )
}

/// Away from infinity and from the doubling branch, the reduced sum is congruent to the exact one.
proof fn lemma_g1_add_cong(p: JacFq, q: JacFq)
    requires
        !g1_is_zero(p),
        !g1_is_zero(q),
        !g1_doubling_case(p, q),
    ensures
        cg(g1_add(p, q).0 as int, g1_add_exact(jint(p), jint(q)).0),
        cg(g1_add(p, q).1 as int, g1_add_exact(jint(p), jint(q)).1),
        cg(g1_add(p, q).2 as int, g1_add_exact(jint(p), jint(q)).2),
{
    let (x1, y1, z1) = (p.0 as int, p.1 as int, p.2 as int);
    let (x2, y2, z2) = (q.0 as int, q.1 as int, q.2 as int);
    let z1s = fq_mul(p.2, p.2);
    let z2s = fq_mul(q.2, q.2);
    let u1 = fq_mul(p.0, z2s);
    let u2 = fq_mul(q.0, z1s);
    let z1c = fq_mul(p.2, z1s);
    let z2c = fq_mul(q.2, z2s);
    let s1 = fq_mul(p.1, z2c);
    let s2 = fq_mul(q.1, z1c);
    let h = fq_sub(u2, u1);
    let sd = fq_sub(s2, s1);
    let hh = fq_add(h, h);
    let i = fq_mul(hh, hh);
    let j = fq_mul(h, i);
    let r = fq_add(sd, sd);
    let v = fq_mul(u1, i);
    let s1j = fq_mul(s1, j);
    let rr = fq_mul(r, r);
    let vv = fq_add(v, v);
    let x3 = fq_sub(fq_sub(rr, j), vv);
    let vx = fq_sub(v, x3);
    let rvx = fq_mul(r, vx);
    let s1j2 = fq_add(s1j, s1j);
    let y3 = fq_sub(rvx, s1j2);
    let zz = fq_add(p.2, q.2);
    let zzs = fq_mul(zz, zz);
    let zd = fq_sub(fq_sub(zzs, z1s), z2s);
    let z3 = fq_mul(zd, h);
    let ez1s = z1 * z1;
    let ez2s = z2 * z2;
    let eu1 = x1 * ez2s;
    let eu2 = x2 * ez1s;
    let es1 = y1 * (z2 * ez2s);
    let es2 = y2 * (z1 * ez1s);
    let eh = eu2 - eu1;
    let esd = es2 - es1;
    let ehh = eh + eh;
    let ei = ehh * ehh;
    let ej = eh * ei;
    let er = esd + esd;
    let ev = eu1 * ei;
    let ex3 = er * er - ej - (ev + ev);
    let ezz = z1 + z2;
    assert(cg(x1, x1) && cg(y1, y1) && cg(z1, z1) && cg(x2, x2) && cg(y2, y2) && cg(z2, z2));
    lemma_cg_mul(p.2, p.2, z1, z1);
    lemma_cg_mul(q.2, q.2, z2, z2);
    lemma_cg_mul(p.0, z2s, x1, ez2s);
    lemma_cg_mul(q.0, z1s, x2, ez1s);
    lemma_cg_mul(p.2, z1s, z1, ez1s);
    lemma_cg_mul(q.2, z2s, z2, ez2s);
    lemma_cg_mul(p.1, z2c, y1, z2 * ez2s);
    lemma_cg_mul(q.1, z1c, y2, z1 * ez1s);
    lemma_cg_sub(u2, u1, eu2, eu1);
    lemma_cg_sub(s2, s1, es2, es1);
    lemma_cg_add(h, h, eh, eh);
    lemma_cg_mul(hh, hh, ehh, ehh);
    lemma_cg_mul(h, i, eh, ei);
    lemma_cg_add(sd, sd, esd, esd);
    lemma_cg_mul(u1, i, eu1, ei);
    lemma_cg_mul(s1, j, es1, ej);
    lemma_cg_mul(r, r, er, er);
    lemma_cg_add(v, v, ev, ev);
    lemma_cg_sub(rr, j, er * er, ej);
    lemma_cg_sub(fq_sub(rr, j), vv, er * er - ej, ev + ev);
    lemma_cg_sub(v, x3, ev, ex3);
    lemma_cg_mul(r, vx, er, ev - ex3);
    lemma_cg_add(s1j, s1j, es1 * ej, es1 * ej);
    lemma_cg_sub(rvx, s1j2, er * (ev - ex3), es1 * ej + es1 * ej);
    lemma_cg_add(p.2, q.2, z1, z2);
    lemma_cg_mul(zz, zz, ezz, ezz);
    lemma_cg_sub(zzs, z1s, ezz * ezz, ez1s);
    lemma_cg_sub(fq_sub(zzs, z1s), z2s, ezz * ezz - ez1s, ez2s);
    lemma_cg_mul(zd, h, ezz * ezz - ez1s - ez2s, eh);
}

/// Swapping the summands keeps `x` of the exact sum and negates `y` and `z`.
proof fn lemma_g1_add_exact_swap(p: (int, int, int), q: (int, int, int))
    ensures
        g1_add_exact(q, p).0 == g1_add_exact(p, q).0,
        g1_add_exact(q, p).1 == -g1_add_exact(p, q).1,
        g1_add_exact(q, p).2 == -g1_add_exact(p, q).2,
{
    let z1s = p.2 * p.2;
    let z2s = q.2 * q.2;
    let u1 = p.0 * z2s;
    let u2 = q.0 * z1s;
    let s1 = p.1 * (q.2 * z2s);
    let s2 = q.1 * (p.2 * z1s);
    let h = u2 - u1;
    let sd = s2 - s1;
    let i = (h + h) * (h + h);
    let j = h * i;
    let r = sd + sd;
    let x3 = r * r - j - (u1 * i + u1 * i);
    let hn = u1 - u2;
    let rn = (s1 - s2) + (s1 - s2);
    assert((hn + hn) * (hn + hn) == i) by (nonlinear_arith)
        requires
            hn == -h,
            i == (h + h) * (h + h),
    ;
    assert(hn * i == -j) by (nonlinear_arith)
        requires
            hn == -h,
            j == h * i,
    ;
    assert(rn * rn == r * r) by (nonlinear_arith)
        requires
            rn == -r,
    ;
    assert(j == u2 * i - u1 * i) by (nonlinear_arith)
        requires
            j == h * i,
            h == u2 - u1,
    ;
    let x3n = rn * rn - hn * i - (u2 * i + u2 * i);
    assert(x3n == x3);
    assert(rn * (u2 * i - x3) - (s2 * (hn * i) + s2 * (hn * i)) == -(r * (u1 * i - x3) - (s1 * j
        + s1 * j))) by (nonlinear_arith)
        requires
            rn == -r,
            hn * i == -j,
            j == u2 * i - u1 * i,
            r == (s2 - s1) + (s2 - s1),
    ;
    let zz = p.2 + q.2;
    assert((zz * zz - z2s - z1s) * hn == -((zz * zz - z1s - z2s) * h)) by (nonlinear_arith)
        requires
            hn == -h,
    ;
    assert(q.2 + p.2 == zz);
}

/// A point and the one with the same `x` and with `y` and `z` negated are the same point.
proof fn lemma_g1_eq_negated(a: JacFq, b: JacFq)
    requires
        a.0 < fq_modulus() && a.1 < fq_modulus() && a.2 < fq_modulus(),
        b.0 < fq_modulus() && b.1 < fq_modulus() && b.2 < fq_modulus(),
        a.0 == b.0,
        cg(b.1 as int, -(a.1 as int)),
        cg(b.2 as int, -(a.2 as int)),
    ensures
        g1_eq(a, b),
{
    lemma_moduli();
    let m = fq_modulus() as int;
    if a.2 == 0 {
        lemma_small_mod(0, fq_modulus());
        lemma_small_mod(b.2, fq_modulus());
    } else if b.2 == 0 {
        lemma_small_mod(0, fq_modulus());
        lemma_small_mod(a.2, fq_modulus());
        lemma_small_mod((m - a.2) as nat, fq_modulus());
        lemma_mod_sub_multiples_vanish(-(a.2 as int), m);
    } else {
        let (az, ay) = (a.2 as int, a.1 as int);
        assert(cg(az, az) && cg(ay, ay));
        // z^2 agrees
        lemma_cg_mul(b.2, b.2, -az, -az);
        lemma_cg_mul(a.2, a.2, az, az);
        assert((-az) * (-az) == az * az) by (nonlinear_arith);
        lemma_fq_mul_reduced(b.2, b.2);
        lemma_fq_mul_reduced(a.2, a.2);
        lemma_cg_eq(fq_mul(b.2, b.2), fq_mul(a.2, a.2));
        // y z^3 agrees
        let bz2 = fq_mul(b.2, b.2);
        let az2 = fq_mul(a.2, a.2);
        lemma_cg_mul(b.2, bz2, -az, az * az);
        lemma_cg_mul(a.2, az2, az, az * az);
        lemma_cg_mul(a.1, fq_mul(b.2, bz2), ay, (-az) * (az * az));
        lemma_cg_mul(b.1, fq_mul(a.2, az2), -ay, az * (az * az));
        assert(ay * ((-az) * (az * az)) == (-ay) * (az * (az * az))) by (nonlinear_arith);
        lemma_fq_mul_reduced(a.1, fq_mul(b.2, bz2));
        lemma_fq_mul_reduced(b.1, fq_mul(a.2, az2));
        lemma_cg_eq(fq_mul(a.1, fq_mul(b.2, bz2)), fq_mul(b.1, fq_mul(a.2, az2)));
    }
}

/// Addition on `G1` is commutative away from its doubling branch: `p + q` and `q + p` are the
/// same point, the one with `y` and `z` negated.
pub(crate) proof fn lemma_g1_add_comm_distinct(p: JacFq, q: JacFq)
    requires
        p.0 < fq_modulus() && p.1 < fq_modulus() && p.2 < fq_modulus(),
        q.0 < fq_modulus() && q.1 < fq_modulus() && q.2 < fq_modulus(),
        !g1_is_zero(p) && !g1_is_zero(q) ==> !g1_doubling_case(p, q),
    ensures
        g1_eq(g1_add(p, q), g1_add(q, p)),
{
    lemma_moduli();
    if g1_is_zero(p) || g1_is_zero(q) {
        return;
    }
    assert(!g1_doubling_case(q, p));
    lemma_g1_add_cong(p, q);
    lemma_g1_add_cong(q, p);
    lemma_g1_add_exact_swap(jint(p), jint(q));
    let a = g1_add(p, q);
    let b = g1_add(q, p);
    let e = g1_add_exact(jint(p), jint(q));
    lemma_fq_results_reduced(p, q);
    lemma_fq_results_reduced(q, p);
    lemma_cg_eq(a.0, b.0);
    lemma_neg_cg(a.2 as int, e.2, b.2 as int);
    lemma_neg_cg(a.1 as int, e.1, b.1 as int);
    lemma_g1_eq_negated(a, b);
}

proof fn lemma_fq_mul_reduced(a: nat, b: nat)
    ensures
        fq_mul(a, b) < fq_modulus(),
{
    lemma_moduli();
    lemma_mod_bound((a * b) as int, fq_modulus() as int);
}

proof fn lemma_fq_results_reduced(p: JacFq, q: JacFq)
    requires
        !g1_is_zero(p),
        !g1_is_zero(q),
        !g1_doubling_case(p, q),
    ensures
        g1_add(p, q).0 < fq_modulus(),
        g1_add(p, q).1 < fq_modulus(),
        g1_add(p, q).2 < fq_modulus(),
{
    lemma_moduli();
    let m = fq_modulus() as int;
    assert forall|a: int| #[trigger] (a % m) < m by {
        lemma_mod_bound(a, m);
    }
}

/// Congruent values have congruent negations.
proof fn lemma_neg_cg(a: int, e: int, b: int)
    requires
        cg(a, e),
        cg(b, -e),
    ensures
        cg(b, -a),
{
    lemma_moduli();
    let m = fq_modulus() as int;
    lemma_sub_mod_noop(0, a, m);
    lemma_sub_mod_noop(0, e, m);
}

/// The doubling formula over the integers.
pub(crate) open spec fn g1_double_exact(p: (int, int, int)) -> (int, int, int) {
    let a = p.0 * p.0;
    let b = p.1 * p.1;
    let c = b * b;
    let xb = p.0 + b;
    let d0 = xb * xb - a - c;
    let d = d0 + d0;
    let e = a + a + a;
    let f = e * e;
    let x3 = f - (d + d);
    let c2 = c + c;
    let c4 = c2 + c2;
    let c8 = c4 + c4;
    let yz = p.1 * p.2;
    (x3, e * (d - x3) - c8, yz + yz)
}

/// The reduced double is congruent to the exact double of any congruent coordinates.
proof fn lemma_g1_double_cong(p: JacFq, ep: (int, int, int))
    requires
        cg(p.0 as int, ep.0),
        cg(p.1 as int, ep.1),
        cg(p.2 as int, ep.2),
    ensures
        cg(g1_double(p).0 as int, g1_double_exact(ep).0),
        cg(g1_double(p).1 as int, g1_double_exact(ep).1),
        cg(g1_double(p).2 as int, g1_double_exact(ep).2),
{
    let (x, y, z) = ep;
    let a = fq_mul(p.0, p.0);
    let b = fq_mul(p.1, p.1);
    let c = fq_mul(b, b);
    let xb = fq_add(p.0, b);
    let xbs = fq_mul(xb, xb);
    let d0 = fq_sub(fq_sub(xbs, a), c);
    let d = fq_add(d0, d0);
    let e = fq_add(fq_add(a, a), a);
    let f = fq_mul(e, e);
    let dd = fq_add(d, d);
    let x3 = fq_sub(f, dd);
    let c2 = fq_add(c, c);
    let c4 = fq_add(c2, c2);
    let c8 = fq_add(c4, c4);
    let yz = fq_mul(p.1, p.2);
    let dx = fq_sub(d, x3);
    let edx = fq_mul(e, dx);
    let ea = x * x;
    let eb = y * y;
    let ec = eb * eb;
    let exb = x + eb;
    let ed0 = exb * exb - ea - ec;
    let ed = ed0 + ed0;
    let ee = ea + ea + ea;
    let ef = ee * ee;
    let ex3 = ef - (ed + ed);
    let ec2 = ec + ec;
    let ec4 = ec2 + ec2;
    lemma_cg_mul(p.0, p.0, x, x);
    lemma_cg_mul(p.1, p.1, y, y);
    lemma_cg_mul(b, b, eb, eb);
    lemma_cg_add(p.0, b, x, eb);
    lemma_cg_mul(xb, xb, exb, exb);
    lemma_cg_sub(xbs, a, exb * exb, ea);
    lemma_cg_sub(fq_sub(xbs, a), c, exb * exb - ea, ec);
    lemma_cg_add(d0, d0, ed0, ed0);
    lemma_cg_add(a, a, ea, ea);
    lemma_cg_add(fq_add(a, a), a, ea + ea, ea);
    lemma_cg_mul(e, e, ee, ee);
    lemma_cg_add(d, d, ed, ed);
    lemma_cg_sub(f, dd, ef, ed + ed);
    lemma_cg_add(c, c, ec, ec);
    lemma_cg_add(c2, c2, ec2, ec2);
    lemma_cg_add(c4, c4, ec4, ec4);
    lemma_cg_sub(d, x3, ed, ex3);
    lemma_cg_mul(e, dx, ee, ed - ex3);
    lemma_cg_sub(edx, c8, ee * (ed - ex3), ec4 + ec4);
    lemma_cg_mul(p.1, p.2, y, z);
    lemma_cg_add(yz, yz, y * z, y * z);
}

/// Scaling the coordinates by `l^2, l^3, l` scales the exact double by `l^8, l^12, l^4`.
proof fn lemma_g1_double_exact_scale(p: (int, int, int), l: int)
    ensures
        ({
            let l2 = l * l;
            let l4 = l2 * l2;
            let l8 = l4 * l4;
            let s = g1_double_exact((p.0 * l2, p.1 * (l2 * l), p.2 * l));
            let d = g1_double_exact(p);
            s.0 == d.0 * l8 && s.1 == d.1 * (l8 * l4) && s.2 == d.2 * l4
        }),
{
    let l2 = l * l;
    let l3 = l2 * l;
    let l4 = l2 * l2;
    let l6 = l4 * l2;
    let l8 = l4 * l4;
    let l12 = l8 * l4;
    let (x, y, z) = p;
    let (sx, sy, sz) = (x * l2, y * l3, z * l);
    let a = x * x;
    let b = y * y;
    let c = b * b;
    let d0 = (x + b) * (x + b) - a - c;
    let e = a + a + a;
    let sa = sx * sx;
    let sb = sy * sy;
    let sc = sb * sb;
    let sd0 = (sx + sb) * (sx + sb) - sa - sc;
    let se = sa + sa + sa;
    assert(d0 == 2 * (x * b)) by (nonlinear_arith)
        requires
            d0 == (x + b) * (x + b) - a - c,
            a == x * x,
            c == b * b,
    ;
    assert(sd0 == 2 * (sx * sb)) by (nonlinear_arith)
        requires
            sd0 == (sx + sb) * (sx + sb) - sa - sc,
            sa == sx * sx,
            sc == sb * sb,
    ;
    assert(sa == a * l4) by (nonlinear_arith)
        requires
            sa == sx * sx,
            sx == x * l2,
            a == x * x,
            l4 == l2 * l2,
    ;
    assert(sb == b * l6) by (nonlinear_arith)
        requires
            sb == sy * sy,
            sy == y * l3,
            b == y * y,
            l6 == l4 * l2,
            l4 == l2 * l2,
            l3 == l2 * l,
            l2 == l * l,
    ;
    assert(sc == c * l12) by (nonlinear_arith)
        requires
            sc == sb * sb,
            sb == b * l6,
            c == b * b,
            l12 == l8 * l4,
            l8 == l4 * l4,
            l6 == l4 * l2,
            l4 == l2 * l2,
    ;
    assert(sx * sb == (x * b) * l8) by (nonlinear_arith)
        requires
            sx == x * l2,
            sb == b * l6,
            l8 == l4 * l4,
            l6 == l4 * l2,
            l4 == l2 * l2,
    ;
    assert(se == e * l4) by (nonlinear_arith)
        requires
            se == sa + sa + sa,
            sa == a * l4,
            e == a + a + a,
    ;
    let f = e * e;
    let sf = se * se;
    assert(sf == f * l8) by (nonlinear_arith)
        requires
            sf == se * se,
            se == e * l4,
            f == e * e,
            l8 == l4 * l4,
    ;
    let d = d0 + d0;
    let sd = sd0 + sd0;
    assert(sd == d * l8) by (nonlinear_arith)
        requires
            sd == sd0 + sd0,
            d == d0 + d0,
            sd0 == 2 * (sx * sb),
            d0 == 2 * (x * b),
            sx * sb == (x * b) * l8,
    ;
    let x3 = f - (d + d);
    let sx3 = sf - (sd + sd);
    assert(sx3 == x3 * l8) by (nonlinear_arith)
        requires
            sx3 == sf - (sd + sd),
            x3 == f - (d + d),
            sf == f * l8,
            sd == d * l8,
    ;
    assert(sd - sx3 == (d - x3) * l8) by (nonlinear_arith)
        requires
            sx3 == x3 * l8,
            sd == d * l8,
    ;
    assert(se * (sd - sx3) == e * (d - x3) * l12) by (nonlinear_arith)
        requires
            se == e * l4,
            sd - sx3 == (d - x3) * l8,
            l12 == l8 * l4,
    ;
    assert(l4 == l3 * l) by (nonlinear_arith)
        requires
            l4 == l2 * l2,
            l3 == l2 * l,
            l2 == l * l,
    ;
    assert(sy * sz == (y * z) * l4) by (nonlinear_arith)
        requires
            sy == y * l3,
            sz == z * l,
            l4 == l3 * l,
            l3 == l2 * l,
    ;
    assert(sy * sz + sy * sz == (y * z + y * z) * l4) by (nonlinear_arith)
        requires
            sy * sz == (y * z) * l4,
    ;
    let c8 = ((c + c) + (c + c)) + ((c + c) + (c + c));
    let sc8 = ((sc + sc) + (sc + sc)) + ((sc + sc) + (sc + sc));
    assert(sc8 == c8 * l12) by (nonlinear_arith)
        requires
            sc == c * l12,
            c8 == ((c + c) + (c + c)) + ((c + c) + (c + c)),
            sc8 == ((sc + sc) + (sc + sc)) + ((sc + sc) + (sc + sc)),
    ;
    assert(se * (sd - sx3) - sc8 == (e * (d - x3) - c8) * l12) by (nonlinear_arith)
        requires
            se * (sd - sx3) == e * (d - x3) * l12,
            sc8 == c8 * l12,
    ;
}

proof fn lemma_cgi_mul(a: int, a2: int, b: int, b2: int)
    requires
        cg(a, a2),
        cg(b, b2),
    ensures
        cg(a * b, a2 * b2),
{
    lemma_moduli();
    lemma_mul_cong(a, a2, b, b2, fq_modulus() as int);
}

/// Where `l` has an inverse, a multiple `l a` is congruent to zero only where `a` is.
proof fn lemma_cg_unit_zero(l: int, k: int, a: int)
    requires
        cg(l * k, 1),
        cg(l * a, 0),
    ensures
        cg(a, 0),
{
    lemma_moduli();
    lemma_cgi_mul(l * a, 0, k, k);
    assert((l * a) * k == (l * k) * a) by (nonlinear_arith);
    lemma_cgi_mul(l * k, 1, a, a);
    assert(0 * k == 0);
    assert(1 * a == a);
}

/// Two points whose coordinates are congruent to `e` and to `e` scaled by `mu^2, mu^3, mu`,
/// with `mu` invertible, are the same point.
proof fn lemma_g1_eq_scaled(a: JacFq, b: JacFq, e: (int, int, int), mu: int, nu: int)
    requires
        a.0 < fq_modulus() && a.1 < fq_modulus() && a.2 < fq_modulus(),
        b.0 < fq_modulus() && b.1 < fq_modulus() && b.2 < fq_modulus(),
        cg(a.0 as int, e.0),
        cg(a.1 as int, e.1),
        cg(a.2 as int, e.2),
        cg(b.0 as int, e.0 * (mu * mu)),
        cg(b.1 as int, e.1 * ((mu * mu) * mu)),
        cg(b.2 as int, e.2 * mu),
        cg(mu * nu, 1),
    ensures
        g1_eq(a, b),
{
    lemma_moduli();
    lemma_small_mod(0, fq_modulus());
    lemma_small_mod(a.2, fq_modulus());
    lemma_small_mod(b.2, fq_modulus());
    if a.2 == 0 {
        lemma_cgi_mul(e.2, 0, mu, mu);
        assert(0 * mu == 0);
    } else if b.2 == 0 {
        assert(e.2 * mu == mu * e.2) by (nonlinear_arith);
        lemma_cg_unit_zero(mu, nu, e.2);
    } else {
        let bz = e.2 * mu;
        lemma_cg_mul(b.2, b.2, bz, bz);
        lemma_cg_mul(a.2, a.2, e.2, e.2);
        let bz2 = fq_mul(b.2, b.2);
        let az2 = fq_mul(a.2, a.2);
        lemma_cg_mul(a.0, bz2, e.0, bz * bz);
        lemma_cg_mul(b.0, az2, e.0 * (mu * mu), e.2 * e.2);
        assert(e.0 * (bz * bz) == (e.0 * (mu * mu)) * (e.2 * e.2)) by (nonlinear_arith)
            requires
                bz == e.2 * mu,
        ;
        lemma_fq_mul_reduced(a.0, bz2);
        lemma_fq_mul_reduced(b.0, az2);
        lemma_cg_eq(fq_mul(a.0, bz2), fq_mul(b.0, az2));
        lemma_cg_mul(b.2, bz2, bz, bz * bz);
        lemma_cg_mul(a.2, az2, e.2, e.2 * e.2);
        lemma_cg_mul(a.1, fq_mul(b.2, bz2), e.1, bz * (bz * bz));
        lemma_cg_mul(b.1, fq_mul(a.2, az2), e.1 * ((mu * mu) * mu), e.2 * (e.2 * e.2));
        assert(e.1 * (bz * (bz * bz)) == (e.1 * ((mu * mu) * mu)) * (e.2 * (e.2 * e.2)))
            by (nonlinear_arith)
            requires
                bz == e.2 * mu,
        ;
        lemma_fq_mul_reduced(a.1, fq_mul(b.2, bz2));
        lemma_fq_mul_reduced(b.1, fq_mul(a.2, az2));
        lemma_cg_eq(fq_mul(a.1, fq_mul(b.2, bz2)), fq_mul(b.1, fq_mul(a.2, az2)));
    }
}

/// In its doubling branch, addition on `G1` is commutative for points whose `z` has an inverse:
/// `p + q` and `q + p` are the doubles of `p` and of `q`, the same point.
pub(crate) proof fn lemma_g1_add_comm_doubling(p: JacFq, q: JacFq)
    requires
        p.0 < fq_modulus() && p.1 < fq_modulus() && p.2 < fq_modulus(),
        q.0 < fq_modulus() && q.1 < fq_modulus() && q.2 < fq_modulus(),
        !g1_is_zero(p),
        !g1_is_zero(q),
        g1_doubling_case(p, q),
        has_inverse(p.2, fq_modulus()),
        has_inverse(q.2, fq_modulus()),
    ensures
        g1_eq(g1_add(p, q), g1_add(q, p)),
{
    lemma_moduli();
    assert(g1_doubling_case(q, p));
    let (x1, y1, z1) = (p.0 as int, p.1 as int, p.2 as int);
    let (x2, y2, z2) = (q.0 as int, q.1 as int, q.2 as int);
    lemma_fq_inv(p.2);
    lemma_fq_inv(q.2);
    let w1 = fq_inv(p.2) as int;
    let w2 = fq_inv(q.2) as int;
    lemma_small_mod(1, fq_modulus());
    assert(cg(z1 * w1, 1) && cg(z2 * w2, 1));
    assert(cg(x1, x1) && cg(y1, y1) && cg(z1, z1) && cg(x2, x2) && cg(y2, y2) && cg(z2, z2));
    // the doubling branch: `x1 z2^2 = x2 z1^2` and `y1 z2^3 = y2 z1^3`
    let z1s = fq_mul(p.2, p.2);
    let z2s = fq_mul(q.2, q.2);
    lemma_cg_mul(p.2, p.2, z1, z1);
    lemma_cg_mul(q.2, q.2, z2, z2);
    lemma_cg_mul(p.0, z2s, x1, z2 * z2);
    lemma_cg_mul(q.0, z1s, x2, z1 * z1);
    lemma_cg_mul(q.2, z2s, z2, z2 * z2);
    lemma_cg_mul(p.2, z1s, z1, z1 * z1);
    lemma_cg_mul(p.1, fq_mul(q.2, z2s), y1, z2 * (z2 * z2));
    lemma_cg_mul(q.1, fq_mul(p.2, z1s), y2, z1 * (z1 * z1));
    assert(cg(x1 * (z2 * z2), x2 * (z1 * z1)));
    assert(cg(y1 * (z2 * (z2 * z2)), y2 * (z1 * (z1 * z1))));
    // `q` is `p` scaled by `l = z2 / z1`
    let l = z2 * w1;
    let k = z1 * w2;
    let u = z1 * w1;
    lemma_cgi_mul(u, 1, u, 1);
    lemma_cgi_mul(u * u, 1, u, 1);
    lemma_cgi_mul(x1 * (z2 * z2), x2 * (z1 * z1), w1 * w1, w1 * w1);
    assert(x1 * (z2 * z2) * (w1 * w1) == x1 * (l * l)) by (nonlinear_arith)
        requires
            l == z2 * w1,
    ;
    assert(x2 * (z1 * z1) * (w1 * w1) == x2 * (u * u)) by (nonlinear_arith)
        requires
            u == z1 * w1,
    ;
    lemma_cgi_mul(x2, x2, u * u, 1);
    assert(cg(x2, x1 * (l * l)));
    lemma_cgi_mul(y1 * (z2 * (z2 * z2)), y2 * (z1 * (z1 * z1)), w1 * (w1 * w1), w1 * (w1 * w1));
    assert(y1 * (z2 * (z2 * z2)) * (w1 * (w1 * w1)) == y1 * ((l * l) * l)) by (nonlinear_arith)
        requires
            l == z2 * w1,
    ;
    assert(y2 * (z1 * (z1 * z1)) * (w1 * (w1 * w1)) == y2 * ((u * u) * u)) by (nonlinear_arith)
        requires
            u == z1 * w1,
    ;
    lemma_cgi_mul(y2, y2, (u * u) * u, 1);
    assert(cg(y2, y1 * ((l * l) * l)));
    assert(z1 * l == z2 * u) by (nonlinear_arith)
        requires
            l == z2 * w1,
            u == z1 * w1,
    ;
    lemma_cgi_mul(z2, z2, u, 1);
    assert(cg(z2, z1 * l));
    // `l` is invertible
    assert(l * k == u * (z2 * w2)) by (nonlinear_arith)
        requires
            l == z2 * w1,
            k == z1 * w2,
            u == z1 * w1,
    ;
    lemma_cgi_mul(u, 1, z2 * w2, 1);
    let l2 = l * l;
    let l4 = l2 * l2;
    let k2 = k * k;
    let k4 = k2 * k2;
    lemma_cgi_mul(l * k, 1, l * k, 1);
    assert(l2 * k2 == (l * k) * (l * k)) by (nonlinear_arith)
        requires
            l2 == l * l,
            k2 == k * k,
    ;
    lemma_cgi_mul(l2 * k2, 1, l2 * k2, 1);
    assert(l4 * k4 == (l2 * k2) * (l2 * k2)) by (nonlinear_arith)
        requires
            l4 == l2 * l2,
            k4 == k2 * k2,
    ;
    // the doubles
    let sp = (x1 * (l * l), y1 * ((l * l) * l), z1 * l);
    lemma_g1_double_cong(p, jint(p));
    lemma_g1_double_cong(q, sp);
    lemma_g1_double_exact_scale(jint(p), l);
    let a = g1_double(p);
    let b = g1_double(q);
    lemma_fq_double_reduced(p);
    lemma_fq_double_reduced(q);
    lemma_g1_eq_scaled(a, b, g1_double_exact(jint(p)), l4, k4);
}

proof fn lemma_fq_double_reduced(p: JacFq)
    ensures
        g1_double(p).0 < fq_modulus(),
        g1_double(p).1 < fq_modulus(),
        g1_double(p).2 < fq_modulus(),
{
    lemma_moduli();
    let m = fq_modulus() as int;
    assert forall|a: int| #[trigger] (a % m) < m by {
        lemma_mod_bound(a, m);
    }
}

proof fn lemma_cgi_add(a: int, a2: int, b: int, b2: int)
    requires
        cg(a, a2),
        cg(b, b2),
    ensures
        cg(a + b, a2 + b2),
{
    lemma_moduli();
    let m = fq_modulus() as int;
    lemma_add_mod_noop(a, b, m);
    lemma_add_mod_noop(a2, b2, m);
}

proof fn lemma_cgi_sub(a: int, a2: int, b: int, b2: int)
    requires
        cg(a, a2),
        cg(b, b2),
    ensures
        cg(a - b, a2 - b2),
{
    lemma_moduli();
    let m = fq_modulus() as int;
    lemma_sub_mod_noop(a, b, m);
    lemma_sub_mod_noop(a2, b2, m);
}

/// A reduced value is congruent to what it reduces.
proof fn lemma_cg_reduced(e: int)
    ensures
        cg(e % (fq_modulus() as int), e),
{
    lemma_moduli();
    lemma_mod_twice(e, fq_modulus() as int);
}

/// The inverse of two modulo `q`.
pub(crate) open spec fn fq_half() -> int {
    (fq_modulus() as int + 1) / 2
}

proof fn lemma_fq_half()
    ensures
        cg(2 * fq_half(), 1),
{
    lemma_moduli();
    let m = fq_modulus() as int;
    assert(2 * fq_half() == m + 1);
    lemma_mod_add_multiples_vanish(1, m);
}

/// Where `z` is congruent to a unit `u` with inverse `v`, `z` has an inverse, and the one that
/// `g1_to_affine` takes is congruent to `v`.
proof fn lemma_affine_unit(z: nat, u: int, v: int) -> (zi: nat)
    requires
        z < fq_modulus(),
        cg(z as int, u),
        cg(u * v, 1),
    ensures
        z != 0,
        has_inverse(z, fq_modulus()),
        zi == (if z == 1 { 1 } else { fq_inv(z) }),
        zi < fq_modulus(),
        cg(zi as int, v),
{
    lemma_moduli();
    let m = fq_modulus() as int;
    lemma_small_mod(0, fq_modulus());
    lemma_small_mod(1, fq_modulus());
    lemma_cgi_mul(z as int, u, v, v);
    if z == 0 {
        assert(0 * v == 0);
    }
    let w = (v % m) as nat;
    lemma_mod_bound(v, m);
    lemma_cg_reduced(v);
    lemma_cgi_mul(z as int, z as int, w as int, v);
    assert((z * w) % fq_modulus() == 1);
    let zi = if z == 1 {
        1nat
    } else {
        lemma_fq_inv(z);
        fq_inv(z)
    };
    // zi = zi (u v) = (z zi) v = v
    lemma_cgi_mul(zi as int, zi as int, u * v, 1);
    lemma_cgi_mul(z as int, u, zi as int, zi as int);
    assert((z * zi) % fq_modulus() == 1);
    lemma_cgi_mul(u * zi, 1, v, v);
    assert(zi * (u * v) == (u * zi) * v) by (nonlinear_arith);
    assert(zi * 1 == zi && 1 * v == v);
    zi
}

/// The exact sum of two points with `z = 1` and different `x`, by the addition formula.
pub(crate) open spec fn chord_jac(x1: int, y1: int, x2: int, y2: int) -> (int, int) {
    let hh = x2 - x1;
    let sd = y2 - y1;
    let i = (hh + hh) * (hh + hh);
    let j = hh * i;
    let r = sd + sd;
    let v = x1 * i;
    let x3 = r * r - j - (v + v);
    (x3, r * (v - x3) - (y1 * j + y1 * j))
}

/// The exact sum in monomials.
proof fn lemma_chord_jac_expanded(x1: int, y1: int, x2: int, y2: int)
    ensures
        ({
            let hh = x2 - x1;
            let sd = y2 - y1;
            let x3 = 4 * (sd * sd) - 4 * (hh * (hh * hh)) - 8 * (x1 * (hh * hh));
            chord_jac(x1, y1, x2, y2) == (x3, 8 * (sd * (x1 * (hh * hh))) - 2 * (sd * x3) - 8 * (
            y1 * (hh * (hh * hh))))
        }),
{
    let hh = x2 - x1;
    let sd = y2 - y1;
    let i = (hh + hh) * (hh + hh);
    let j = hh * i;
    let r = sd + sd;
    let v = x1 * i;
    assert(i == 4 * (hh * hh)) by (nonlinear_arith)
        requires
            i == (hh + hh) * (hh + hh),
    ;
    assert(j == 4 * (hh * (hh * hh))) by (nonlinear_arith)
        requires
            j == hh * i,
            i == 4 * (hh * hh),
    ;
    assert(r * r == 4 * (sd * sd)) by (nonlinear_arith)
        requires
            r == sd + sd,
    ;
    assert(v == 4 * (x1 * (hh * hh))) by (nonlinear_arith)
        requires
            v == x1 * i,
            i == 4 * (hh * hh),
    ;
    let x3 = r * r - j - (v + v);
    assert(r * (v - x3) == 8 * (sd * (x1 * (hh * hh))) - 2 * (sd * x3)) by (nonlinear_arith)
        requires
            r == sd + sd,
            v == 4 * (x1 * (hh * hh)),
    ;
    assert(x3 == 4 * (sd * sd) - 4 * (hh * (hh * hh)) - 8 * (x1 * (hh * hh)));
    assert(y1 * j + y1 * j == 8 * (y1 * (hh * (hh * hh)))) by (nonlinear_arith)
        requires
            j == 4 * (hh * (hh * hh)),
    ;
}

/// Scaled by the inverses of `2 h` that `g1_to_affine` takes, the exact chord sum is the affine
/// chord sum.
proof fn lemma_chord_scaled(x1: int, y1: int, x2: int, y2: int, t: int, w: int)
    requires
        cg(2 * t, 1),
        cg((x2 - x1) * w, 1),
    ensures
        ({
            let tw = t * w;
            let lw = (y2 - y1) * w;
            let xe = lw * lw - x1 - x2;
            let c = chord_jac(x1, y1, x2, y2);
            cg(c.0 * (tw * tw), xe) && cg(c.1 * (tw * (tw * tw)), lw * x1 - lw * xe - y1)
        }),
{
    let hh = x2 - x1;
    let sd = y2 - y1;
    let tw = t * w;
    let lw = sd * w;
    let xe = lw * lw - x1 - x2;
    let aa = 2 * t;
    let bb = hh * w;
    let a2 = aa * aa;
    let a3 = a2 * aa;
    let b2 = bb * bb;
    let b3 = b2 * bb;
    let k2 = tw * tw;
    let k3 = tw * k2;
    lemma_chord_jac_expanded(x1, y1, x2, y2);
    let x3 = 4 * (sd * sd) - 4 * (hh * (hh * hh)) - 8 * (x1 * (hh * hh));
    lemma_cgi_mul(aa, 1, aa, 1);
    lemma_cgi_mul(bb, 1, bb, 1);
    lemma_cgi_mul(a2, 1, b2, 1);
    lemma_cgi_mul(a2, 1, aa, 1);
    lemma_cgi_mul(b2, 1, bb, 1);
    lemma_cgi_mul(a3, 1, b2, 1);
    lemma_cgi_mul(a3, 1, b3, 1);
    // x
    assert(4 * (sd * sd) * k2 == a2 * (lw * lw)) by (nonlinear_arith)
        requires
            k2 == tw * tw,
            tw == t * w,
            a2 == aa * aa,
            aa == 2 * t,
            lw == sd * w,
    ;
    assert(4 * (hh * (hh * hh)) * k2 == (a2 * b2) * hh) by (nonlinear_arith)
        requires
            k2 == tw * tw,
            tw == t * w,
            a2 == aa * aa,
            aa == 2 * t,
            b2 == bb * bb,
            bb == hh * w,
    ;
    assert(8 * (x1 * (hh * hh)) * k2 == 2 * ((a2 * b2) * x1)) by (nonlinear_arith)
        requires
            k2 == tw * tw,
            tw == t * w,
            a2 == aa * aa,
            aa == 2 * t,
            b2 == bb * bb,
            bb == hh * w,
    ;
    assert(x3 * k2 == 4 * (sd * sd) * k2 - 4 * (hh * (hh * hh)) * k2 - 8 * (x1 * (hh * hh)) * k2)
        by (nonlinear_arith)
        requires
            x3 == 4 * (sd * sd) - 4 * (hh * (hh * hh)) - 8 * (x1 * (hh * hh)),
    ;
    lemma_cgi_mul(a2, 1, lw * lw, lw * lw);
    lemma_cgi_mul(a2 * b2, 1, hh, hh);
    lemma_cgi_mul(a2 * b2, 1, x1, x1);
    lemma_cgi_mul(2, 2, (a2 * b2) * x1, x1);
    lemma_cgi_sub(a2 * (lw * lw), lw * lw, (a2 * b2) * hh, hh);
    lemma_cgi_sub(a2 * (lw * lw) - (a2 * b2) * hh, lw * lw - hh, 2 * ((a2 * b2) * x1), 2 * x1);
    assert(cg(x3 * k2, xe));
    // y
    let y3 = 8 * (sd * (x1 * (hh * hh))) - 2 * (sd * x3) - 8 * (y1 * (hh * (hh * hh)));
    let t3 = t * (t * t);
    let w3 = w * (w * w);
    lemma_cube_powers(t, w, tw, k2, k3, aa, a2, a3);
    assert(b2 * (lw * x1) == (hh * hh) * (w3 * (sd * x1))) by (nonlinear_arith)
        requires
            b2 == bb * bb,
            bb == hh * w,
            lw == sd * w,
            w3 == w * (w * w),
    ;
    lemma_monomial_a(t3, w3, hh, sd, x1);
    assert(8 * (sd * (x1 * (hh * hh))) * k3 == (a3 * b2) * (lw * x1)) by (nonlinear_arith)
        requires
            k3 == t3 * w3,
            a3 == 8 * t3,
            b2 * (lw * x1) == (hh * hh) * (w3 * (sd * x1)),
            8 * (sd * (x1 * (hh * hh))) * (t3 * w3) == (8 * t3) * ((hh * hh) * (w3 * (sd * x1))),
    ;
    assert(2 * (sd * x3) * k3 == aa * (lw * (x3 * k2))) by (nonlinear_arith)
        requires
            k3 == tw * k2,
            tw == t * w,
            aa == 2 * t,
            lw == sd * w,
    ;
    assert(b3 == (hh * (hh * hh)) * w3) by (nonlinear_arith)
        requires
            b3 == b2 * bb,
            b2 == bb * bb,
            bb == hh * w,
            w3 == w * (w * w),
    ;
    lemma_monomial_b(t3, w3, hh * (hh * hh), y1);
    assert(8 * (y1 * (hh * (hh * hh))) * k3 == (a3 * b3) * y1) by (nonlinear_arith)
        requires
            k3 == t3 * w3,
            a3 == 8 * t3,
            b3 == (hh * (hh * hh)) * w3,
            8 * (y1 * (hh * (hh * hh))) * (t3 * w3) == (8 * t3) * ((hh * (hh * hh)) * w3) * y1,
    ;
    assert(y3 * k3 == 8 * (sd * (x1 * (hh * hh))) * k3 - 2 * (sd * x3) * k3 - 8 * (y1 * (hh * (hh
        * hh))) * k3) by (nonlinear_arith)
        requires
            y3 == 8 * (sd * (x1 * (hh * hh))) - 2 * (sd * x3) - 8 * (y1 * (hh * (hh * hh))),
    ;
    lemma_cgi_mul(a3 * b2, 1, lw * x1, lw * x1);
    lemma_cgi_mul(lw, lw, x3 * k2, xe);
    lemma_cgi_mul(aa, 1, lw * (x3 * k2), lw * xe);
    lemma_cgi_mul(a3 * b3, 1, y1, y1);
    lemma_cgi_sub((a3 * b2) * (lw * x1), lw * x1, aa * (lw * (x3 * k2)), lw * xe);
    lemma_cgi_sub(
        (a3 * b2) * (lw * x1) - aa * (lw * (x3 * k2)),
        lw * x1 - lw * xe,
        (a3 * b3) * y1,
        y1,
    );
    assert(cg(y3 * k3, lw * x1 - lw * xe - y1));
}

/// Powers of `t w` and of `2 t`.
proof fn lemma_cube_powers(t: int, w: int, tw: int, k2: int, k3: int, aa: int, a2: int, a3: int)
    requires
        tw == t * w,
        k2 == tw * tw,
        k3 == tw * k2,
        aa == 2 * t,
        a2 == aa * aa,
        a3 == a2 * aa,
    ensures
        k3 == (t * (t * t)) * (w * (w * w)),
        a3 == 8 * (t * (t * t)),
{
    assert(k3 == (t * (t * t)) * (w * (w * w))) by (nonlinear_arith)
        requires
            tw == t * w,
            k2 == tw * tw,
            k3 == tw * k2,
    ;
    assert(a3 == 8 * (t * (t * t))) by (nonlinear_arith)
        requires
            aa == 2 * t,
            a2 == aa * aa,
            a3 == a2 * aa,
    ;
}

proof fn lemma_monomial_a(t3: int, w3: int, hh: int, sd: int, x1: int)
    ensures
        8 * (sd * (x1 * (hh * hh))) * (t3 * w3) == (8 * t3) * ((hh * hh) * (w3 * (sd * x1))),
{
    assert(8 * (sd * (x1 * (hh * hh))) * (t3 * w3) == (8 * t3) * ((hh * hh) * (w3 * (sd * x1))))
        by (nonlinear_arith);
}

proof fn lemma_monomial_b(t3: int, w3: int, h3: int, y1: int)
    ensures
        8 * (y1 * h3) * (t3 * w3) == (8 * t3) * (h3 * w3) * y1,
{
    assert(8 * (y1 * h3) * (t3 * w3) == (8 * t3) * (h3 * w3) * y1) by (nonlinear_arith);
}

/// The sum of two affine points of `G1` with different `x`, where `x2 - x1` has an inverse, is
/// their chord sum.
pub(crate) proof fn lemma_g1_add_chord(a: (nat, nat), b: (nat, nat))
    requires
        a.0 < fq_modulus() && a.1 < fq_modulus(),
        b.0 < fq_modulus() && b.1 < fq_modulus(),
        has_inverse(fq_sub(b.0, a.0), fq_modulus()),
    ensures
        g1_to_affine(g1_add((a.0, a.1, 1nat), (b.0, b.1, 1nat))) == Some(g1_chord(a, b)),
{
    lemma_moduli();
    let p = (a.0, a.1, 1nat);
    let q = (b.0, b.1, 1nat);
    let (x1, y1, x2, y2) = (a.0 as int, a.1 as int, b.0 as int, b.1 as int);
    lemma_small_mod(1, fq_modulus());
    lemma_small_mod(a.0, fq_modulus());
    lemma_small_mod(b.0, fq_modulus());
    assert(fq_mul(1, 1) == 1);
    assert(fq_mul(a.0, 1) == a.0 && fq_mul(b.0, 1) == b.0);
    // the difference and its inverse
    let h = fq_sub(b.0, a.0);
    let hh = x2 - x1;
    let sd = y2 - y1;
    lemma_cg_reduced(hh);
    lemma_fq_inv(h);
    let w = fq_inv(h) as int;
    lemma_cgi_mul(h as int, hh, w, w);
    if a.0 == b.0 {
        assert(h == 0);
        assert(0 * w == 0);
        lemma_small_mod(0, fq_modulus());
    }
    assert(!g1_doubling_case(p, q));
    let t = fq_half();
    lemma_fq_half();
    // the exact sum
    lemma_g1_add_cong(p, q);
    let cj = chord_jac(x1, y1, x2, y2);
    assert(g1_add_exact(jint(p), jint(q)) == (cj.0, cj.1, (2 * 2 - 1 - 1) * hh));
    let sum = g1_add(p, q);
    lemma_fq_results_reduced(p, q);
    // `z3 = 2 h` is a unit with inverse `t w`
    assert(cg(sum.2 as int, 2 * hh));
    assert((2 * hh) * (t * w) == (2 * t) * (hh * w)) by (nonlinear_arith);
    lemma_cgi_mul(2 * t, 1, hh * w, 1);
    let zi = lemma_affine_unit(sum.2, 2 * hh, t * w);
    let tw = t * w;
    let lw = sd * w;
    let xe = lw * lw - x1 - x2;
    lemma_chord_scaled(x1, y1, x2, y2, t, w);
    lemma_affine_scaled(sum, zi, tw, cj.0, cj.1);
    let aff = g1_to_affine(sum)->Some_0;
    // the chord values
    lemma_chord_values(a, b, w, xe);
    let c = g1_chord(a, b);
    lemma_cg_eq(aff.0, c.0);
    lemma_cg_eq(aff.1, c.1);
}

/// The affine form of a point whose `z` is nonzero and has an inverse congruent to `tw`: its
/// coordinates are congruent to `x tw^2` and `y tw^3`.
proof fn lemma_affine_scaled(p: JacFq, zi: nat, tw: int, ex: int, ey: int)
    requires
        p.0 < fq_modulus() && p.1 < fq_modulus() && p.2 < fq_modulus(),
        p.2 != 0,
        has_inverse(p.2, fq_modulus()),
        zi == (if p.2 == 1 { 1 } else { fq_inv(p.2) }),
        cg(zi as int, tw),
        cg(p.0 as int, ex),
        cg(p.1 as int, ey),
    ensures
        g1_to_affine(p) is Some,
        cg(g1_to_affine(p)->Some_0.0 as int, ex * (tw * tw)),
        cg(g1_to_affine(p)->Some_0.1 as int, ey * (tw * (tw * tw))),
        g1_to_affine(p)->Some_0.0 < fq_modulus(),
        g1_to_affine(p)->Some_0.1 < fq_modulus(),
{
    lemma_moduli();
    lemma_small_mod(1, fq_modulus());
    let zi2 = fq_mul(zi, zi);
    assert(cg(zi as int, zi as int));
    lemma_cg_mul(zi, zi, tw, tw);
    lemma_cg_mul(p.0, zi2, ex, tw * tw);
    lemma_cg_mul(zi2, zi, tw * tw, tw);
    lemma_cg_mul(p.1, fq_mul(zi2, zi), ey, (tw * tw) * tw);
    assert((tw * tw) * tw == tw * (tw * tw)) by (nonlinear_arith);
    let ax = fq_mul(p.0, zi2);
    let ay = fq_mul(p.1, fq_mul(zi2, zi));
    lemma_fq_mul_reduced(p.0, zi2);
    lemma_fq_mul_reduced(p.1, fq_mul(zi2, zi));
    if p.2 == 1 {
        assert(zi == 1);
        assert(1nat * 1nat == 1nat);
        assert(fq_mul(1, 1) == 1);
        assert(zi2 == 1);
        assert(fq_mul(zi2, zi) == 1);
        lemma_small_mod(p.0, fq_modulus());
        lemma_small_mod(p.1, fq_modulus());
        assert(p.0 * 1 == p.0 && p.1 * 1 == p.1);
        assert(ax == p.0 && ay == p.1);
        assert(g1_to_affine(p) == Some((ax, ay)));
    } else {
        assert(g1_to_affine(p) == Some((ax, ay)));
    }
}

/// The reduced chord values are congruent to the exact ones.
proof fn lemma_chord_values(a: (nat, nat), b: (nat, nat), w: int, xe: int)
    requires
        a.0 < fq_modulus() && a.1 < fq_modulus(),
        b.0 < fq_modulus() && b.1 < fq_modulus(),
        w == fq_inv(fq_sub(b.0, a.0)) as int,
        xe == ((b.1 - a.1) * w) * ((b.1 - a.1) * w) - a.0 - b.0,
    ensures
        ({
            let c = g1_chord(a, b);
            let lw = (b.1 - a.1) * w;
            &&& cg(c.0 as int, xe)
            &&& cg(c.1 as int, lw * a.0 - lw * xe - a.1)
            &&& c.0 < fq_modulus() && c.1 < fq_modulus()
        }),
{
    let (x1, y1, x2, y2) = (a.0 as int, a.1 as int, b.0 as int, b.1 as int);
    let sd = y2 - y1;
    let lw = sd * w;
    let c = g1_chord(a, b);
    let sdr = fq_sub(b.1, a.1);
    let h = fq_sub(b.0, a.0);
    lemma_cg_reduced(sd);
    assert(cg(w, w) && cg(x1, x1) && cg(x2, x2) && cg(y1, y1));
    lemma_cg_mul(sdr, fq_inv(h), sd, w);
    let l = fq_mul(sdr, fq_inv(h));
    lemma_cg_mul(l, l, lw, lw);
    lemma_cg_sub(fq_mul(l, l), a.0, lw * lw, x1);
    lemma_cg_sub(fq_sub(fq_mul(l, l), a.0), b.0, lw * lw - x1, x2);
    lemma_cg_sub(a.0, c.0, x1, xe);
    lemma_cg_mul(l, fq_sub(a.0, c.0), lw, x1 - xe);
    lemma_cg_sub(fq_mul(l, fq_sub(a.0, c.0)), a.1, lw * (x1 - xe), y1);
    assert(lw * (x1 - xe) == lw * x1 - lw * xe) by (nonlinear_arith);
    lemma_cg_sub_reduced(fq_sub(fq_mul(l, l), a.0), b.0);
    lemma_cg_sub_reduced(fq_mul(l, fq_sub(a.0, c.0)), a.1);
}

proof fn lemma_cg_sub_reduced(a: nat, b: nat)
    ensures
        fq_sub(a, b) < fq_modulus(),
{
    lemma_moduli();
    lemma_mod_bound(a - b, fq_modulus() as int);
}

/// The exact double of a point with `z = 1`, in monomials.
proof fn lemma_double_exact_affine(x: int, y: int)
    ensures
        ({
            let d = g1_double_exact((x, y, 1));
            let x3 = 9 * ((x * x) * (x * x)) - 8 * (x * (y * y));
            d == (x3, 3 * (x * x) * (4 * (x * (y * y)) - x3) - 8 * ((y * y) * (y * y)), 2 * y)
        }),
{
    let a = x * x;
    let b = y * y;
    let c = b * b;
    let xb = x + b;
    let d0 = xb * xb - a - c;
    assert(d0 == 2 * (x * b)) by (nonlinear_arith)
        requires
            d0 == xb * xb - a - c,
            xb == x + b,
            a == x * x,
            c == b * b,
    ;
    let e = a + a + a;
    assert(e * e == 9 * (a * a)) by (nonlinear_arith)
        requires
            e == a + a + a,
    ;
    assert(y * 1 == y);
}

/// The tangent values, scaled: with `v` an inverse of `2 y`, the exact double scaled by `v^2`
/// and `v^3` is the affine tangent double.
proof fn lemma_tangent_scaled(x: int, y: int, v: int)
    requires
        cg((2 * y) * v, 1),
    ensures
        ({
            let d = g1_double_exact((x, y, 1));
            let l = (3 * (x * x)) * v;
            let xe = l * l - 2 * x;
            cg(d.0 * (v * v), xe) && cg(d.1 * (v * (v * v)), l * x - l * xe - y)
        }),
{
    lemma_double_exact_affine(x, y);
    let u = (2 * y) * v;
    let l = (3 * (x * x)) * v;
    let xe = l * l - 2 * x;
    let x3 = 9 * ((x * x) * (x * x)) - 8 * (x * (y * y));
    let y3 = 3 * (x * x) * (4 * (x * (y * y)) - x3) - 8 * ((y * y) * (y * y));
    lemma_cgi_mul(u, 1, u, 1);
    lemma_cgi_mul(u * u, 1, u, 1);
    assert(x3 * (v * v) == l * l - 2 * x * (u * u)) by (nonlinear_arith)
        requires
            x3 == 9 * ((x * x) * (x * x)) - 8 * (x * (y * y)),
            l == (3 * (x * x)) * v,
            u == (2 * y) * v,
    ;
    lemma_cgi_mul(2 * x, 2 * x, u * u, 1);
    lemma_cgi_sub(l * l, l * l, 2 * x * (u * u), 2 * x);
    assert(cg(x3 * (v * v), xe));
    let k = 4 * (x * (y * y)) - x3;
    assert(x * (u * u) == 4 * (x * (y * y)) * (v * v)) by (nonlinear_arith)
        requires
            u == (2 * y) * v,
    ;
    assert(x * (u * u) - x3 * (v * v) == k * (v * v)) by (nonlinear_arith)
        requires
            x * (u * u) == 4 * (x * (y * y)) * (v * v),
            k == 4 * (x * (y * y)) - x3,
    ;
    assert(l * (k * (v * v)) == 3 * (x * x) * k * (v * (v * v))) by (nonlinear_arith)
        requires
            l == (3 * (x * x)) * v,
    ;
    assert(8 * ((y * y) * (y * y)) * (v * (v * v)) == y * ((u * u) * u)) by (nonlinear_arith)
        requires
            u == (2 * y) * v,
    ;
    assert(y3 * (v * (v * v)) == 3 * (x * x) * k * (v * (v * v)) - 8 * ((y * y) * (y * y)) * (v
        * (v * v))) by (nonlinear_arith)
        requires
            y3 == 3 * (x * x) * k - 8 * ((y * y) * (y * y)),
    ;
    assert(y3 * (v * (v * v)) == l * (x * (u * u) - x3 * (v * v)) - y * ((u * u) * u));
    lemma_cgi_mul(x, x, u * u, 1);
    lemma_cgi_sub(x * (u * u), x, x3 * (v * v), xe);
    lemma_cgi_mul(l, l, x * (u * u) - x3 * (v * v), x - xe);
    lemma_cgi_mul(y, y, (u * u) * u, 1);
    lemma_cgi_sub(l * (x * (u * u) - x3 * (v * v)), l * (x - xe), y * ((u * u) * u), y);
    assert(l * (x - xe) == l * x - l * xe) by (nonlinear_arith);
}

/// The double of an affine point of `G1` whose `2 y` has an inverse is its tangent double.
pub(crate) proof fn lemma_g1_double_tangent(a: (nat, nat))
    requires
        a.0 < fq_modulus() && a.1 < fq_modulus(),
        has_inverse(fq_add(a.1, a.1), fq_modulus()),
    ensures
        g1_to_affine(g1_double((a.0, a.1, 1nat))) == Some(g1_tangent(a)),
{
    lemma_moduli();
    let p = (a.0, a.1, 1nat);
    let (x, y) = (a.0 as int, a.1 as int);
    let y2 = fq_add(a.1, a.1);
    lemma_fq_inv(y2);
    let v = fq_inv(y2) as int;
    lemma_cg_reduced(2 * y);
    assert(y2 as int == (2 * y) % (fq_modulus() as int));
    lemma_cgi_mul(y2 as int, 2 * y, v, v);
    lemma_small_mod(1, fq_modulus());
    assert(cg((2 * y) * v, 1));
    assert(cg(x, x) && cg(y, y) && cg(1, 1));
    lemma_g1_double_cong(p, (x, y, 1));
    lemma_double_exact_affine(x, y);
    lemma_fq_double_reduced(p);
    let dp = g1_double(p);
    let zi = lemma_affine_unit(dp.2, 2 * y, v);
    let d = g1_double_exact((x, y, 1));
    lemma_affine_scaled(dp, zi, v, d.0, d.1);
    lemma_tangent_scaled(x, y, v);
    let aff = g1_to_affine(dp)->Some_0;
    // the tangent values
    let l = (3 * (x * x)) * v;
    let xe = l * l - 2 * x;
    let c = g1_tangent(a);
    let lr = fq_mul(fq_mul(3, fq_mul(a.0, a.0)), fq_inv(y2));
    lemma_cg_mul(a.0, a.0, x, x);
    assert(cg(3, 3) && cg(v, v));
    lemma_cg_mul(3, fq_mul(a.0, a.0), 3, x * x);
    lemma_cg_mul(fq_mul(3, fq_mul(a.0, a.0)), fq_inv(y2), 3 * (x * x), v);
    lemma_cg_mul(lr, lr, l, l);
    lemma_cg_add(a.0, a.0, x, x);
    lemma_cg_sub(fq_mul(lr, lr), fq_add(a.0, a.0), l * l, x + x);
    lemma_cg_sub(a.0, c.0, x, xe);
    lemma_cg_mul(lr, fq_sub(a.0, c.0), l, x - xe);
    lemma_cg_sub(fq_mul(lr, fq_sub(a.0, c.0)), a.1, l * (x - xe), y);
    assert(l * (x - xe) == l * x - l * xe) by (nonlinear_arith);
    lemma_cg_sub_reduced(fq_mul(lr, lr), fq_add(a.0, a.0));
    lemma_cg_sub_reduced(fq_mul(lr, fq_sub(a.0, c.0)), a.1);
    lemma_cg_eq(aff.0, c.0);
    lemma_cg_eq(aff.1, c.1);
}

} // verus!
