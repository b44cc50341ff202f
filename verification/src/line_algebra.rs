//! The lines of the Miller loop as functions on the curve over `Fq12`: the sparse value that
//! the loop multiplies in is the line evaluated at the point of `G1`, and the line of each step
//! passes through the untwisted points of the twist that define it.
use vstd::prelude::*;
use vstd::arithmetic::div_mod::*;
use crate::fp::{fq_modulus, fq_mul, lemma_moduli};
use crate::fq2::{fq2_add, fq2_mul, fq2_mul_xi, fq2_neg, fq2_scale, fq2_sub, fq2_xi};
use crate::group2_algebra::{lemma_c_add, lemma_c_mul, lemma_c_sub};
use crate::fq12::{fq12_mul, fq12_one, fq6_one, fq6_reduced, fq6_zero, Fq12V};
use crate::pairing::{fq12_add, fq12_embed, fq12_w, line_at, line_value, EllV};
use crate::tower_algebra::{
    cadd, cmul, cneg, cong, csub, iv, lemma_cadd_cong, lemma_cmul_cong, lemma_cneg_cong, lemma_fq2_neg_cong,
    lemma_reduced_zero, lemma_cdist_l, lemma_cdist_r, lemma_cmul_assoc, lemma_cmul_comm,
    lemma_cneg_l, lemma_csub_l, lemma_csub_r, C2, lemma_fq12_mul_assoc, lemma_fq12_mul_one, lemma_fq2_mul_bound, lemma_fq2_units,
    lemma_fq6_units, fq12_reduced,
};

verus! {

pub(crate) open spec fn fq2_red(a: (nat, nat)) -> bool {
    a.0 < fq_modulus() && a.1 < fq_modulus()
}

/// Products and sums with zero in `Fq2`.
proof fn lemma_fq2_zero_facts()
    ensures
        forall|x: (nat, nat)| #[trigger] fq2_mul(x, (0nat, 0nat)) == (0nat, 0nat),
        forall|x: (nat, nat)| #[trigger] fq2_mul((0nat, 0nat), x) == (0nat, 0nat),
        forall|x: (nat, nat)| fq2_red(x) ==> #[trigger] fq2_add(x, (0nat, 0nat)) == x,
        forall|x: (nat, nat)| fq2_red(x) ==> #[trigger] fq2_add((0nat, 0nat), x) == x,
        forall|x: (nat, nat)| fq2_red(x) ==> #[trigger] fq2_mul(x, (1nat, 0nat)) == x,
        forall|x: (nat, nat)| fq2_red(x) ==> #[trigger] fq2_mul((1nat, 0nat), x) == x,
        forall|x: (nat, nat)| fq2_red(#[trigger] fq2_mul(x, x)),
        fq2_mul_xi((0nat, 0nat)) == (0nat, 0nat),
        fq2_add((0nat, 0nat), (0nat, 0nat)) == (0nat, 0nat),
        fq2_red(fq2_xi()),
{
    lemma_moduli();
    lemma_small_mod(0, fq_modulus());
    assert forall|x: (nat, nat)| #[trigger] fq2_mul(x, (0nat, 0nat)) == (0nat, 0nat) by {
        reveal(fq2_mul);
        assert(x.0 * 0 - x.1 * 0 == 0);
        assert(x.0 * 0 + x.1 * 0 == 0);
    }
    assert forall|x: (nat, nat)| #[trigger] fq2_mul((0nat, 0nat), x) == (0nat, 0nat) by {
        reveal(fq2_mul);
        assert(0 * x.0 - 0 * x.1 == 0);
        assert(0 * x.1 + 0 * x.0 == 0);
    }
    assert forall|x: (nat, nat)| fq2_red(x) implies #[trigger] fq2_add(x, (0nat, 0nat)) == x by {
        lemma_small_mod(x.0, fq_modulus());
        lemma_small_mod(x.1, fq_modulus());
    }
    assert forall|x: (nat, nat)| fq2_red(x) implies #[trigger] fq2_add((0nat, 0nat), x) == x by {
        lemma_small_mod(x.0, fq_modulus());
        lemma_small_mod(x.1, fq_modulus());
    }
    assert forall|x: (nat, nat)| fq2_red(x) implies #[trigger] fq2_mul(x, (1nat, 0nat)) == x by {
        lemma_fq2_units(x);
    }
    assert forall|x: (nat, nat)| fq2_red(x) implies #[trigger] fq2_mul((1nat, 0nat), x) == x by {
        lemma_fq2_units(x);
    }
    lemma_fq2_mul_bound();
}

pub(crate) open spec fn v6() -> ((nat, nat), (nat, nat), (nat, nat)) {
    ((0nat, 0nat), (1nat, 0nat), (0nat, 0nat))
}

pub(crate) open spec fn v26() -> ((nat, nat), (nat, nat), (nat, nat)) {
    ((0nat, 0nat), (0nat, 0nat), (1nat, 0nat))
}

/// The powers of `w`: `w^2 = v`, `w^3 = v w`, `w^4 = v^2`, and `w^6 = xi`.
pub(crate) proof fn lemma_w_powers()
    ensures
        ({
            let w = fq12_w();
            let w2 = fq12_mul(w, w);
            let w3 = fq12_mul(w2, w);
            let w4 = fq12_mul(w2, w2);
            &&& w2 == (v6(), fq6_zero())
            &&& w3 == (fq6_zero(), v6())
            &&& w4 == (v26(), fq6_zero())
            &&& fq12_mul(w2, w4) == fq12_embed(fq2_xi())
            &&& fq12_mul(w3, w3) == fq12_embed(fq2_xi())
        }),
{
    reveal(fq12_mul);
    lemma_moduli();
    lemma_fq2_zero_facts();
    lemma_small_mod(0, fq_modulus());
    lemma_small_mod(1, fq_modulus());
    let z = (0nat, 0nat);
    let o = (1nat, 0nat);
    assert(fq2_red(z) && fq2_red(o));
    assert(fq2_mul(o, o) == o);
    assert(fq2_mul_xi(o) == fq2_xi()) by {
        lemma_fq2_units(fq2_xi());
    }
    let w = fq12_w();
    let w2 = fq12_mul(w, w);
    assert(w2 == (v6(), fq6_zero()));
    let w3 = fq12_mul(w2, w);
    assert(w3 == (fq6_zero(), v6()));
    let w4 = fq12_mul(w2, w2);
    assert(w4 == (v26(), fq6_zero()));
    assert(fq12_mul(w2, w4) == fq12_embed(fq2_xi()));
    assert(fq12_mul(w3, w3) == fq12_embed(fq2_xi()));
}

/// Products of sparse elements of `Fq12`.
proof fn lemma_sparse_products(a: (nat, nat), b: (nat, nat))
    ensures
        fq12_mul(fq12_embed(a), fq12_embed(b)) == fq12_embed(fq2_mul(a, b)),
        fq2_red(a) ==> fq12_mul(fq12_embed(a), (v26(), fq6_zero())) == ((
            (0nat, 0nat),
            (0nat, 0nat),
            a,
        ), fq6_zero()),
        fq2_red(a) ==> fq12_mul(fq12_embed(a), (fq6_zero(), v6())) == (fq6_zero(), (
            (0nat, 0nat),
            a,
            (0nat, 0nat),
        )),
        fq2_red(a) ==> fq12_mul(fq12_embed(a), fq12_one()) == fq12_embed(a),
{
    reveal(fq12_mul);
    lemma_moduli();
    lemma_fq2_zero_facts();
    lemma_small_mod(0, fq_modulus());
    lemma_small_mod(1, fq_modulus());
    let z = (0nat, 0nat);
    assert(fq2_red(z));
    lemma_fq2_mul_bound();
    assert(fq2_red(fq2_mul(a, b)));
    if fq2_red(a) {
        lemma_fq12_mul_one(fq12_embed(a));
    }
}

/// `x (p, 0) = x p` in `Fq2`.
proof fn lemma_mul_real(x: (nat, nat), k: nat)
    ensures
        fq2_mul(x, (k, 0nat)) == fq2_scale(x, k),
{
    reveal(fq2_mul);
    assert(x.0 * k - x.1 * 0 == x.0 * k);
    assert(x.0 * 0 + x.1 * k == x.1 * k);
}

/// The value of a line at a point of `G1` is the line evaluated there.
pub(crate) proof fn lemma_line_value_eval(c: EllV, p: (nat, nat))
    requires
        fq2_red(c.0),
    ensures
        line_value(c, p) == line_at(
            c,
            fq12_embed((p.0, 0nat)),
            fq12_embed((p.1, 0nat)),
            fq12_one(),
        ),
{
    lemma_moduli();
    lemma_fq2_zero_facts();
    lemma_w_powers();
    lemma_small_mod(0, fq_modulus());
    lemma_mul_real(c.2, p.0);
    lemma_mul_real(c.1, p.1);
    let s = fq2_scale(c.2, p.0);
    let t = fq2_scale(c.1, p.1);
    lemma_fq2_mul_bound();
    assert(fq2_red(s) && fq2_red(t)) by {
        lemma_mod_bound((c.2.0 * p.0) as int, fq_modulus() as int);
        lemma_mod_bound((c.2.1 * p.0) as int, fq_modulus() as int);
        lemma_mod_bound((c.1.0 * p.1) as int, fq_modulus() as int);
        lemma_mod_bound((c.1.1 * p.1) as int, fq_modulus() as int);
    }
    lemma_sparse_products(c.0, c.0);
    lemma_sparse_products(c.2, (p.0, 0nat));
    lemma_sparse_products(c.1, (p.1, 0nat));
    lemma_sparse_products(s, s);
    lemma_sparse_products(t, t);
    let z = (0nat, 0nat);
    assert(fq2_red(z));
}

/// The line at an untwisted point is the embedding of
/// `ell_0 Z + ell_vv (X xi) + ell_vw (Y xi)`.
pub(crate) proof fn lemma_untwist_eval(c: EllV, t: ((nat, nat), (nat, nat), (nat, nat)))
    ensures
        ({
            let u = crate::pairing::untwist(t);
            line_at(c, u.0, u.1, u.2) == fq12_embed(
                fq2_add(
                    fq2_add(fq2_mul(c.0, t.2), fq2_mul(c.2, fq2_mul(t.0, fq2_xi()))),
                    fq2_mul(c.1, fq2_mul(t.1, fq2_xi())),
                ),
            )
        }),
{
    lemma_moduli();
    lemma_fq2_zero_facts();
    lemma_w_powers();
    lemma_fq2_mul_bound();
    let w = fq12_w();
    let w2 = fq12_mul(w, w);
    let w3 = fq12_mul(w2, w);
    let w4 = fq12_mul(w2, w2);
    let xi = fq2_xi();
    lemma_fq12_mul_assoc(fq12_embed(c.2), fq12_mul(fq12_embed(t.0), w2), w4);
    lemma_fq12_mul_assoc(fq12_embed(t.0), w2, w4);
    lemma_sparse_products(t.0, xi);
    lemma_sparse_products(c.2, fq2_mul(t.0, xi));
    lemma_fq12_mul_assoc(fq12_embed(c.1), fq12_mul(fq12_embed(t.1), w3), w3);
    lemma_fq12_mul_assoc(fq12_embed(t.1), w3, w3);
    lemma_sparse_products(t.1, xi);
    lemma_sparse_products(c.1, fq2_mul(t.1, xi));
    lemma_sparse_products(c.0, t.2);
    let a = fq2_mul(c.0, t.2);
    let b = fq2_mul(c.2, fq2_mul(t.0, xi));
    let d = fq2_mul(c.1, fq2_mul(t.1, xi));
    let z = (0nat, 0nat);
    lemma_small_mod(0, fq_modulus());
    assert(fq12_add(fq12_embed(a), fq12_embed(b)) == fq12_embed(fq2_add(a, b)));
    assert(fq2_red(fq2_add(a, b))) by {
        lemma_mod_bound((a.0 + b.0) as int, fq_modulus() as int);
        lemma_mod_bound((a.1 + b.1) as int, fq_modulus() as int);
    }
    assert(fq12_add(fq12_embed(fq2_add(a, b)), fq12_embed(d)) == fq12_embed(
        fq2_add(fq2_add(a, b), d),
    ));
}

/// `a ((b c) d) = d ((a c) b)` over pairs of integers.
proof fn lemma_cmul_perm4(a: C2, b: C2, c: C2, d: C2)
    ensures
        cmul(a, cmul(cmul(b, c), d)) == cmul(d, cmul(cmul(a, c), b)),
{
    lemma_cmul_assoc(b, c, d);
    lemma_cmul_comm(b, cmul(c, d));
    // a ((b c) d) = a ((c d) b)
    lemma_cmul_assoc(a, cmul(c, d), b);
    lemma_cmul_assoc(a, c, d);
    // = ((a c) d) b
    lemma_cmul_comm(cmul(a, c), d);
    lemma_cmul_assoc(d, cmul(a, c), b);
}

/// The line of the addition step passes through the two points that define it: the exact
/// value at `(X : Y : Z)` and at `(qx : qy : 1)` is zero.
proof fn lemma_addition_line_exact(e: C2, d: C2, z: C2, qx: C2, qy: C2, xi: C2)
    ensures
        ({
            let p = cmul(e, qx);
            let r = cmul(d, qy);
            let c0 = cmul(xi, csub(p, r));
            let x = cadd(d, cmul(z, qx));
            let y = cadd(e, cmul(z, qy));
            &&& cadd(cadd(cmul(c0, z), cmul(cneg(e), cmul(x, xi))), cmul(d, cmul(y, xi))) == (
                0int,
                0int,
            )
            &&& cadd(cadd(c0, cmul(cneg(e), cmul(qx, xi))), cmul(d, cmul(qy, xi))) == (0int, 0int)
        }),
{
    let p = cmul(e, qx);
    let r = cmul(d, qy);
    let c0 = cmul(xi, csub(p, r));
    let x = cadd(d, cmul(z, qx));
    let y = cadd(e, cmul(z, qy));
    // c0 z = xi (p z) - xi (r z)
    lemma_cmul_comm(c0, z);
    lemma_cmul_assoc(xi, csub(p, r), z);
    lemma_cmul_comm(xi, csub(p, r));
    lemma_cmul_assoc(csub(p, r), xi, z);
    lemma_csub_l(p, r, cmul(xi, z));
    lemma_cmul_comm(cmul(xi, csub(p, r)), z);
    lemma_cmul_assoc(z, xi, csub(p, r));
    lemma_csub_r(cmul(z, xi), p, r);
    let pz = cmul(cmul(z, xi), p);
    let rz = cmul(cmul(z, xi), r);
    assert(cmul(c0, z) == csub(pz, rz));
    // (-e)(x xi) = -(e (d xi)) - (e ((z qx) xi))
    lemma_cneg_l(e, cmul(x, xi));
    lemma_cdist_l(d, cmul(z, qx), xi);
    lemma_cdist_r(e, cmul(d, xi), cmul(cmul(z, qx), xi));
    lemma_cmul_perm4(e, z, qx, xi);
    lemma_cmul_assoc(xi, cmul(e, qx), z);
    lemma_cmul_comm(cmul(e, qx), z);
    lemma_cmul_assoc(xi, z, cmul(e, qx));
    lemma_cmul_comm(xi, z);
    assert(cmul(e, cmul(cmul(z, qx), xi)) == pz);
    // d (y xi) = d (e xi) + d ((z qy) xi)
    lemma_cdist_l(e, cmul(z, qy), xi);
    lemma_cdist_r(d, cmul(e, xi), cmul(cmul(z, qy), xi));
    lemma_cmul_perm4(d, z, qy, xi);
    lemma_cmul_assoc(xi, cmul(d, qy), z);
    lemma_cmul_comm(cmul(d, qy), z);
    lemma_cmul_assoc(xi, z, cmul(d, qy));
    assert(cmul(d, cmul(cmul(z, qy), xi)) == rz);
    // e (d xi) = d (e xi)
    lemma_cmul_assoc(e, d, xi);
    lemma_cmul_assoc(d, e, xi);
    lemma_cmul_comm(e, d);
    // at q: c0 = xi p - xi r, (-e)(qx xi) = -(xi p), d (qy xi) = xi r
    lemma_csub_r(xi, p, r);
    lemma_cneg_l(e, cmul(qx, xi));
    lemma_cmul_assoc(e, qx, xi);
    lemma_cmul_comm(p, xi);
    lemma_cmul_assoc(d, qy, xi);
    lemma_cmul_comm(r, xi);
}

/// The line of the addition step of `q` to `t` passes through both.
pub(crate) proof fn lemma_addition_line(t: ((nat, nat), (nat, nat), (nat, nat)), q: ((nat, nat), (nat, nat)))
    requires
        fq2_red(t.0) && fq2_red(t.1) && fq2_red(t.2),
        fq2_red(q.0) && fq2_red(q.1),
    ensures
        ({
            let c = crate::pairing::addition_step_spec(t, q).1;
            let u = crate::pairing::untwist(t);
            let v = crate::pairing::untwist((q.0, q.1, (1nat, 0nat)));
            &&& line_at(c, u.0, u.1, u.2) == fq12_embed((0nat, 0nat))
            &&& line_at(c, v.0, v.1, v.2) == fq12_embed((0nat, 0nat))
        }),
{
    reveal(crate::pairing::addition_step_spec);
    lemma_moduli();
    lemma_fq2_mul_bound();
    lemma_fq2_zero_facts();
    let xi = fq2_xi();
    let (x, y, z) = t;
    let (qx, qy) = q;
    let d = fq2_sub(x, fq2_mul(z, qx));
    let e = fq2_sub(y, fq2_mul(z, qy));
    let c = crate::pairing::addition_step_spec(t, q).1;
    assert(c == (fq2_mul(xi, fq2_sub(fq2_mul(e, qx), fq2_mul(d, qy))), d, fq2_neg(e)));
    let (ed, ee, ez, eqx, eqy, exi) = (iv(d), iv(e), iv(z), iv(qx), iv(qy), iv(xi));
    assert(cong(ed, ed) && cong(ee, ee) && cong(ez, ez) && cong(eqx, eqx) && cong(eqy, eqy)
        && cong(exi, exi) && cong(iv(x), iv(x)) && cong(iv(y), iv(y)));
    // x = d + z qx and y = e + z qy, up to congruence
    lemma_c_mul(z, qx, ez, eqx);
    lemma_c_sub(x, fq2_mul(z, qx), iv(x), cmul(ez, eqx));
    lemma_cadd_cong(ed, csub(iv(x), cmul(ez, eqx)), cmul(ez, eqx), cmul(ez, eqx));
    let ex = cadd(ed, cmul(ez, eqx));
    assert(cadd(csub(iv(x), cmul(ez, eqx)), cmul(ez, eqx)) == iv(x));
    lemma_c_mul(z, qy, ez, eqy);
    lemma_c_sub(y, fq2_mul(z, qy), iv(y), cmul(ez, eqy));
    lemma_cadd_cong(ee, csub(iv(y), cmul(ez, eqy)), cmul(ez, eqy), cmul(ez, eqy));
    let ey = cadd(ee, cmul(ez, eqy));
    assert(cadd(csub(iv(y), cmul(ez, eqy)), cmul(ez, eqy)) == iv(y));
    // the coefficients
    lemma_c_mul(e, qx, ee, eqx);
    lemma_c_mul(d, qy, ed, eqy);
    lemma_c_sub(fq2_mul(e, qx), fq2_mul(d, qy), cmul(ee, eqx), cmul(ed, eqy));
    let c0e = cmul(exi, csub(cmul(ee, eqx), cmul(ed, eqy)));
    lemma_c_mul(xi, fq2_sub(fq2_mul(e, qx), fq2_mul(d, qy)), exi, csub(cmul(ee, eqx), cmul(ed, eqy)));
    lemma_fq2_neg_cong(e);
    lemma_cneg_cong(iv(fq2_neg(e)), cneg(ee));
    assert(cong(iv(fq2_neg(e)), cneg(ee)));
    lemma_addition_line_exact(ee, ed, ez, eqx, eqy, exi);
    // at t
    lemma_untwist_eval(c, t);
    lemma_c_mul(c.0, z, c0e, ez);
    lemma_c_mul(x, xi, ex, exi);
    lemma_c_mul(c.2, fq2_mul(x, xi), cneg(ee), cmul(ex, exi));
    lemma_c_mul(y, xi, ey, exi);
    lemma_c_mul(c.1, fq2_mul(y, xi), ed, cmul(ey, exi));
    lemma_c_add(fq2_mul(c.0, z), fq2_mul(c.2, fq2_mul(x, xi)), cmul(c0e, ez), cmul(cneg(ee), cmul(ex, exi)));
    lemma_c_add(
        fq2_add(fq2_mul(c.0, z), fq2_mul(c.2, fq2_mul(x, xi))),
        fq2_mul(c.1, fq2_mul(y, xi)),
        cadd(cmul(c0e, ez), cmul(cneg(ee), cmul(ex, exi))),
        cmul(ed, cmul(ey, exi)),
    );
    let et = fq2_add(
        fq2_add(fq2_mul(c.0, z), fq2_mul(c.2, fq2_mul(x, xi))),
        fq2_mul(c.1, fq2_mul(y, xi)),
    );
    lemma_reduced_zero(et);
    // at q
    let one = (1nat, 0nat);
    lemma_untwist_eval(c, (qx, qy, one));
    lemma_fq2_units(c.0);
    lemma_c_mul(qx, xi, eqx, exi);
    lemma_c_mul(c.2, fq2_mul(qx, xi), cneg(ee), cmul(eqx, exi));
    lemma_c_mul(qy, xi, eqy, exi);
    lemma_c_mul(c.1, fq2_mul(qy, xi), ed, cmul(eqy, exi));
    lemma_c_add(fq2_mul(c.0, one), fq2_mul(c.2, fq2_mul(qx, xi)), c0e, cmul(cneg(ee), cmul(eqx, exi)));
    lemma_c_add(
        fq2_add(fq2_mul(c.0, one), fq2_mul(c.2, fq2_mul(qx, xi))),
        fq2_mul(c.1, fq2_mul(qy, xi)),
        cadd(c0e, cmul(cneg(ee), cmul(eqx, exi))),
        cmul(ed, cmul(eqy, exi)),
    );
    let eq = fq2_add(
        fq2_add(fq2_mul(c.0, one), fq2_mul(c.2, fq2_mul(qx, xi))),
        fq2_mul(c.1, fq2_mul(qy, xi)),
    );
    lemma_reduced_zero(eq);
}

pub(crate) open spec fn cadd3(a: C2) -> C2 {
    cadd(cadd(a, a), a)
}

/// The exact value of the tangent line of the doubling step at `(X : Y : Z)`, at that point:
/// `3 xi (B Z^3 + X^3 - Y^2 Z)`, which the curve equation makes zero.
proof fn lemma_doubling_line_exact(x: C2, y: C2, z: C2, b: C2, xi: C2)
    ensures
        ({
            let eb = cmul(y, y);
            let ec = cmul(z, z);
            let ei = csub(cmul(b, cadd3(ec)), eb);
            let eh = csub(cmul(cadd(y, z), cadd(y, z)), cadd(eb, ec));
            let ej = cmul(x, x);
            let s = cadd(
                cadd(cmul(cmul(xi, ei), z), cmul(cadd3(ej), cmul(x, xi))),
                cmul(cneg(eh), cmul(y, xi)),
            );
            let bz3 = cmul(xi, cmul(b, cmul(ec, z)));
            let x3 = cmul(xi, cmul(ej, x));
            let y2z = cmul(xi, cmul(eb, z));
            s == csub(cadd3(cadd(bz3, x3)), cadd3(y2z))
        }),
{
    let eb = cmul(y, y);
    let ec = cmul(z, z);
    let ed = cadd3(ec);
    let ee = cmul(b, ed);
    let ei = csub(ee, eb);
    let eh = csub(cmul(cadd(y, z), cadd(y, z)), cadd(eb, ec));
    let ej = cmul(x, x);
    let yz = cmul(y, z);
    // h = 2 y z
    crate::group2_algebra::lemma_square_cross(y, z);
    assert(eh == cadd(yz, yz));
    // (xi i) z = xi (3 b z^3) - xi (y^2 z)
    lemma_cmul_assoc(xi, ei, z);
    lemma_csub_l(ee, eb, z);
    lemma_cmul_assoc(b, ed, z);
    lemma_cdist_l(cadd(ec, ec), ec, z);
    lemma_cdist_l(ec, ec, z);
    let ecz = cmul(ec, z);
    lemma_cdist_r(b, cadd(ecz, ecz), ecz);
    lemma_cdist_r(b, ecz, ecz);
    let bz = cmul(b, ecz);
    assert(cmul(ee, z) == cadd3(bz));
    lemma_csub_r(xi, cadd3(bz), cmul(eb, z));
    lemma_cdist_r(xi, cadd(bz, bz), bz);
    lemma_cdist_r(xi, bz, bz);
    // (3 j)(x xi) = 3 xi (j x)
    lemma_cdist_l(cadd(ej, ej), ej, cmul(x, xi));
    lemma_cdist_l(ej, ej, cmul(x, xi));
    lemma_cmul_assoc(ej, x, xi);
    lemma_cmul_comm(cmul(ej, x), xi);
    // (-h)(y xi) = -2 xi (y^2 z)
    lemma_cneg_l(eh, cmul(y, xi));
    lemma_cdist_l(yz, yz, cmul(y, xi));
    crate::group2_algebra::lemma_cmul4(y, z, y, xi);
    lemma_cmul_assoc(eb, z, xi);
    lemma_cmul_comm(cmul(eb, z), xi);
}

/// The tangent line of the doubling step at a point `t` of the twist passes through it.
pub(crate) proof fn lemma_doubling_line(t: ((nat, nat), (nat, nat), (nat, nat)))
    requires
        fq2_red(t.0) && fq2_red(t.1) && fq2_red(t.2),
        fq2_mul(fq2_mul(t.1, t.1), t.2) == fq2_add(
            fq2_mul(fq2_mul(t.0, t.0), t.0),
            fq2_mul(crate::g2::g2_b(), fq2_mul(fq2_mul(t.2, t.2), t.2)),
        ),
    ensures
        ({
            let c = crate::pairing::doubling_step_spec(t).1;
            let u = crate::pairing::untwist(t);
            line_at(c, u.0, u.1, u.2) == fq12_embed((0nat, 0nat))
        }),
{
    reveal(crate::pairing::doubling_step_spec);
    lemma_moduli();
    lemma_fq2_mul_bound();
    lemma_fq2_zero_facts();
    let xi = fq2_xi();
    let bb = crate::g2::g2_b();
    let (x, y, z) = t;
    let (ex, ey, ez, exi, eb) = (iv(x), iv(y), iv(z), iv(xi), iv(bb));
    assert(cong(ex, ex) && cong(ey, ey) && cong(ez, ez) && cong(exi, exi) && cong(eb, eb));
    let b = fq2_mul(y, y);
    let c = fq2_mul(z, z);
    let d = fq2_add(fq2_add(c, c), c);
    let e = fq2_mul(bb, d);
    let i = fq2_sub(e, b);
    let h = fq2_sub(fq2_mul(fq2_add(y, z), fq2_add(y, z)), fq2_add(b, c));
    let j = fq2_mul(x, x);
    let co = crate::pairing::doubling_step_spec(t).1;
    assert(co == (fq2_mul(xi, i), fq2_neg(h), fq2_add(fq2_add(j, j), j)));
    // the coefficients are congruent to their exact forms
    let yy = cmul(ey, ey);
    let zz = cmul(ez, ez);
    lemma_c_mul(y, y, ey, ey);
    lemma_c_mul(z, z, ez, ez);
    lemma_c_add(c, c, zz, zz);
    lemma_c_add(fq2_add(c, c), c, cadd(zz, zz), zz);
    lemma_c_mul(bb, d, eb, cadd3(zz));
    lemma_c_sub(e, b, cmul(eb, cadd3(zz)), yy);
    let ei = csub(cmul(eb, cadd3(zz)), yy);
    lemma_c_mul(xi, i, exi, ei);
    lemma_c_add(y, z, ey, ez);
    lemma_c_mul(fq2_add(y, z), fq2_add(y, z), cadd(ey, ez), cadd(ey, ez));
    lemma_c_add(b, c, yy, zz);
    lemma_c_sub(
        fq2_mul(fq2_add(y, z), fq2_add(y, z)),
        fq2_add(b, c),
        cmul(cadd(ey, ez), cadd(ey, ez)),
        cadd(yy, zz),
    );
    let eh = csub(cmul(cadd(ey, ez), cadd(ey, ez)), cadd(yy, zz));
    lemma_fq2_neg_cong(h);
    lemma_cneg_cong(iv(h), eh);
    let xx = cmul(ex, ex);
    lemma_c_mul(x, x, ex, ex);
    lemma_c_add(j, j, xx, xx);
    lemma_c_add(fq2_add(j, j), j, cadd(xx, xx), xx);
    // the value at t
    lemma_untwist_eval(co, t);
    lemma_c_mul(co.0, z, cmul(exi, ei), ez);
    lemma_c_mul(x, xi, ex, exi);
    lemma_c_mul(co.2, fq2_mul(x, xi), cadd3(xx), cmul(ex, exi));
    lemma_c_mul(y, xi, ey, exi);
    lemma_c_mul(co.1, fq2_mul(y, xi), cneg(eh), cmul(ey, exi));
    lemma_c_add(
        fq2_mul(co.0, z),
        fq2_mul(co.2, fq2_mul(x, xi)),
        cmul(cmul(exi, ei), ez),
        cmul(cadd3(xx), cmul(ex, exi)),
    );
    lemma_c_add(
        fq2_add(fq2_mul(co.0, z), fq2_mul(co.2, fq2_mul(x, xi))),
        fq2_mul(co.1, fq2_mul(y, xi)),
        cadd(cmul(cmul(exi, ei), ez), cmul(cadd3(xx), cmul(ex, exi))),
        cmul(cneg(eh), cmul(ey, exi)),
    );
    lemma_doubling_line_exact(ex, ey, ez, eb, exi);
    // the curve equation: xi (y^2 z) = xi (x^3) + xi (b z^3)
    lemma_c_mul(b, z, yy, ez);
    lemma_c_mul(j, x, xx, ex);
    lemma_c_mul(c, z, zz, ez);
    lemma_c_mul(bb, fq2_mul(c, z), eb, cmul(zz, ez));
    lemma_c_add(fq2_mul(j, x), fq2_mul(bb, fq2_mul(c, z)), cmul(xx, ex), cmul(eb, cmul(zz, ez)));
    lemma_cmul_cong(exi, exi, cmul(yy, ez), cadd(cmul(xx, ex), cmul(eb, cmul(zz, ez))));
    lemma_cdist_r(exi, cmul(xx, ex), cmul(eb, cmul(zz, ez)));
    let bz3 = cmul(exi, cmul(eb, cmul(zz, ez)));
    let x3 = cmul(exi, cmul(xx, ex));
    let y2z = cmul(exi, cmul(yy, ez));
    assert(cong(y2z, cadd(x3, bz3)));
    lemma_cong_three_zero(cadd(bz3, x3), y2z);
    let et = fq2_add(
        fq2_add(fq2_mul(co.0, z), fq2_mul(co.2, fq2_mul(x, xi))),
        fq2_mul(co.1, fq2_mul(y, xi)),
    );
    lemma_reduced_zero(et);
}

/// Where `b` is congruent to `a`, `3 a - 3 b` is congruent to zero.
proof fn lemma_cong_three_zero(a: C2, b: C2)
    requires
        cong(b, a),
    ensures
        cong(csub(cadd3(a), cadd3(b)), (0int, 0int)),
{
    lemma_moduli();
    let m = fq_modulus() as int;
    lemma_mul_mod_noop_right(3, a.0 - b.0, m);
    lemma_mul_mod_noop_right(3, a.1 - b.1, m);
    lemma_sub_mod_noop(a.0, b.0, m);
    lemma_sub_mod_noop(a.1, b.1, m);
    lemma_small_mod(0, fq_modulus());
    assert(3 * (a.0 - b.0) == (a.0 + a.0 + a.0) - (b.0 + b.0 + b.0));
    assert(3 * (a.1 - b.1) == (a.1 + a.1 + a.1) - (b.1 + b.1 + b.1));
}

} // verus!
