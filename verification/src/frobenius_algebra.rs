//! The Frobenius maps of the tower are ring homomorphisms, and with them the final
//! exponentiation: it maps a product to the product of the images.
use vstd::prelude::*;
use vstd::arithmetic::div_mod::*;
use crate::fp::{fq_modulus, lemma_moduli};
use crate::fq2::{fq2_frob, fq2_mul, fq2_mul_xi};
use crate::fq12::{
    fq12_conj, fq12_exp_by_neg_z, fq12_final_exp, fq12_final_exp_first, fq12_final_exp_last,
    fq12_frob, fq12_frob_c1, fq12_inv, fq12_mul, fq12_one, fq12_pow, fq6_frob, fq6_frob_c1,
    fq6_frob_c2, fq6_mul, fq6_neg, fq6_reduced, Fq12V, Fq6V,
};
use crate::tower_algebra::{
    cadd, cmul, cong, cong12, cong6, cxi, e12mul, e6add, e6mul, e6neg, e6v, fq12_reduced, iv,
    iv12, iv6, lemma_cadd_cong, lemma_cdist_l, lemma_cdist_r, lemma_cmul_assoc, lemma_cmul_comm,
    lemma_cmul_cong, lemma_cneg_cong, lemma_cxi_cong, lemma_cxi_l, lemma_e12mul_cong,
    lemma_e6add_cong, lemma_e6mul_comm, lemma_e6neg_cong, lemma_e6neg_r, lemma_e6v_cong,
    lemma_fq12_inv_correct, lemma_fq12_mul4, lemma_fq12_mul_assoc, lemma_fq12_mul_comm,
    lemma_fq12_mul_cong, lemma_fq12_mul_one, lemma_fq12_mul_reduced, lemma_fq12_products_reduced,
    lemma_fq2_mul_bound, lemma_fq2_mul_cong, lemma_fq2_mul_xi_cong, lemma_fq6_neg_cong,
    lemma_perm3, lemma_reduced_eq12, C12, C2, C6,
};

verus! {

/// The Frobenius coefficients are the powers of `xi` they stand for: `c1^2 = c2`,
/// `xi c1 c2 = xi^(q^k)` and `w^2 = c1` for the coefficient `w` of `Fq12`.
pub(crate) proof fn lemma_frobenius_coefficients(k: nat)
    requires
        1 <= k <= 3,
    ensures
        fq2_mul(fq6_frob_c1(k), fq6_frob_c1(k)) == fq6_frob_c2(k),
        fq2_mul_xi(fq2_mul(fq6_frob_c1(k), fq6_frob_c2(k))) == fq2_frob((9nat, 1nat), k),
        fq2_mul(fq12_frob_c1(k), fq12_frob_c1(k)) == fq6_frob_c1(k),
{
    reveal(fq2_mul);
    lemma_moduli();
    if k == 1 {
        lemma_mod_value(21575463638280843010398324269430826099269044274347216827212613867836435027261int * 21575463638280843010398324269430826099269044274347216827212613867836435027261int - 10307601595873709700152284273816112264069230130616436755625194854815875713954int * 10307601595873709700152284273816112264069230130616436755625194854815875713954int, 16413102808253533008374809259677643694336274653055880065433411063678693431749int, 2581911344467009335267311115468803099551665605076196740867805258568234346338int);
        lemma_mod_value(21575463638280843010398324269430826099269044274347216827212613867836435027261int * 10307601595873709700152284273816112264069230130616436755625194854815875713954int + 10307601595873709700152284273816112264069230130616436755625194854815875713954int * 21575463638280843010398324269430826099269044274347216827212613867836435027261int, 20320615476702375430506860014609115530950080671171966475629169588660202602626int, 19937756971775647987995932169929341994314640652964949448313374472400716661030int);
        lemma_mod_value(21575463638280843010398324269430826099269044274347216827212613867836435027261int * 2581911344467009335267311115468803099551665605076196740867805258568234346338int - 10307601595873709700152284273816112264069230130616436755625194854815875713954int * 19937756971775647987995932169929341994314640652964949448313374472400716661030int, -6844063368985085211477186942865170631928887993777921354683322128447853411828int, 7474034151359752514913406839843947591262155029321208079942598305488613827322int);
        lemma_mod_value(21575463638280843010398324269430826099269044274347216827212613867836435027261int * 19937756971775647987995932169929341994314640652964949448313374472400716661030int + 10307601595873709700152284273816112264069230130616436755625194854815875713954int * 2581911344467009335267311115468803099551665605076196740867805258568234346338int, 20868722388663586771216471853804206497738549446064308860017416297575311548074int, 1601578746719946967481444322823703055270461791997401731416271065461845820140int);
        lemma_mod_value(7474034151359752514913406839843947591262155029321208079942598305488613827322int * 9int - 1601578746719946967481444322823703055270461791997401731416271065461845820140int * 1int, 3int, 9int);
        lemma_mod_value(7474034151359752514913406839843947591262155029321208079942598305488613827322int * 1int + 1601578746719946967481444322823703055270461791997401731416271065461845820140int * 9int, 0int, 21888242871839275222246405745257275088696311157297823662689037894645226208582int);
        lemma_mod_value(8376118865763821496583973867626364092589906065868298776909617916018768340080int * 8376118865763821496583973867626364092589906065868298776909617916018768340080int - 16469823323077808223889137241176536799009286646108169935659301613961712198316int * 16469823323077808223889137241176536799009286646108169935659301613961712198316int, -9187384945308540462265023572126888483200558142639355961218014603309264129099int, 21575463638280843010398324269430826099269044274347216827212613867836435027261int);
        lemma_mod_value(8376118865763821496583973867626364092589906065868298776909617916018768340080int * 16469823323077808223889137241176536799009286646108169935659301613961712198316int + 16469823323077808223889137241176536799009286646108169935659301613961712198316int * 8376118865763821496583973867626364092589906065868298776909617916018768340080int, 12605232741611732518200907597562414454486712087715537939239625467614142821682int, 10307601595873709700152284273816112264069230130616436755625194854815875713954int);
    }
    if k == 2 {
        lemma_mod_value(21888242871839275220042445260109153167277707414472061641714758635765020556616int * 21888242871839275220042445260109153167277707414472061641714758635765020556616int - 0int * 0int, 21888242871839275217838484774961031246081023806968983599271420891293677114030int, 2203960485148121921418603742825762020974279258880205651966int);
        lemma_mod_value(21888242871839275220042445260109153167277707414472061641714758635765020556616int * 0int + 0int * 21888242871839275220042445260109153167277707414472061641714758635765020556616int, 0int, 0int);
        lemma_mod_value(21888242871839275220042445260109153167277707414472061641714758635765020556616int * 2203960485148121921418603742825762020974279258880205651966int - 0int * 0int, 2203960485148121921196683607503078042443337744471343442585int, 1int);
        lemma_mod_value(21888242871839275220042445260109153167277707414472061641714758635765020556616int * 0int + 0int * 2203960485148121921418603742825762020974279258880205651966int, 0int, 0int);
        lemma_mod_value(1int * 9int - 0int * 1int, 0int, 9int);
        lemma_mod_value(1int * 1int + 0int * 9int, 0int, 1int);
        lemma_mod_value(21888242871839275220042445260109153167277707414472061641714758635765020556617int * 21888242871839275220042445260109153167277707414472061641714758635765020556617int - 0int * 0int, 21888242871839275217838484774961031246081023806968983599271420891293677114031int, 21888242871839275220042445260109153167277707414472061641714758635765020556616int);
        lemma_mod_value(21888242871839275220042445260109153167277707414472061641714758635765020556617int * 0int + 0int * 21888242871839275220042445260109153167277707414472061641714758635765020556617int, 0int, 0int);
    }
    if k == 3 {
        lemma_mod_value(3772000881919853776433695186713858239009073593817195771773381919316419345261int * 3772000881919853776433695186713858239009073593817195771773381919316419345261int - 2236595495967245188281701248203181795121068902605861227855261137820944008926int * 2236595495967245188281701248203181795121068902605861227855261137820944008926int, 421487978484220592416398272635862646851227211376220940571448817267291304969int, 5324479202449903542726783395506214481928257762400643279780343368557297135718int);
        lemma_mod_value(3772000881919853776433695186713858239009073593817195771773381919316419345261int * 2236595495967245188281701248203181795121068902605861227855261137820944008926int + 2236595495967245188281701248203181795121068902605861227855261137820944008926int * 3772000881919853776433695186713858239009073593817195771773381919316419345261int, 770865001150044819701467401645575517732102379582950874405287177831709134251int, 16208900380737693084919495127334387981393726419856888799917914180988844123039int);
        lemma_mod_value(3772000881919853776433695186713858239009073593817195771773381919316419345261int * 5324479202449903542726783395506214481928257762400643279780343368557297135718int - 2236595495967245188281701248203181795121068902605861227855261137820944008926int * 16208900380737693084919495127334387981393726419856888799917914180988844123039int, -738698553072847197542392013845248569391720601238658879669718039486671716386int, 7474034151359752514913406839843947591262155029321208079942598305488613827322int);
        lemma_mod_value(3772000881919853776433695186713858239009073593817195771773381919316419345261int * 16208900380737693084919495127334387981393726419856888799917914180988844123039int + 2236595495967245188281701248203181795121068902605861227855261137820944008926int * 5324479202449903542726783395506214481928257762400643279780343368557297135718int, 3337348418572534499409193746337335163709196479453588319736204172487184146029int, 1601578746719946967481444322823703055270461791997401731416271065461845820140int);
        lemma_mod_value(7474034151359752514913406839843947591262155029321208079942598305488613827322int * 9int - 1601578746719946967481444322823703055270461791997401731416271065461845820140int * 1int, 3int, 9int);
        lemma_mod_value(7474034151359752514913406839843947591262155029321208079942598305488613827322int * 1int + 1601578746719946967481444322823703055270461791997401731416271065461845820140int * 9int, 0int, 21888242871839275222246405745257275088696311157297823662689037894645226208582int);
        lemma_mod_value(11697423496358154304825782922584725312912383441159505038794027105778954184319int * 11697423496358154304825782922584725312912383441159505038794027105778954184319int - 303847389135065887422783454877609941456349188919719272345083954437860409601int * 303847389135065887422783454877609941456349188919719272345083954437860409601int, 6247070357264248927891051595969240018068531859355511923634403297881920256853int, 3772000881919853776433695186713858239009073593817195771773381919316419345261int);
        lemma_mod_value(11697423496358154304825782922584725312912383441159505038794027105778954184319int * 303847389135065887422783454877609941456349188919719272345083954437860409601int + 303847389135065887422783454877609941456349188919719272345083954437860409601int * 11697423496358154304825782922584725312912383441159505038794027105778954184319int, 324761709725759818066170054419264044101232031133092950226843860849112394464int, 2236595495967245188281701248203181795121068902605861227855261137820944008926int);
    }
}

/// `x mod q = r` from `x = qq q + r` with `0 <= r < q`.
proof fn lemma_mod_value(x: int, qq: int, r: int)
    requires
        x == qq * (fq_modulus() as int) + r,
        0 <= r < fq_modulus(),
    ensures
        x % (fq_modulus() as int) == r,
{
    lemma_moduli();
    lemma_fundamental_div_mod_converse(x, fq_modulus() as int, qq, r);
}

/// The Frobenius map on `Fq2` over the integers: the conjugate for odd `k`.
pub(crate) open spec fn cf(x: C2, k: nat) -> C2 {
    if k % 2 == 1 {
        (x.0, -x.1)
    } else {
        x
    }
}

pub(crate) proof fn lemma_fq2_frob_cong(a: (nat, nat), k: nat)
    ensures
        cong(iv(fq2_frob(a, k)), cf(iv(a), k)),
        a.0 < fq_modulus() && a.1 < fq_modulus() ==> fq2_frob(a, k).0 < fq_modulus()
            && fq2_frob(a, k).1 < fq_modulus(),
{
    lemma_moduli();
    let m = fq_modulus() as int;
    lemma_mod_bound(0 - a.1, m);
    lemma_mod_twice(0 - a.1, m);
}

pub(crate) proof fn lemma_cf_cong(x: C2, x2: C2, k: nat)
    requires
        cong(x, x2),
    ensures
        cong(cf(x, k), cf(x2, k)),
{
    lemma_cneg_cong(x, x2);
}

/// The conjugate of a product is the product of the conjugates.
pub(crate) proof fn lemma_cf_mul(x: C2, y: C2, k: nat)
    ensures
        cf(cmul(x, y), k) == cmul(cf(x, k), cf(y, k)),
{
    reveal(cmul);
    assert(x.0 * y.0 - (-x.1) * (-y.1) == x.0 * y.0 - x.1 * y.1) by (nonlinear_arith);
    assert(x.0 * (-y.1) + (-x.1) * y.0 == -(x.0 * y.1 + x.1 * y.0)) by (nonlinear_arith);
}

/// `f(xi x) = f(xi) f(x)`
pub(crate) proof fn lemma_cf_xi(x: C2, k: nat)
    ensures
        cf(cxi(x), k) == cmul(cf((9, 1), k), cf(x, k)),
{
    reveal(cmul);
    if k % 2 == 1 {
        assert(cmul((9, -1), (x.0, -x.1)) == (9 * x.0 - x.1, -(x.0 + 9 * x.1)));
    } else {
        assert(cmul((9, 1), x) == (9 * x.0 - x.1, x.0 + 9 * x.1));
    }
}

/// `(x g)(y h) = (g h)(x y)`
pub(crate) proof fn lemma_perm4(x: C2, g: C2, y: C2, h: C2)
    ensures
        cmul(cmul(x, g), cmul(y, h)) == cmul(cmul(g, h), cmul(x, y)),
{
    lemma_cmul_assoc(x, g, cmul(y, h));
    lemma_perm3(g, y, h);
    lemma_cmul_assoc(y, g, h);
    lemma_cmul_comm(y, g);
    lemma_cmul_assoc(x, y, cmul(g, h));
    lemma_cmul_assoc(x, cmul(g, y), h);
    lemma_cmul_assoc(x, g, y);
    lemma_perm3(x, g, y);
    lemma_cmul_assoc(cmul(x, y), g, h);
    lemma_cmul_comm(cmul(x, y), cmul(g, h));
    lemma_cmul_assoc(cmul(g, y), x, h);
    lemma_cmul_comm(x, cmul(g, y));
}

/// The coefficients of the Frobenius map on `Fq6` and `Fq12`, over the integers.
pub(crate) open spec fn g1(k: nat) -> C2 {
    iv(fq6_frob_c1(k))
}

pub(crate) open spec fn g2(k: nat) -> C2 {
    iv(fq6_frob_c2(k))
}

pub(crate) open spec fn gw(k: nat) -> C2 {
    iv(fq12_frob_c1(k))
}

/// The coefficient relations, modulo `q`.
pub(crate) proof fn lemma_coefficients_cong(k: nat)
    requires
        1 <= k <= 3,
    ensures
        cong(cmul(g1(k), g1(k)), g2(k)),
        cong(cxi(cmul(g1(k), g2(k))), cf((9, 1), k)),
        cong(cmul(gw(k), gw(k)), g1(k)),
        cong(cxi(cmul(g2(k), g2(k))), cmul(cf((9, 1), k), g1(k))),
{
    lemma_frobenius_coefficients(k);
    lemma_fq2_mul_cong(fq6_frob_c1(k), fq6_frob_c1(k));
    lemma_fq2_mul_cong(fq6_frob_c1(k), fq6_frob_c2(k));
    lemma_fq2_mul_xi_cong(fq2_mul(fq6_frob_c1(k), fq6_frob_c2(k)));
    lemma_cxi_cong(iv(fq2_mul(fq6_frob_c1(k), fq6_frob_c2(k))), cmul(g1(k), g2(k)));
    lemma_fq2_frob_cong((9nat, 1nat), k);
    lemma_fq2_mul_cong(fq12_frob_c1(k), fq12_frob_c1(k));
    // `xi g2^2 = xi g2 g1^2 = (xi g1 g2) g1 = f(xi) g1`
    let (a, b) = (g1(k), g2(k));
    lemma_cmul_cong(b, b, b, cmul(a, a));
    lemma_perm3(a, b, a);
    lemma_perm3(b, a, a);
    lemma_cxi_cong(cmul(b, b), cmul(b, cmul(a, a)));
    lemma_cxi_l(cmul(a, b), a);
    lemma_cmul_cong(cxi(cmul(a, b)), cf((9, 1), k), a, a);
}

/// The Frobenius map on `Fq6` over the integers.
pub(crate) open spec fn e6frob(x: C6, k: nat) -> C6 {
    (cf(x.0, k), cmul(cf(x.1, k), g1(k)), cmul(cf(x.2, k), g2(k)))
}

pub(crate) proof fn lemma_fq6_frob_cong(a: Fq6V, k: nat)
    ensures
        cong6(iv6(fq6_frob(a, k)), e6frob(iv6(a), k)),
        fq6_reduced(a) ==> fq6_reduced(fq6_frob(a, k)),
{
    lemma_fq2_frob_cong(a.0, k);
    lemma_fq2_frob_cong(a.1, k);
    lemma_fq2_frob_cong(a.2, k);
    lemma_fq2_mul_cong(fq2_frob(a.1, k), fq6_frob_c1(k));
    lemma_fq2_mul_cong(fq2_frob(a.2, k), fq6_frob_c2(k));
    lemma_cmul_cong(iv(fq2_frob(a.1, k)), cf(iv(a.1), k), g1(k), g1(k));
    lemma_cmul_cong(iv(fq2_frob(a.2, k)), cf(iv(a.2), k), g2(k), g2(k));
    lemma_fq2_mul_bound();
}

pub(crate) proof fn lemma_e6frob_cong(x: C6, x2: C6, k: nat)
    requires
        cong6(x, x2),
    ensures
        cong6(e6frob(x, k), e6frob(x2, k)),
{
    lemma_cf_cong(x.0, x2.0, k);
    lemma_cf_cong(x.1, x2.1, k);
    lemma_cf_cong(x.2, x2.2, k);
    lemma_cmul_cong(cf(x.1, k), cf(x2.1, k), g1(k), g1(k));
    lemma_cmul_cong(cf(x.2, k), cf(x2.2, k), g2(k), g2(k));
}

/// The Frobenius map on `Fq6` adds.
pub(crate) proof fn lemma_e6frob_add(x: C6, y: C6, k: nat)
    ensures
        e6frob(e6add(x, y), k) == e6add(e6frob(x, k), e6frob(y, k)),
{
    lemma_cdist_l(cf(x.1, k), cf(y.1, k), g1(k));
    lemma_cdist_l(cf(x.2, k), cf(y.2, k), g2(k));
}

/// The Frobenius map on `Fq6` multiplies, modulo `q`.
pub(crate) proof fn lemma_e6frob_mul(x: C6, y: C6, k: nat)
    requires
        1 <= k <= 3,
    ensures
        cong6(e6frob(e6mul(x, y), k), e6mul(e6frob(x, k), e6frob(y, k))),
{
    reveal(e6mul);
    lemma_coefficients_cong(k);
    let (a, b, fx) = (g1(k), g2(k), cf((9, 1), k));
    let (x0, x1, x2) = (cf(x.0, k), cf(x.1, k), cf(x.2, k));
    let (y0, y1, y2) = (cf(y.0, k), cf(y.1, k), cf(y.2, k));
    // the conjugate of every product of coefficients
    lemma_cf_mul(x.0, y.0, k);
    lemma_cf_mul(x.0, y.1, k);
    lemma_cf_mul(x.0, y.2, k);
    lemma_cf_mul(x.1, y.0, k);
    lemma_cf_mul(x.1, y.1, k);
    lemma_cf_mul(x.1, y.2, k);
    lemma_cf_mul(x.2, y.0, k);
    lemma_cf_mul(x.2, y.1, k);
    lemma_cf_mul(x.2, y.2, k);
    lemma_cf_xi(cadd(cmul(x.1, y.2), cmul(x.2, y.1)), k);
    lemma_cf_xi(cmul(x.2, y.2), k);
    // component 0
    lemma_perm4(x1, a, y2, b);
    lemma_perm4(x2, b, y1, a);
    lemma_cmul_comm(b, a);
    lemma_cdist_r(cmul(a, b), cmul(x1, y2), cmul(x2, y1));
    lemma_cxi_l(cmul(a, b), cadd(cmul(x1, y2), cmul(x2, y1)));
    lemma_cmul_cong(cxi(cmul(a, b)), fx, cadd(cmul(x1, y2), cmul(x2, y1)), cadd(cmul(x1, y2), cmul(x2, y1)));
    lemma_cadd_cong(
        cmul(x0, y0),
        cmul(x0, y0),
        cmul(fx, cadd(cmul(x1, y2), cmul(x2, y1))),
        cxi(cmul(cmul(a, b), cadd(cmul(x1, y2), cmul(x2, y1)))),
    );
    // component 1
    lemma_cdist_l(cadd(cmul(x0, y1), cmul(x1, y0)), cmul(fx, cmul(x2, y2)), a);
    lemma_cdist_l(cmul(x0, y1), cmul(x1, y0), a);
    lemma_cmul_assoc(x0, y1, a);
    lemma_perm3(x1, y0, a);
    lemma_perm4(x2, b, y2, b);
    lemma_cxi_l(cmul(b, b), cmul(x2, y2));
    lemma_perm3(fx, cmul(x2, y2), a);
    lemma_perm3(fx, a, cmul(x2, y2));
    lemma_cmul_cong(cxi(cmul(b, b)), cmul(fx, a), cmul(x2, y2), cmul(x2, y2));
    lemma_cadd_cong(
        cadd(cmul(cmul(x0, y1), a), cmul(cmul(x1, y0), a)),
        cadd(cmul(cmul(x0, y1), a), cmul(cmul(x1, y0), a)),
        cmul(cmul(fx, cmul(x2, y2)), a),
        cxi(cmul(cmul(b, b), cmul(x2, y2))),
    );
    // component 2
    lemma_cdist_l(cadd(cmul(x0, y2), cmul(x1, y1)), cmul(x2, y0), b);
    lemma_cdist_l(cmul(x0, y2), cmul(x1, y1), b);
    lemma_cmul_assoc(x0, y2, b);
    lemma_perm4(x1, a, y1, a);
    lemma_cmul_cong(cmul(a, a), b, cmul(x1, y1), cmul(x1, y1));
    lemma_cmul_comm(b, cmul(x1, y1));
    lemma_perm3(x2, y0, b);
    lemma_cadd_cong(
        cmul(cmul(x0, y2), b),
        cmul(cmul(x0, y2), b),
        cmul(cmul(a, a), cmul(x1, y1)),
        cmul(cmul(x1, y1), b),
    );
    lemma_cadd_cong(
        cadd(cmul(cmul(x0, y2), b), cmul(cmul(a, a), cmul(x1, y1))),
        cadd(cmul(cmul(x0, y2), b), cmul(cmul(x1, y1), b)),
        cmul(cmul(x2, y0), b),
        cmul(cmul(x2, y0), b),
    );
}

/// Each coefficient times `g`, on the right.
pub(crate) open spec fn e6scl(x: C6, g: C2) -> C6 {
    (cmul(x.0, g), cmul(x.1, g), cmul(x.2, g))
}

pub(crate) proof fn lemma_e6scl_mul_r(x: C6, y: C6, g: C2)
    ensures
        e6mul(x, e6scl(y, g)) == e6scl(e6mul(x, y), g),
{
    reveal(e6mul);
    assert forall|u: C2, w: C2| #[trigger] cmul(u, cmul(w, g)) == cmul(cmul(u, w), g) by {
        lemma_cmul_assoc(u, w, g);
    }
    assert forall|u: C2| #[trigger] cxi(cmul(u, g)) == cmul(cxi(u), g) by {
        lemma_cxi_l(u, g);
    }
    assert forall|u: C2, w: C2| #[trigger] cadd(cmul(u, g), cmul(w, g)) == cmul(cadd(u, w), g) by {
        lemma_cdist_l(u, w, g);
    }
    let lhs = e6mul(x, e6scl(y, g));
    let rhs = e6scl(e6mul(x, y), g);
    assert(lhs.0 == rhs.0);
    assert(lhs.1 == rhs.1);
    assert(lhs.2 == rhs.2);
}

pub(crate) proof fn lemma_e6scl_mul_l(x: C6, y: C6, g: C2)
    ensures
        e6mul(e6scl(x, g), y) == e6scl(e6mul(x, y), g),
{
    reveal(e6mul);
    assert forall|u: C2, w: C2| #[trigger] cmul(cmul(u, g), w) == cmul(cmul(u, w), g) by {
        lemma_perm3(u, w, g);
    }
    assert forall|u: C2| #[trigger] cxi(cmul(u, g)) == cmul(cxi(u), g) by {
        lemma_cxi_l(u, g);
    }
    assert forall|u: C2, w: C2| #[trigger] cadd(cmul(u, g), cmul(w, g)) == cmul(cadd(u, w), g) by {
        lemma_cdist_l(u, w, g);
    }
    let lhs = e6mul(e6scl(x, g), y);
    let rhs = e6scl(e6mul(x, y), g);
    assert(lhs.0 == rhs.0);
    assert(lhs.1 == rhs.1);
    assert(lhs.2 == rhs.2);
}

pub(crate) proof fn lemma_e6scl_scl(x: C6, g: C2, h: C2)
    ensures
        e6scl(e6scl(x, g), h) == e6scl(x, cmul(g, h)),
{
    lemma_cmul_assoc(x.0, g, h);
    lemma_cmul_assoc(x.1, g, h);
    lemma_cmul_assoc(x.2, g, h);
}

pub(crate) proof fn lemma_e6v_scl(x: C6, g: C2)
    ensures
        e6v(e6scl(x, g)) == e6scl(e6v(x), g),
{
    lemma_cxi_l(x.2, g);
}

pub(crate) proof fn lemma_e6scl_add(x: C6, y: C6, g: C2)
    ensures
        e6scl(e6add(x, y), g) == e6add(e6scl(x, g), e6scl(y, g)),
{
    lemma_cdist_l(x.0, y.0, g);
    lemma_cdist_l(x.1, y.1, g);
    lemma_cdist_l(x.2, y.2, g);
}

pub(crate) proof fn lemma_e6scl_cong(x: C6, x2: C6, g: C2, g2: C2)
    requires
        cong6(x, x2),
        cong(g, g2),
    ensures
        cong6(e6scl(x, g), e6scl(x2, g2)),
{
    lemma_cmul_cong(x.0, x2.0, g, g2);
    lemma_cmul_cong(x.1, x2.1, g, g2);
    lemma_cmul_cong(x.2, x2.2, g, g2);
}

/// `f(v z) = g1 v f(z)`, modulo `q`.
pub(crate) proof fn lemma_e6frob_v(z: C6, k: nat)
    requires
        1 <= k <= 3,
    ensures
        cong6(e6frob(e6v(z), k), e6scl(e6v(e6frob(z, k)), g1(k))),
{
    lemma_coefficients_cong(k);
    let (a, b, fx) = (g1(k), g2(k), cf((9, 1), k));
    let (z0, z1, z2) = (cf(z.0, k), cf(z.1, k), cf(z.2, k));
    lemma_cf_xi(z.2, k);
    lemma_cxi_l(cmul(z2, b), a);
    lemma_perm3(a, b, z2);
    lemma_cxi_l(cmul(a, b), z2);
    lemma_cmul_cong(cxi(cmul(a, b)), fx, z2, z2);
    lemma_cmul_assoc(z1, a, a);
    lemma_cmul_cong(z1, z1, cmul(a, a), b);
}

/// The Frobenius map on `Fq12` over the integers.
pub(crate) open spec fn e12frob(x: C12, k: nat) -> C12 {
    (e6frob(x.0, k), e6scl(e6frob(x.1, k), gw(k)))
}

pub(crate) proof fn lemma_fq12_frob_cong(a: Fq12V, k: nat)
    ensures
        cong12(iv12(fq12_frob(a, k)), e12frob(iv12(a), k)),
        fq6_reduced(a.0) && fq6_reduced(a.1) ==> fq6_reduced(fq12_frob(a, k).0) && fq6_reduced(
            fq12_frob(a, k).1,
        ),
{
    lemma_fq6_frob_cong(a.0, k);
    lemma_fq6_frob_cong(a.1, k);
    let f1 = fq6_frob(a.1, k);
    lemma_fq2_mul_cong(f1.0, fq12_frob_c1(k));
    lemma_fq2_mul_cong(f1.1, fq12_frob_c1(k));
    lemma_fq2_mul_cong(f1.2, fq12_frob_c1(k));
    lemma_e6scl_cong(iv6(f1), e6frob(iv6(a.1), k), gw(k), gw(k));
    lemma_fq2_mul_bound();
}

pub(crate) proof fn lemma_e12frob_cong(x: C12, x2: C12, k: nat)
    requires
        cong12(x, x2),
    ensures
        cong12(e12frob(x, k), e12frob(x2, k)),
{
    lemma_e6frob_cong(x.0, x2.0, k);
    lemma_e6frob_cong(x.1, x2.1, k);
    lemma_e6scl_cong(e6frob(x.1, k), e6frob(x2.1, k), gw(k), gw(k));
}

/// `f(v (x1 y1)) = g1 v (f(x1) f(y1))`, modulo `q`.
proof fn lemma_e12frob_v_part(x1: C6, y1: C6, k: nat)
    requires
        1 <= k <= 3,
    ensures
        cong6(
            e6frob(e6v(e6mul(x1, y1)), k),
            e6scl(e6v(e6mul(e6frob(x1, k), e6frob(y1, k))), g1(k)),
        ),
{
    let m = e6mul(e6frob(x1, k), e6frob(y1, k));
    lemma_e6frob_v(e6mul(x1, y1), k);
    lemma_e6frob_mul(x1, y1, k);
    lemma_e6v_cong(e6frob(e6mul(x1, y1), k), m);
    lemma_e6scl_cong(e6v(e6frob(e6mul(x1, y1), k)), e6v(m), g1(k), g1(k));
}

/// `v ((w x)(w y)) = g1 v (x y)`, modulo `q`.
proof fn lemma_e12frob_w_part(fx1: C6, fy1: C6, k: nat)
    requires
        1 <= k <= 3,
    ensures
        cong6(
            e6v(e6mul(e6scl(fx1, gw(k)), e6scl(fy1, gw(k)))),
            e6scl(e6v(e6mul(fx1, fy1)), g1(k)),
        ),
{
    lemma_coefficients_cong(k);
    let (a, w) = (g1(k), gw(k));
    let m = e6mul(fx1, fy1);
    lemma_e6scl_mul_l(fx1, e6scl(fy1, w), w);
    lemma_e6scl_mul_r(fx1, fy1, w);
    lemma_e6scl_scl(m, w, w);
    lemma_e6scl_cong(m, m, cmul(w, w), a);
    lemma_e6v_scl(m, a);
    lemma_e6v_cong(e6scl(m, cmul(w, w)), e6scl(m, a));
}

/// The first half of `lemma_e12frob_mul`.
proof fn lemma_e12frob_mul_c0(x0: C6, x1: C6, y0: C6, y1: C6, k: nat)
    requires
        1 <= k <= 3,
    ensures
        cong6(
            e6frob(e6add(e6mul(x0, y0), e6v(e6mul(x1, y1))), k),
            e6add(
                e6mul(e6frob(x0, k), e6frob(y0, k)),
                e6v(e6mul(e6scl(e6frob(x1, k), gw(k)), e6scl(e6frob(y1, k), gw(k)))),
            ),
        ),
{
    let (fx0, fx1, fy0, fy1) = (e6frob(x0, k), e6frob(x1, k), e6frob(y0, k), e6frob(y1, k));
    lemma_e6frob_add(e6mul(x0, y0), e6v(e6mul(x1, y1)), k);
    lemma_e6frob_mul(x0, y0, k);
    lemma_e12frob_v_part(x1, y1, k);
    lemma_e12frob_w_part(fx1, fy1, k);
    lemma_e6add_cong(
        e6frob(e6mul(x0, y0), k),
        e6mul(fx0, fy0),
        e6frob(e6v(e6mul(x1, y1)), k),
        e6v(e6mul(e6scl(fx1, gw(k)), e6scl(fy1, gw(k)))),
    );
}

/// The second half of `lemma_e12frob_mul`.
proof fn lemma_e12frob_mul_c1(x0: C6, x1: C6, y0: C6, y1: C6, k: nat)
    requires
        1 <= k <= 3,
    ensures
        cong6(
            e6scl(e6frob(e6add(e6mul(x0, y1), e6mul(x1, y0)), k), gw(k)),
            e6add(
                e6mul(e6frob(x0, k), e6scl(e6frob(y1, k), gw(k))),
                e6mul(e6scl(e6frob(x1, k), gw(k)), e6frob(y0, k)),
            ),
        ),
{
    let w = gw(k);
    let (fx0, fx1, fy0, fy1) = (e6frob(x0, k), e6frob(x1, k), e6frob(y0, k), e6frob(y1, k));
    lemma_e6frob_add(e6mul(x0, y1), e6mul(x1, y0), k);
    lemma_e6scl_add(e6frob(e6mul(x0, y1), k), e6frob(e6mul(x1, y0), k), w);
    lemma_e6frob_mul(x0, y1, k);
    lemma_e6frob_mul(x1, y0, k);
    lemma_e6scl_cong(e6frob(e6mul(x0, y1), k), e6mul(fx0, fy1), w, w);
    lemma_e6scl_cong(e6frob(e6mul(x1, y0), k), e6mul(fx1, fy0), w, w);
    lemma_e6add_cong(
        e6scl(e6frob(e6mul(x0, y1), k), w),
        e6scl(e6mul(fx0, fy1), w),
        e6scl(e6frob(e6mul(x1, y0), k), w),
        e6scl(e6mul(fx1, fy0), w),
    );
    lemma_e6scl_mul_r(fx0, fy1, w);
    lemma_e6scl_mul_l(fx1, fy0, w);
}

/// The Frobenius map on `Fq12` multiplies, modulo `q`.
pub(crate) proof fn lemma_e12frob_mul(x: C12, y: C12, k: nat)
    requires
        1 <= k <= 3,
    ensures
        cong12(e12frob(e12mul(x, y), k), e12mul(e12frob(x, k), e12frob(y, k))),
{
    reveal(e12mul);
    lemma_e12frob_mul_c0(x.0, x.1, y.0, y.1, k);
    lemma_e12frob_mul_c1(x.0, x.1, y.0, y.1, k);
}

/// The Frobenius map on `Fq12` multiplies.
pub(crate) proof fn lemma_fq12_frob_mul(a: Fq12V, b: Fq12V, k: nat)
    requires
        1 <= k <= 3,
    ensures
        fq12_frob(fq12_mul(a, b), k) == fq12_mul(fq12_frob(a, k), fq12_frob(b, k)),
{
    let ab = fq12_mul(a, b);
    let (fa, fb) = (fq12_frob(a, k), fq12_frob(b, k));
    lemma_fq12_mul_reduced(a, b);
    lemma_fq12_frob_cong(ab, k);
    lemma_fq12_mul_cong(a, b);
    lemma_e12frob_cong(iv12(ab), e12mul(iv12(a), iv12(b)), k);
    lemma_e12frob_mul(iv12(a), iv12(b), k);
    lemma_fq12_frob_cong(a, k);
    lemma_fq12_frob_cong(b, k);
    lemma_e12mul_cong(iv12(fa), e12frob(iv12(a), k), iv12(fb), e12frob(iv12(b), k));
    lemma_fq12_mul_cong(fa, fb);
    lemma_fq12_mul_reduced(fa, fb);
    lemma_reduced_eq12(fq12_frob(ab, k), fq12_mul(fa, fb));
}

// ---------------------------------------------------------------------------------------------
// The conjugate, powers and inverses of products
proof fn lemma_fq6_neg_reduced(a: Fq6V)
    ensures
        fq6_reduced(fq6_neg(a)),
{
    lemma_moduli();
    let m = fq_modulus() as int;
    lemma_mod_bound(0 - a.0.0, m);
    lemma_mod_bound(0 - a.0.1, m);
    lemma_mod_bound(0 - a.1.0, m);
    lemma_mod_bound(0 - a.1.1, m);
    lemma_mod_bound(0 - a.2.0, m);
    lemma_mod_bound(0 - a.2.1, m);
}

/// The conjugate of a product is the product of the conjugates.
pub(crate) proof fn lemma_fq12_conj_mul(a: Fq12V, b: Fq12V)
    ensures
        fq12_conj(fq12_mul(a, b)) == fq12_mul(fq12_conj(a), fq12_conj(b)),
        fq12_reduced(fq12_conj(fq12_mul(a, b))),
{
    let ab = fq12_mul(a, b);
    let (ca, cb) = (fq12_conj(a), fq12_conj(b));
    let (x0, x1, y0, y1) = (iv6(a.0), iv6(a.1), iv6(b.0), iv6(b.1));
    lemma_fq12_mul_reduced(a, b);
    lemma_fq6_neg_reduced(ab.1);
    lemma_fq12_mul_reduced(ca, cb);
    // the product and the conjugates, over the integers
    lemma_fq12_mul_cong(a, b);
    lemma_fq6_neg_cong(ab.1);
    lemma_e6neg_cong(iv6(ab.1), e12mul(iv12(a), iv12(b)).1);
    lemma_fq6_neg_cong(a.1);
    lemma_fq6_neg_cong(b.1);
    let (ex, ey) = ((x0, e6neg(x1)), (y0, e6neg(y1)));
    lemma_fq12_mul_cong(ca, cb);
    lemma_e12mul_cong(iv12(ca), ex, iv12(cb), ey);
    // `(x0 - x1 w)(y0 - y1 w) = (x0 y0 + v x1 y1) - (x0 y1 + x1 y0) w`
    reveal(e12mul);
    lemma_e6neg_r(x1, y1);
    lemma_e6neg_r(e6neg(x1), y1);
    lemma_e6mul_comm(e6neg(x1), y1);
    lemma_e6mul_comm(e6neg(x1), e6neg(y1));
    lemma_e6neg_r(y1, x1);
    lemma_e6mul_comm(y1, x1);
    lemma_e6neg_r(y1, e6neg(x1));
    lemma_e6neg_r(x0, y1);
    lemma_e6mul_comm(e6neg(x1), y0);
    lemma_e6neg_r(y0, x1);
    lemma_e6mul_comm(y0, x1);
    lemma_reduced_eq12(fq12_conj(ab), fq12_mul(ca, cb));
}

/// The power of a product is the product of the powers.
pub(crate) proof fn lemma_fq12_pow_mul(a: Fq12V, b: Fq12V, n: nat)
    ensures
        fq12_pow(fq12_mul(a, b), n) == fq12_mul(fq12_pow(a, n), fq12_pow(b, n)),
        fq12_reduced(fq12_pow(a, n)),
    decreases n,
{
    lemma_fq12_products_reduced();
    if n == 0 {
        lemma_fq12_mul_one(fq12_one());
    } else {
        lemma_fq12_pow_mul(a, b, n / 2);
        let (x, y) = (fq12_pow(a, n / 2), fq12_pow(b, n / 2));
        lemma_fq12_mul4(x, y, x, y);
        lemma_fq12_mul4(a, b, fq12_mul(x, x), fq12_mul(y, y));
    }
}

/// `conj(x^u)` of a product is the product of those of the factors.
pub(crate) proof fn lemma_fq12_exp_by_neg_z_mul(a: Fq12V, b: Fq12V)
    ensures
        fq12_exp_by_neg_z(fq12_mul(a, b)) == fq12_mul(fq12_exp_by_neg_z(a), fq12_exp_by_neg_z(b)),
{
    let u = crate::fq12::bn_u();
    lemma_fq12_pow_mul(a, b, u);
    lemma_fq12_conj_mul(fq12_pow(a, u), fq12_pow(b, u));
}

/// The inverses that `fq12_inv` gives are reduced.
proof fn lemma_fq12_inv_reduced(a: Fq12V)
    ensures
        fq12_inv(a) matches Some(b) ==> fq12_reduced(b),
{
    if fq12_inv(a) is Some {
        let n = crate::fq12::fq6_sub(
            fq6_mul(a.0, a.0),
            crate::fq12::fq6_mul_by_v(fq6_mul(a.1, a.1)),
        );
        let t = crate::fq12::fq6_inv(n)->Some_0;
        lemma_fq2_mul_bound();
        lemma_fq6_neg_reduced(fq6_mul(a.1, t));
    }
}

/// The inverse of a product is the product of the inverses.
pub(crate) proof fn lemma_fq12_inv_mul(a: Fq12V, b: Fq12V)
    requires
        fq12_inv(a) is Some,
        fq12_inv(b) is Some,
        fq12_inv(fq12_mul(a, b)) is Some,
    ensures
        fq12_inv(fq12_mul(a, b))->Some_0 == fq12_mul(fq12_inv(a)->Some_0, fq12_inv(b)->Some_0),
{
    let ab = fq12_mul(a, b);
    let (u, ia, ib) = (fq12_inv(ab)->Some_0, fq12_inv(a)->Some_0, fq12_inv(b)->Some_0);
    let p = fq12_mul(ia, ib);
    lemma_fq12_products_reduced();
    lemma_fq12_inv_correct(a);
    lemma_fq12_inv_correct(b);
    lemma_fq12_inv_correct(ab);
    lemma_fq12_inv_reduced(ab);
    lemma_fq12_mul_one(fq12_one());
    lemma_fq12_mul4(a, ia, b, ib);
    lemma_fq12_mul_assoc(u, ab, p);
    lemma_fq12_mul_comm(u, ab);
    lemma_fq12_mul_one(u);
    assert(fq12_reduced(fq12_mul(ia, ib)));
    lemma_fq12_mul_one(p);
}

// ---------------------------------------------------------------------------------------------
// The final exponentiation of a product
/// The easy part of the final exponentiation maps a product to the product of the images.
pub(crate) proof fn lemma_final_exp_first_mul(a: Fq12V, b: Fq12V)
    requires
        fq12_inv(a) is Some,
        fq12_inv(b) is Some,
        fq12_inv(fq12_mul(a, b)) is Some,
    ensures
        fq12_final_exp_first(fq12_mul(a, b))->Some_0 == fq12_mul(
            fq12_final_exp_first(a)->Some_0,
            fq12_final_exp_first(b)->Some_0,
        ),
{
    let ab = fq12_mul(a, b);
    let (ia, ib) = (fq12_inv(a)->Some_0, fq12_inv(b)->Some_0);
    let ca = fq12_mul(fq12_conj(a), ia);
    let cb = fq12_mul(fq12_conj(b), ib);
    lemma_fq12_inv_mul(a, b);
    lemma_fq12_conj_mul(a, b);
    lemma_fq12_mul4(fq12_conj(a), fq12_conj(b), ia, ib);
    lemma_fq12_frob_mul(ca, cb, 2);
    lemma_fq12_mul4(fq12_frob(ca, 2), fq12_frob(cb, 2), ca, cb);
}

/// The hard part of the final exponentiation maps a product to the product of the images.
pub(crate) proof fn lemma_final_exp_last_mul(x: Fq12V, y: Fq12V)
    ensures
        fq12_final_exp_last(fq12_mul(x, y)) == fq12_mul(
            fq12_final_exp_last(x),
            fq12_final_exp_last(y),
        ),
{
    let z = fq12_mul(x, y);
    // the chain of `fq12_final_exp_last` for `x`, `y` and `z`
    let (ax, ay, az) = (fq12_exp_by_neg_z(x), fq12_exp_by_neg_z(y), fq12_exp_by_neg_z(z));
    lemma_fq12_exp_by_neg_z_mul(x, y);
    let (bx, by, bz) = (fq12_mul(ax, ax), fq12_mul(ay, ay), fq12_mul(az, az));
    lemma_fq12_mul4(ax, ay, ax, ay);
    let (cx, cy, cz) = (fq12_mul(bx, bx), fq12_mul(by, by), fq12_mul(bz, bz));
    lemma_fq12_mul4(bx, by, bx, by);
    let (dx, dy, dz) = (fq12_mul(cx, bx), fq12_mul(cy, by), fq12_mul(cz, bz));
    lemma_fq12_mul4(cx, cy, bx, by);
    let (ex, ey, ez) = (fq12_exp_by_neg_z(dx), fq12_exp_by_neg_z(dy), fq12_exp_by_neg_z(dz));
    lemma_fq12_exp_by_neg_z_mul(dx, dy);
    let (fx, fy, fz) = (fq12_mul(ex, ex), fq12_mul(ey, ey), fq12_mul(ez, ez));
    lemma_fq12_mul4(ex, ey, ex, ey);
    let (gx, gy, gz) = (fq12_exp_by_neg_z(fx), fq12_exp_by_neg_z(fy), fq12_exp_by_neg_z(fz));
    lemma_fq12_exp_by_neg_z_mul(fx, fy);
    let (hx, hy, hz) = (fq12_conj(dx), fq12_conj(dy), fq12_conj(dz));
    lemma_fq12_conj_mul(dx, dy);
    let (ix, iy, iz) = (fq12_conj(gx), fq12_conj(gy), fq12_conj(gz));
    lemma_fq12_conj_mul(gx, gy);
    let (jx, jy, jz) = (fq12_mul(ix, ex), fq12_mul(iy, ey), fq12_mul(iz, ez));
    lemma_fq12_mul4(ix, iy, ex, ey);
    let (kx, ky, kz) = (fq12_mul(jx, hx), fq12_mul(jy, hy), fq12_mul(jz, hz));
    lemma_fq12_mul4(jx, jy, hx, hy);
    let (lx, ly, lz) = (fq12_mul(kx, bx), fq12_mul(ky, by), fq12_mul(kz, bz));
    lemma_fq12_mul4(kx, ky, bx, by);
    let (mx, my, mz) = (fq12_mul(kx, ex), fq12_mul(ky, ey), fq12_mul(kz, ez));
    lemma_fq12_mul4(kx, ky, ex, ey);
    let (nx, ny, nz) = (fq12_mul(x, mx), fq12_mul(y, my), fq12_mul(z, mz));
    lemma_fq12_mul4(x, y, mx, my);
    let (ox, oy, oz) = (fq12_frob(lx, 1), fq12_frob(ly, 1), fq12_frob(lz, 1));
    lemma_fq12_frob_mul(lx, ly, 1);
    let (px, py, pz) = (fq12_mul(ox, nx), fq12_mul(oy, ny), fq12_mul(oz, nz));
    lemma_fq12_mul4(ox, oy, nx, ny);
    let (qx, qy, qz) = (fq12_frob(kx, 2), fq12_frob(ky, 2), fq12_frob(kz, 2));
    lemma_fq12_frob_mul(kx, ky, 2);
    let (rx, ry, rz) = (fq12_mul(qx, px), fq12_mul(qy, py), fq12_mul(qz, pz));
    lemma_fq12_mul4(qx, qy, px, py);
    let (sx, sy, sz) = (fq12_conj(x), fq12_conj(y), fq12_conj(z));
    lemma_fq12_conj_mul(x, y);
    let (tx, ty, tz) = (fq12_mul(sx, lx), fq12_mul(sy, ly), fq12_mul(sz, lz));
    lemma_fq12_mul4(sx, sy, lx, ly);
    let (ux, uy, uz) = (fq12_frob(tx, 3), fq12_frob(ty, 3), fq12_frob(tz, 3));
    lemma_fq12_frob_mul(tx, ty, 3);
    lemma_fq12_mul4(ux, uy, rx, ry);
}

/// The final exponentiation maps a product to the product of the images, wherever the factors
/// and the product have inverses.
pub(crate) proof fn lemma_final_exp_mul(a: Fq12V, b: Fq12V)
    requires
        fq12_final_exp(a) is Some,
        fq12_final_exp(b) is Some,
        fq12_final_exp(fq12_mul(a, b)) is Some,
    ensures
        fq12_final_exp(fq12_mul(a, b))->Some_0 == fq12_mul(
            fq12_final_exp(a)->Some_0,
            fq12_final_exp(b)->Some_0,
        ),
{
    reveal(fq12_final_exp);
    lemma_final_exp_first_mul(a, b);
    lemma_final_exp_last_mul(fq12_final_exp_first(a)->Some_0, fq12_final_exp_first(b)->Some_0);
}

} // verus!
