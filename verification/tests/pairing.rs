use bn::{
    miller_loop_batch, pairing, pairing_batch, pairing_batch_checked, pairing_checked, CurveError, Fr,
    Group, Gt, G1, G2,
};

fn fr(s: &str) -> Fr {
    Fr::from_str(s).unwrap()
}

#[test]
fn pairing_is_bilinear() {
    let p = G1::one();
    let q = G2::one();
    let e = pairing(p, q);
    assert!(e != Gt::one());
    assert_eq!(pairing(p * fr("2"), q), e * e);
    assert_eq!(pairing(p, q * fr("3")), e * e * e);
}

#[test]
fn pairing_at_infinity_is_one() {
    assert_eq!(pairing(G1::zero(), G2::one()), Gt::one());
    assert_eq!(pairing(G1::one(), G2::zero()), Gt::one());
    assert_eq!(pairing_batch(&[]), Gt::one());
    assert_eq!(pairing_batch(&[(G1::zero(), G2::one()), (G1::one(), G2::zero())]), Gt::one());
}

#[test]
fn pairing_batch_of_one_is_the_pairing() {
    let p = G1::one() * fr("5");
    let q = G2::one();
    assert_eq!(pairing_batch(&[(p, q)]), pairing(p, q));
    // a pair at infinity does not change the product
    assert_eq!(pairing_batch(&[(p, q), (G1::zero(), q)]), pairing(p, q));
}

#[test]
fn pairing_batch_product_of_inverse_pairs_is_one() {
    let p = G1::one();
    let q = G2::one();
    // e(P, Q) * e(-P, Q) == 1
    assert_eq!(pairing_batch(&[(p, q), (-p, q)]), Gt::one());
    // e(2P, Q) * e(P, -2Q) == 1
    let two = fr("2");
    assert_eq!(pairing_batch(&[(p * two, q), (p, -(q * two))]), Gt::one());
}

#[test]
fn miller_loop_batch_then_final_exponentiation() {
    let p = G1::one();
    let q = G2::one();
    let f = miller_loop_batch(&[(q, p)]).unwrap();
    assert_eq!(f.final_exponentiation().unwrap(), pairing(p, q));
    assert_eq!(miller_loop_batch(&[(G2::zero(), p)]), Err(CurveError::ToAffineConversion));
    assert_eq!(miller_loop_batch(&[(q, p), (q, G1::zero())]), Err(CurveError::ToAffineConversion));
    assert_eq!(miller_loop_batch(&[]).unwrap(), Gt::one());
}

#[test]
fn gt_pow_and_inverse() {
    let e = pairing(G1::one(), G2::one());
    assert_eq!(e.pow(fr("0")), Gt::one());
    assert_eq!(e.pow(fr("3")), e * e * e);
    assert_eq!(e * e.inverse().unwrap(), Gt::one());
    // the target group has order r
    let r_minus_one = -Fr::one();
    assert_eq!(e.pow(r_minus_one) * e, Gt::one());
    assert_eq!(Gt::one().final_exponentiation().unwrap(), Gt::one());
}

#[test]
fn gt_multiplication_laws() {
    let e1 = pairing(G1::one(), G2::one());
    let e2 = pairing(G1::one() * fr("2"), G2::one());
    let e3 = pairing(G1::one(), G2::one() * fr("5"));
    assert_eq!(e1 * e2, e2 * e1);
    assert_eq!((e1 * e2) * e3, e1 * (e2 * e3));
    assert_eq!(e1 * Gt::one(), e1);
    assert_eq!(Gt::one() * e1, e1);
}

#[test]
fn miller_loop_batch_is_the_product_of_single_loops() {
    let p1 = G1::one();
    let q1 = G2::one();
    let p2 = G1::one() * fr("3");
    let q2 = G2::one() * fr("7");
    let both = miller_loop_batch(&[(q1, p1), (q2, p2)]).unwrap();
    let first = miller_loop_batch(&[(q1, p1)]).unwrap();
    let second = miller_loop_batch(&[(q2, p2)]).unwrap();
    assert_eq!(both, first * second);
    assert_eq!(pairing_batch(&[(p1, q1), (p2, q2)]), pairing(p1, q1) * pairing(p2, q2));
}

#[test]
fn final_exponentiation_is_multiplicative() {
    let f1 = miller_loop_batch(&[(G2::one(), G1::one())]).unwrap();
    let f2 = miller_loop_batch(&[(G2::one() * fr("4"), G1::one() * fr("9"))]).unwrap();
    let lhs = (f1 * f2).final_exponentiation().unwrap();
    let rhs = f1.final_exponentiation().unwrap() * f2.final_exponentiation().unwrap();
    assert_eq!(lhs, rhs);
}

#[test]
fn gt_one_stays_one() {
    let one = Gt::one();
    assert_eq!(one.pow(fr("12345")), one);
    assert_eq!(one.inverse().unwrap(), one);
    assert_eq!(one.final_exponentiation().unwrap(), one);
}

#[test]
fn gt_powers_add_and_multiply() {
    let e = pairing(G1::one(), G2::one());
    assert_eq!(e.pow(fr("0")), Gt::one());
    assert_eq!(e.pow(fr("1")), e);
    assert_eq!(e.pow(fr("3")) * e.pow(fr("4")), e.pow(fr("7")));
    assert_eq!(e.pow(fr("3")).pow(fr("5")), e.pow(fr("15")));
}

#[test]
fn pairing_batch_is_the_product_in_any_order() {
    let (p1, q1) = (G1::one() * fr("2"), G2::one());
    let (p2, q2) = (G1::one(), G2::one() * fr("3"));
    let (p3, q3) = (G1::one() * fr("5"), G2::one() * fr("7"));
    let product = pairing(p1, q1) * pairing(p2, q2) * pairing(p3, q3);
    assert_eq!(pairing_batch(&[(p1, q1), (p2, q2), (p3, q3)]), product);
    assert_eq!(pairing_batch(&[(p2, q2), (p1, q1), (p3, q3)]), product);
    assert_eq!(pairing_batch(&[(p3, q3), (p2, q2), (p1, q1)]), product);
}

#[test]
fn checked_pairings_agree_with_the_plain_ones() {
    let p = G1::one() * fr("3");
    let q = G2::one() * fr("4");
    assert_eq!(pairing_checked(p, q), Some(pairing(p, q)));
    assert_eq!(pairing_checked(G1::zero(), q), Some(Gt::one()));
    assert_eq!(pairing_batch_checked(&[(p, q), (-p, q)]), Some(Gt::one()));
    assert_eq!(pairing_batch_checked(&[]), Some(Gt::one()));
}
