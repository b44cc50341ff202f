use bn::arith::U256;
use bn::{AffineG1, AffineG2, Fq, Fq2, Fr, Group, GroupError, G1, G2};

fn fr(s: &str) -> Fr {
    Fr::from_str(s).unwrap()
}

fn fq(s: &str) -> Fq {
    Fq::from_str(s).unwrap()
}

fn hex(s: &str) -> Vec<u8> {
    (0..s.len()).step_by(2).map(|i| u8::from_str_radix(&s[i..i + 2], 16).unwrap()).collect()
}

#[test]
fn g1_group_laws() {
    let p = G1::one() * fr("7");
    assert_eq!(-(-p), p);
    assert_eq!(p + G1::zero(), p);
    assert_eq!(G1::zero() + p, p);
    assert!((p - p).is_zero());
    assert_eq!(p * fr("1"), p);
    assert!((p * fr("0")).is_zero());
    assert_eq!(p + p, p * fr("2"));
    assert_eq!(G1::one() * fr("3") + G1::one() * fr("4"), p);
    // the generator has order r
    assert!((G1::one() * (-Fr::one()) + G1::one()).is_zero());
}

#[test]
fn g2_group_laws() {
    let p = G2::one() * fr("5");
    assert_eq!(-(-p), p);
    assert_eq!(p + G2::zero(), p);
    assert_eq!(G2::zero() + p, p);
    assert!((p - p).is_zero());
    assert_eq!(p * fr("1"), p);
    assert!((p * fr("0")).is_zero());
    assert_eq!(G2::one() * fr("2") + G2::one() * fr("3"), p);
}

#[test]
fn g1_affine_conversions() {
    let p = G1::one() * fr("11");
    let a = AffineG1::from_jacobian(p).unwrap();
    let back = G1::from(a);
    assert_eq!(back, p);
    assert_eq!(back.z(), Fq::one());
    assert_eq!(AffineG1::from_jacobian(back), Some(a));
    assert_eq!(AffineG1::from_jacobian(G1::zero()), None);
    let mut n = p;
    n.normalize();
    assert_eq!(n, p);
    assert_eq!(n.z(), Fq::one());
    assert_eq!(AffineG1::new(fq("1"), fq("3")), Err(GroupError::NotOnCurve));
    assert_eq!(AffineG1::new(fq("1"), fq("2")).unwrap(), AffineG1::new_unchecked(fq("1"), fq("2")));
}

#[test]
fn g2_affine_conversions() {
    let p = G2::one() * fr("13");
    let a = AffineG2::from_jacobian(p).unwrap();
    let back = G2::from(a);
    assert_eq!(back, p);
    assert_eq!(back.z(), Fq2::one());
    assert_eq!(AffineG2::from_jacobian(G2::zero()), None);
    assert_eq!(AffineG2::new(a.x(), a.y()).unwrap(), a);
    assert_eq!(AffineG2::new(a.x(), a.x()), Err(GroupError::NotOnCurve));
    let mut n = p;
    n.normalize();
    assert_eq!(n, p);
}

#[test]
fn g1_decompress_sign_reflects() {
    let x = "0230644e72e131a029b85045b68181585d97816a916871ca8d3c208c16d87cfd46";
    let even = G1::from_compressed(&hex(x)).unwrap();
    let odd = G1::from_compressed(&hex(&format!("03{}", &x[2..]))).unwrap();
    assert_eq!(odd, -even);
    assert!(G1::from_compressed(&hex(&format!("04{}", &x[2..]))).is_err());
    assert!(G1::from_compressed(&hex(&x[..64])).is_err());
}

#[test]
fn u256_bits_and_bytes() {
    let mut x = U256::from_u64(5);
    assert_eq!(x.get_bit(0), Some(true));
    assert_eq!(x.get_bit(1), Some(false));
    assert!(x.set_bit(1, true));
    assert_eq!(x, U256::from_u64(7));
    assert!(x.set_bit(255, true));
    assert_eq!(x.get_bit(255), Some(true));
    assert!(!x.set_bit(256, true));
    assert_eq!(x.get_bit(256), None);
    let mut buf = [0u8; 32];
    x.to_big_endian(&mut buf).unwrap();
    assert_eq!(buf[0], 0x80);
    assert_eq!(buf[31], 7);
    assert_eq!(U256::from_slice(&buf).unwrap(), x);
}

#[test]
fn fq2_i_squared_is_minus_one() {
    assert_eq!(Fq2::i() * Fq2::i(), -Fq2::one());
    let a = Fq2::new(fq("3"), fq("4"));
    assert_eq!(a.real_part(), fq("3"));
    assert_eq!(a.imaginary(), fq("4"));
}

#[test]
fn g1_addition_commutes_and_doubles() {
    let p = G1::one() * fr("7");
    let q = G1::one() * fr("11");
    assert_eq!(p + q, q + p);
    assert_eq!(p + q, G1::one() * fr("18"));
    // the doubling branch: the same point written with another z
    let mut r = p;
    r.normalize();
    assert_eq!(p + r, r + p);
    assert_eq!(p + p, p * fr("2"));
    assert_eq!(G1::zero() + G1::zero(), G1::zero() * fr("2"));
}

#[test]
fn g2_addition_doubles() {
    let p = G2::one() * fr("5");
    assert_eq!(p + p, p * fr("2"));
    assert_eq!(p + p, G2::one() * fr("10"));
}

#[test]
fn fq2_pow_steps() {
    let x = Fq2::new(fq("3"), fq("4"));
    assert_eq!(x.pow(U256::from_u64(0)), Fq2::one());
    assert_eq!(x.pow(U256::from_u64(1)), x);
    assert_eq!(x.pow(U256::from_u64(6)), x.pow(U256::from_u64(5)) * x);
    assert_eq!(x.pow(U256::from_u64(9)), x.pow(U256::from_u64(4)) * x.pow(U256::from_u64(5)));
    assert_eq!(Fq2::i().pow(U256::from_u64(2)), -Fq2::one());
}

#[test]
fn from_jacobian_none_only_at_infinity() {
    assert!(AffineG1::from_jacobian(G1::zero()).is_none());
    assert!(AffineG2::from_jacobian(G2::zero()).is_none());
    let p = G1::one() * fr("9");
    let a = AffineG1::from_jacobian(p).unwrap();
    assert_eq!(G1::from(a), p);
    let q = G2::one() * fr("9");
    let b = AffineG2::from_jacobian(q).unwrap();
    assert_eq!(G2::from(b), q);
}

#[test]
fn g2_addition_commutes() {
    let p = G2::one() * fr("7");
    let q = G2::one() * fr("11");
    assert_eq!(p + q, q + p);
    assert_eq!(p + q, G2::one() * fr("18"));
    let mut r = p;
    r.normalize();
    assert_eq!(p + r, r + p);
    assert_eq!(p + G2::zero(), G2::zero() + p);
}

#[test]
fn g1_sum_is_the_chord_sum() {
    let mut p = G1::one() * fr("6");
    let mut q = G1::one() * fr("13");
    p.normalize();
    q.normalize();
    let (x1, y1, x2, y2) = (p.x(), p.y(), q.x(), q.y());
    let l = (y2 - y1) * (x2 - x1).inverse().unwrap();
    let x3 = l * l - x1 - x2;
    let y3 = l * (x1 - x3) - y1;
    let s = AffineG1::from_jacobian(p + q).unwrap();
    assert_eq!((s.x(), s.y()), (x3, y3));
}

#[test]
fn g1_double_is_the_tangent_double() {
    let mut p = G1::one() * fr("6");
    p.normalize();
    let (x, y) = (p.x(), p.y());
    let l = fq("3") * x * x * (y + y).inverse().unwrap();
    let x3 = l * l - (x + x);
    let y3 = l * (x - x3) - y;
    let s = AffineG1::from_jacobian(p + p).unwrap();
    assert_eq!((s.x(), s.y()), (x3, y3));
}
