use bn::arith::U256;
use bn::{FieldError, Fq, Fr};

fn fq(s: &str) -> Fq {
    Fq::from_str(s).unwrap()
}

#[test]
fn fq_arithmetic_wraps_at_the_modulus() {
    let minus_one = fq("21888242871839275222246405745257275088696311157297823662689037894645226208582");
    assert_eq!(minus_one + Fq::one(), Fq::zero());
    assert_eq!(-Fq::one(), minus_one);
    assert_eq!(fq("7") * fq("6"), fq("42"));
    assert_eq!(fq("5") - fq("7"), -fq("2"));
    assert_eq!(minus_one * minus_one, Fq::one());
}

#[test]
fn fq_from_str_rejects_non_digits() {
    assert!(Fq::from_str("12a").is_none());
    assert_eq!(Fq::from_str("").unwrap(), Fq::zero());
    // the modulus itself reduces to zero
    assert_eq!(fq("21888242871839275222246405745257275088696311157297823662689037894645226208583"), Fq::zero());
}

#[test]
fn fq_inverse_and_sqrt() {
    let a = fq("123456789");
    let inv = a.inverse().unwrap();
    assert_eq!(a * inv, Fq::one());
    assert!(Fq::zero().inverse().is_none());
    let sq = a * a;
    let r = sq.sqrt().unwrap();
    assert!(r == a || r == -a);
    // -1 is not a square since q = 3 mod 4
    assert!((-Fq::one()).sqrt().is_none());
}

#[test]
fn fq_bytes_round_trip() {
    let a = fq("1234567890123456789012345678901234567890");
    let mut buf = [0u8; 32];
    a.to_big_endian(&mut buf).unwrap();
    assert_eq!(Fq::from_slice(&buf).unwrap(), a);
    let mut short = [0u8; 31];
    assert_eq!(a.to_big_endian(&mut short), Err(FieldError::InvalidSliceLength));
    assert_eq!(Fq::from_slice(&[0xffu8; 32]), Err(FieldError::NotMember));
    assert_eq!(Fq::from_slice(&[0u8; 33]), Err(FieldError::InvalidSliceLength));
}

#[test]
fn fr_montgomery_bytes() {
    let one = Fr::one();
    let mut buf = [0u8; 32];
    one.to_big_endian(&mut buf).unwrap();
    // 2^256 mod r
    let expected = U256::from_slice(&buf).unwrap();
    assert_eq!(expected, U256([0xac96341c4ffffffb, 0x36fc76959f60cd29, 0x666ea36f7879462e, 0x0e0a77c19a07df2f]));
}

#[test]
fn fr_pow_and_inverse() {
    let two = Fr::from_str("2").unwrap();
    let e = Fr::from_str("10").unwrap();
    assert_eq!(two.pow(e), Fr::from_str("1024").unwrap());
    assert_eq!(two * two.inverse().unwrap(), Fr::one());
}
