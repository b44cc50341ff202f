use bn::arith::U256;
use bn::{Fq, Fq2, Fr};

fn fq(s: &str) -> Fq {
    Fq::from_str(s).unwrap()
}

#[test]
fn fq_negation_and_subtraction_laws() {
    let a = fq("98765432109876543210");
    let b = fq("21888242871839275222246405745257275088696311157297823662689037894645226200000");
    assert_eq!(-(-a), a);
    assert_eq!(a + (-a), Fq::zero());
    assert_eq!((a + b) - b, a);
    assert_eq!(a * Fq::one(), a);
    assert_eq!(-Fq::zero(), Fq::zero());
}

#[test]
fn fq_inverse_twice_gives_back() {
    let a = fq("31415926535897932384626433832795");
    let x = a.inverse().unwrap();
    assert_eq!(x.inverse().unwrap(), a);
    assert!(Fq::zero().inverse().is_none());
}

#[test]
fn fr_inverse_twice_gives_back() {
    let a = Fr::from_str("271828182845904523536").unwrap();
    let x = a.inverse().unwrap();
    assert_eq!(x.inverse().unwrap(), a);
    assert_eq!(a * x, Fr::one());
}

#[test]
fn fq_u256_round_trip() {
    let a = fq("123456789123456789123456789");
    assert_eq!(Fq::from_u256(a.into_u256()).unwrap(), a);
    assert!(Fq::from_u256(Fq::modulus()).is_err());
    let b = Fr::from_str("987654321").unwrap();
    assert_eq!(Fr::new(b.into_u256()).unwrap(), b);
}

#[test]
fn fr_bytes_read_back_in_montgomery_form() {
    // the bytes of `a` read back as `a * 2^256 mod r`
    let a = Fr::from_str("5").unwrap();
    let mut buf = [0u8; 32];
    a.to_big_endian(&mut buf).unwrap();
    let read = Fr::from_slice(&buf).unwrap();
    let mut one_buf = [0u8; 32];
    Fr::one().to_big_endian(&mut one_buf).unwrap();
    let r_mod = Fr::from_slice(&one_buf).unwrap();
    assert_eq!(read, a * r_mod);
}

#[test]
fn fq2_inverse_is_inverse() {
    let a = Fq2::new(fq("3"), fq("4"));
    let inv = a.inverse().unwrap();
    assert_eq!(a * inv, Fq2::one());
    assert!(Fq2::zero().inverse().is_none());
    assert_eq!(-(-a), a);
}

#[test]
fn u256_set_bit_then_get_bit() {
    for n in [0usize, 1, 63, 64, 127, 200, 255] {
        let mut x = U256::from_u64(0x5555);
        x.set_bit(n, true);
        assert_eq!(x.get_bit(n), Some(true));
        x.set_bit(n, false);
        assert_eq!(x.get_bit(n), Some(false));
    }
}

#[test]
fn fr_set_bit_keeps_the_word_unreduced() {
    // setting bit 255 of zero's word gives 2^255, which is above r and is written as it is
    let mut a = Fr::zero();
    a.set_bit(255, true);
    let mut buf = [0u8; 32];
    a.to_big_endian(&mut buf).unwrap();
    let mut expected = [0u8; 32];
    expected[0] = 0x80;
    assert_eq!(buf, expected);
    assert!(!a.is_zero());
    // the value is 2^255 * 2^-256 = 1/2 mod r, yet the word differs from the reduced one
    let half = Fr::from_str("2").unwrap().inverse().unwrap();
    assert_eq!(a.into_u256(), half.into_u256());
    assert_ne!(a, half);
    assert!(!a.equals(&half));
    // bits at or beyond 256 change nothing
    let mut b = Fr::one();
    b.set_bit(256, true);
    assert_eq!(b, Fr::one());
    // clearing the bit again gives zero back
    a.set_bit(255, false);
    assert_eq!(a, Fr::zero());
}

#[test]
fn fq_bytes_written_back_are_the_bytes_read() {
    let mut s = [0u8; 32];
    s[0] = 0x12;
    s[17] = 0xab;
    s[31] = 0x07;
    let a = Fq::from_slice(&s).unwrap();
    let mut buf = [0u8; 32];
    a.to_big_endian(&mut buf).unwrap();
    assert_eq!(buf, s);
    assert_eq!(Fq::from_slice(&buf).unwrap(), a);
}

#[test]
fn fr_value_determines_the_element() {
    let a = Fr::from_str("123456789").unwrap();
    let b = Fr::from_str("123456789").unwrap() + Fr::zero();
    assert_eq!(a.into_u256(), b.into_u256());
    assert_eq!(a, b);
    assert_eq!(Fr::new(a.into_u256()).unwrap(), a);
    let c = Fr::from_str("987654321").unwrap();
    assert_ne!(a.into_u256(), c.into_u256());
    assert_ne!(a, c);
}
