use bn::{AffineG2, CurveError, FieldError, Fq, Fq2, GroupError, G1, G2};

fn fq(s: &str) -> Fq {
    Fq::from_str(s).unwrap()
}

#[test]
fn fq2_from_slice_errors() {
    assert_eq!(Fq2::from_slice(&[0u8; 63]), Err(FieldError::InvalidU512Encoding));
    // c1 = q is not below q
    let mut bytes = [0u8; 64];
    bytes[0] = 0xff;
    assert!(Fq2::from_slice(&bytes).is_err());
    let mut one = [0u8; 64];
    one[63] = 1;
    assert_eq!(Fq2::from_slice(&one).unwrap(), Fq2::one());
}

#[test]
fn g1_from_compressed_errors() {
    // wrong length
    assert_eq!(G1::from_compressed(&[2u8; 32]), Err(CurveError::InvalidEncoding));
    // x not below q
    let mut big = [0xffu8; 33];
    big[0] = 2;
    assert_eq!(G1::from_compressed(&big), Err(CurveError::Field(FieldError::NotMember)));
    // x = 1 is the generator's x: a bad sign byte
    let mut gen = [0u8; 33];
    gen[32] = 1;
    gen[0] = 5;
    assert_eq!(G1::from_compressed(&gen), Err(CurveError::InvalidEncoding));
    gen[0] = 2;
    let p = G1::from_compressed(&gen).unwrap();
    assert_eq!(p.y(), fq("2"));
    // x = 4: 4^3 + 3 = 67 has no square root modulo q
    let mut four = [0u8; 33];
    four[0] = 2;
    four[32] = 4;
    assert_eq!(G1::from_compressed(&four), Err(CurveError::NotMember));
}

#[test]
fn g2_not_in_subgroup() {
    let x = Fq2::new(fq("1"), fq("0"));
    let y = Fq2::new(
        fq("18278151005453108793778860132295291098363647455926340152056652516292830556603"),
        fq("5912654199736721486680175016176231956195085055698687135131307249486702594212"),
    );
    assert_eq!(AffineG2::new(x, y), Err(GroupError::NotInSubgroup));
    // the same point, compressed, is refused
    let mut bytes = [0u8; 65];
    bytes[0] = 10;
    bytes[64] = 1;
    assert_eq!(G2::from_compressed(&bytes), Err(CurveError::NotMember));
    assert_eq!(G2::from_compressed(&bytes[..64]), Err(CurveError::InvalidEncoding));
}
