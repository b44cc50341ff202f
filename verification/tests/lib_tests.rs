use bn::{Fq, Fq2, G1, G2};

fn hex(s: &str) -> Vec<u8> {
    (0..s.len()).step_by(2).map(|i| u8::from_str_radix(&s[i..i + 2], 16).unwrap()).collect()
}

#[test]
fn g1_from_compressed() {
    let g1 = G1::from_compressed(&hex("0230644e72e131a029b85045b68181585d97816a916871ca8d3c208c16d87cfd46"))
        .expect("Invalid g1 decompress result");
    assert_eq!(g1.x(), Fq::from_str("21888242871839275222246405745257275088696311157297823662689037894645226208582").unwrap());
    assert_eq!(g1.y(), Fq::from_str("3969792565221544645472939191694882283483352126195956956354061729942568608776").unwrap());
    assert_eq!(g1.z(), Fq::one());
}

#[test]
fn g2_from_compressed() {
    let g2 = G2::from_compressed(
        &hex("0a023aed31b5a9e486366ea9988b05dba469c6206e58361d9c065bbea7d928204a761efc6e4fa08ed227650134b52c7f7dd0463963e8a4bf21f4899fe5da7f984a")
    ).expect("Valid g2 point hex encoding");

    assert_eq!(g2.x(),
               Fq2::new(
                   Fq::from_str("5923585509243758863255447226263146374209884951848029582715967108651637186684").unwrap(),
                   Fq::from_str("5336385337059958111259504403491065820971993066694750945459110579338490853570").unwrap(),
               )
    );

    assert_eq!(g2.y(),
               Fq2::new(
                   Fq::from_str("10374495865873200088116930399159835104695426846400310764827677226300185211748").unwrap(),
                   Fq::from_str("5256529835065685814318509161957442385362539991735248614869838648137856366932").unwrap(),
               )
    );

    // 0b prefix is point reflection on the curve
    let g2 = -G2::from_compressed(
        &hex("0b023aed31b5a9e486366ea9988b05dba469c6206e58361d9c065bbea7d928204a761efc6e4fa08ed227650134b52c7f7dd0463963e8a4bf21f4899fe5da7f984a")
    ).expect("Valid g2 point hex encoding");

    assert_eq!(g2.x(),
               Fq2::new(
                   Fq::from_str("5923585509243758863255447226263146374209884951848029582715967108651637186684").unwrap(),
                   Fq::from_str("5336385337059958111259504403491065820971993066694750945459110579338490853570").unwrap(),
               )
    );

    assert_eq!(g2.y(),
               Fq2::new(
                   Fq::from_str("10374495865873200088116930399159835104695426846400310764827677226300185211748").unwrap(),
                   Fq::from_str("5256529835065685814318509161957442385362539991735248614869838648137856366932").unwrap(),
               )
    );

    // valid point but invalid sign prefix
    assert!(
        G2::from_compressed(
            &hex("0c023aed31b5a9e486366ea9988b05dba469c6206e58361d9c065bbea7d928204a761efc6e4fa08ed227650134b52c7f7dd0463963e8a4bf21f4899fe5da7f984a")
        ).is_err()
    );
}
