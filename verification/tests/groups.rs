use dlc_venc_pairing::bls::{BlsScalar, G1Point, G2Point, GtPoint};
use dlc_venc_pairing::chain::{ChainPoint, ChainScalar};

fn hex(bytes: &[u8]) -> String {
    let mut out = String::new();
    for b in bytes {
        out.push_str(&format!("{:02x}", b));
    }
    out
}

#[test]
fn g1_generator_has_the_standard_encoding() {
    assert_eq!(
        hex(&G1Point::generator().to_bytes()),
        "97f1d3a73197d7942695638c4fa9ac0fc3688c4f9774b905a14e3a3f171bac586c55e83ff97a1aeffb3af00adb22c6bb"
    );
}

#[test]
fn g2_generator_has_the_standard_encoding() {
    assert_eq!(
        hex(&G2Point::generator().to_bytes()),
        "93e02b6052719f607dacd3a088274f65596bd0d09920b61ab5da61bbdc7f5049334cf11213945d57e5ac7d055d042b7e024aa2b2f08f0a91260805272dc51051c6e47ad4fa403b02b4510b647ae3d1770bac0326a805bbefd48056c8c121bdb8"
    );
}

#[test]
fn gt_generator_is_the_pairing_of_the_generators() {
    let e = GtPoint::pairing(&G1Point::generator(), &G2Point::generator());
    assert!(e.eq(&GtPoint::generator()));
    assert_eq!(e.to_bytes(), GtPoint::generator().to_bytes());
}

#[test]
fn chain_scalar_arithmetic_is_modular() {
    let two = ChainScalar::from_u32(2);
    let three = ChainScalar::from_u32(3);
    assert_eq!(two.add(&three).to_bytes()[31], 5);
    assert_eq!(two.mul(&three).to_bytes()[31], 6);
    let minus_one = two.sub(&three).to_bytes();
    assert_eq!(
        hex(&minus_one),
        "fffffffffffffffffffffffffffffffebaaedce6af48a03bbfd25e8cd0364140"
    );
    let inv = three.invert().unwrap();
    assert_eq!(inv.mul(&three).to_bytes()[31], 1);
    assert!(ChainScalar::zero().invert().is_none());
}

#[test]
fn chain_points_add_in_the_exponent() {
    let two = ChainScalar::from_u32(2);
    let three = ChainScalar::from_u32(3);
    let five = ChainScalar::from_u32(5);
    let p = ChainPoint::from_scalar(&two).add(&ChainPoint::from_scalar(&three));
    assert!(p.eq(&ChainPoint::from_scalar(&five)));
    let q = ChainPoint::from_scalar(&two).mul(&three);
    assert!(q.eq(&ChainPoint::from_scalar(&two.mul(&three))));
    assert!(ChainPoint::zero().to_bytes().is_none());
    assert_eq!(
        hex(&ChainPoint::from_scalar(&ChainScalar::from_u32(1)).to_bytes().unwrap()),
        "0279be667ef9dcbbac55a06295ce870b07029bfcdb2dce28d959f2815b16f81798"
    );
}

#[test]
fn bls_scalar_bytes_are_little_endian() {
    let mut bytes = [0u8; 32];
    bytes[0] = 7;
    let seven = BlsScalar::from_bytes(&bytes).unwrap();
    assert_eq!(seven.to_bytes(), bytes);
    let sum = seven.add(&seven).to_bytes();
    assert_eq!(sum[0], 14);
    assert!(BlsScalar::from_bytes(&[0xffu8; 32]).is_none());
}

#[test]
fn a_random_element_of_g1_is_not_the_identity() {
    let identity = G1Point::generator().sub(&G1Point::generator());
    let mut expected = [0u8; 48];
    expected[0] = 0xc0;
    assert_eq!(identity.to_bytes(), expected);
    for _ in 0..8 {
        let p = G1Point::random();
        assert_ne!(p.to_bytes(), expected);
        assert!(!p.eq(&identity));
    }
}
