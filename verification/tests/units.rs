use dlc_venc_pairing::bls::{BlsScalar, G1Point, G2Point, GtPoint};
use dlc_venc_pairing::chain::{ChainPoint, ChainScalar};
use dlc_venc_pairing::common::{map_Gt_to_Zq, message_for_event_index, pad_of, to_bits, Params};
use dlc_venc_pairing::dleq::{
    normalize_challenge, prove_eqaulity_with, verify_eqaulity, ProofSystem, DLG1, DLGT,
};
use dlc_venc_pairing::hash::{append_bytes, bytes_eq, sha256, xor32};
use dlc_venc_pairing::layout::{slot, split_by_openings};
use dlc_venc_pairing::messages::Commit;
use dlc_venc_pairing::oracle::Oracle;
use dlc_venc_pairing::pads::{compute_pad_images, compute_pads};
use dlc_venc_pairing::poly::{PointPoly, ScalarPoly};
use dlc_venc_pairing::shamir::interpolate;
use std::collections::BTreeSet;

fn scalar(x: u32) -> ChainScalar {
    ChainScalar::from_u32(x)
}

fn bls_scalar(x: u8) -> BlsScalar {
    let mut bytes = [0u8; 32];
    bytes[0] = x;
    BlsScalar::from_bytes(&bytes).unwrap()
}

fn hex_of(bytes: &[u8]) -> String {
    bytes.iter().map(|b| format!("{:02x}", b)).collect()
}

fn params(n_outcomes: u32, n_oracles: usize, bucket_size: u8, per_mille: u16, monotone: bool) -> Params {
    Params {
        oracle_keys: vec![G1Point::generator(); n_oracles],
        event_id: "test".to_string(),
        closed_per_mille: per_mille,
        bucket_size,
        n_outcomes,
        threshold: 1,
        elgamal_base: GtPoint::generator(),
        monotone,
    }
}

#[test]
fn test_to_bits() {
    assert_eq!(to_bits(0x01, 2), vec![true, false]);
    assert_eq!(to_bits(0x3, 2), vec![true, true]);
}

#[test]
fn to_bits_gives_the_low_bits_lowest_first() {
    assert_eq!(to_bits(5, 3), vec![true, false, true]);
    assert_eq!(to_bits(5, 0), Vec::<bool>::new());
    assert_eq!(to_bits(6, 2), vec![false, true]);
    let all = to_bits(u32::MAX, 34);
    assert_eq!(all.len(), 34);
    assert!(all[..32].iter().all(|b| *b));
    assert!(!all[32] && !all[33]);
}

#[test]
fn the_number_of_outcome_bits_is_the_rounded_up_logarithm() {
    let bits = |n: u32| params(n, 1, 1, 500, false).n_outcome_bits();
    assert_eq!(bits(0), 0);
    assert_eq!(bits(1), 0);
    assert_eq!(bits(2), 1);
    assert_eq!(bits(3), 2);
    assert_eq!(bits(4), 2);
    assert_eq!(bits(5), 3);
    assert_eq!(bits(8), 3);
    assert_eq!(bits(65536), 16);
    assert_eq!(bits(65537), 17);
    assert_eq!(bits(u32::MAX), 32);
}

#[test]
fn the_sizes_follow_from_the_parameters() {
    let p = params(8, 3, 5, 662, false);
    assert!(p.check());
    assert_eq!(p.n_anticipations_per_bit(), 2);
    assert_eq!(p.n_anticipations_per_oracle(), 6);
    assert_eq!(p.NB(), 90);
    assert_eq!(p.M(), 136);
    assert_eq!(p.num_openings(), 46);

    let p = params(8, 3, 5, 500, true);
    assert_eq!(p.n_anticipations_per_bit(), 1);
    assert_eq!(p.n_anticipations_per_oracle(), 3);
    assert_eq!(p.NB(), 45);
    assert_eq!(p.M(), 90);

    let p = params(4, 1, 6, 1000, false);
    assert_eq!(p.M(), p.NB());
    assert_eq!(p.num_openings(), 0);

    let p = params(1, 1, 16, 500, false);
    assert_eq!(p.NB(), 0);
    assert_eq!(p.M(), 0);
}

#[test]
fn parameters_out_of_range_are_found() {
    assert!(params(4, 1, 1, 500, false).check());
    assert!(!params(4, 1, 1, 499, false).check());
    assert!(!params(4, 1, 1, 1001, false).check());
    assert!(!params(65537, 1, 1, 500, false).check());
    let mut p = params(4, 1, 1, 500, false);
    p.threshold = 0;
    assert!(!p.check());
}

#[test]
fn the_event_message_names_event_bit_and_value() {
    let direct = G2Point::hash_to_curve(b"test/3/true", b"dlc-message");
    assert_eq!(
        message_for_event_index("test", 3, true).to_bytes(),
        direct.to_bytes()
    );
    let direct = G2Point::hash_to_curve(b"an event/4294967295/false", b"dlc-message");
    assert_eq!(
        message_for_event_index("an event", u32::MAX, false).to_bytes(),
        direct.to_bytes()
    );
    let direct = G2Point::hash_to_curve(b"/0/false", b"dlc-message");
    assert_eq!(
        message_for_event_index("", 0, false).to_bytes(),
        direct.to_bytes()
    );
    assert_ne!(
        message_for_event_index("test", 10, true).to_bytes(),
        message_for_event_index("test", 1, true).to_bytes()
    );
    assert_ne!(
        G2Point::hash_to_curve(b"test/3/true", b"dlc-message").to_bytes(),
        G2Point::hash_to_curve(b"test/3/true", b"other").to_bytes()
    );
    assert_ne!(
        G1Point::hash_to_curve(b"dlc", b"dlc").to_bytes(),
        G1Point::hash_to_curve(b"dlc", b"dld").to_bytes()
    );
}

#[test]
fn an_oracle_signs_each_bit_of_the_outcome() {
    let sk = bls_scalar(9);
    let oracle = Oracle::new(sk);
    assert_eq!(
        oracle.public_key().to_bytes(),
        G1Point::generator().mul(&sk).to_bytes()
    );
    let sigs = oracle.attest("test", 3, 5);
    assert_eq!(sigs.len(), 3);
    for (bit, value) in [(0u32, true), (1, false), (2, true)] {
        let expected = message_for_event_index("test", bit, value).mul(&sk);
        assert_eq!(sigs[bit as usize].to_bytes(), expected.to_bytes());
    }
    let mut p = params(8, 1, 1, 500, false);
    p.oracle_keys = vec![oracle.public_key()];
    assert!(p.verify_bls_sig(0, 0, true, sigs[0]));
    assert!(!p.verify_bls_sig(0, 0, false, sigs[0]));
    assert!(!p.verify_bls_sig(0, 1, true, sigs[0]));
    assert!(p.verify_bls_sig(0, 2, true, sigs[2]));
    let anticipated = p.iter_anticipations(0);
    assert_eq!(anticipated.len(), 3);
    assert!(anticipated[1][0].eq(&p.anticipate_at_index(0, 1, false)));
    assert!(anticipated[1][1].eq(&p.anticipate_at_index(0, 1, true)));
    assert!(anticipated[1][0].eq(&GtPoint::pairing(&G1Point::generator(), &sigs[1])));
    assert!(Oracle::random()
        .public_key()
        .to_bytes()
        .iter()
        .any(|b| *b != 0));
}

#[test]
fn sha256_of_abc() {
    assert_eq!(
        hex_of(&sha256(b"abc")),
        "ba7816bf8f01cfea414140de5dae2223b00361a396177a9cb410ff61f20015ad"
    );
}

#[test]
fn bytes_are_masked_appended_and_compared() {
    let a = [0xf0u8; 32];
    let mut b = [0x0fu8; 32];
    b[3] = 0xff;
    let x = xor32(&a, &b);
    assert_eq!(x[0], 0xff);
    assert_eq!(x[3], 0x0f);
    assert_eq!(xor32(&a, &x), b);
    let mut buf = vec![1u8, 2];
    append_bytes(&mut buf, &[3, 4, 5]);
    assert_eq!(buf, vec![1, 2, 3, 4, 5]);
    assert!(bytes_eq(&[1, 2], &[1, 2]));
    assert!(!bytes_eq(&[1, 2], &[1, 3]));
    assert!(!bytes_eq(&[1, 2], &[1, 2, 3]));
}

#[test]
fn the_pad_gives_the_scalar_back() {
    let params = params(2, 1, 1, 500, false);
    for _ in 0..3 {
        let r = ChainScalar::random();
        let (m, pad) = params.map_Zq_to_Gt(&r);
        assert_eq!(pad, pad_of(&m, &r));
        assert_eq!(pad, xor32(&sha256(&m.to_bytes()), &r.to_bytes()));
        assert_eq!(map_Gt_to_Zq(&m, pad).to_bytes(), r.to_bytes());
        let other = m.add(&GtPoint::generator());
        assert_ne!(map_Gt_to_Zq(&other, pad).to_bytes(), r.to_bytes());
    }
    let r = scalar(77);
    let (m, pad) = params.map_Zq_to_Gt(&r);
    assert_eq!(map_Gt_to_Zq(&m, pad).to_bytes()[31], 77);
}

#[test]
fn a_number_above_the_order_is_reduced() {
    let mut order_plus_one = [0u8; 32];
    let order = "fffffffffffffffffffffffffffffffebaaedce6af48a03bbfd25e8cd0364141";
    for i in 0..32 {
        order_plus_one[i] = u8::from_str_radix(&order[2 * i..2 * i + 2], 16).unwrap();
    }
    order_plus_one[31] += 1;
    assert_eq!(
        ChainScalar::from_bytes_mod_order(order_plus_one).to_bytes(),
        scalar(1).to_bytes()
    );
    assert!(ChainScalar::zero().is_zero());
    assert!(!scalar(1).is_zero());
    assert!(!ChainScalar::random().is_zero());
}

#[test]
fn a_commitment_is_made_from_its_secret() {
    let params = params(2, 1, 1, 500, false);
    let r = scalar(11);
    let r_prime = bls_scalar(5);
    let m = GtPoint::generator().mul(&bls_scalar(3));
    let commit = Commit::create(&params, &r, &r_prime, &m, [7u8; 32]);
    assert!(commit.C.0.eq(&G1Point::generator().mul(&r_prime)));
    assert!(commit.C.1.eq(&params.elgamal_base.mul(&r_prime).add(&m)));
    assert!(commit.C.1.sub(&params.elgamal_base.mul(&r_prime)).eq(&m));
    assert!(commit.R.eq(&ChainPoint::from_scalar(&r)));
    assert_eq!(commit.pad, [7u8; 32]);
}

#[test]
fn a_scalar_polynomial_is_evaluated() {
    let poly = ScalarPoly::new(vec![scalar(1), scalar(2), scalar(3)]);
    assert_eq!(poly.poly_len(), 3);
    assert_eq!(poly.eval(2).to_bytes(), scalar(17).to_bytes());
    assert_eq!(poly.eval(1).to_bytes(), scalar(6).to_bytes());
    assert_eq!(poly.eval(10).to_bytes(), scalar(321).to_bytes());
    assert_eq!(ScalarPoly::new(vec![]).eval(5).to_bytes(), scalar(0).to_bytes());
    assert_eq!(ScalarPoly::new(vec![scalar(9)]).eval(5).to_bytes(), scalar(9).to_bytes());
    assert_eq!(ScalarPoly::random(4).poly_len(), 4);
}

#[test]
fn the_constant_term_is_pushed_and_popped() {
    let mut poly = ScalarPoly::new(vec![scalar(2), scalar(3)]);
    poly.push_front(scalar(1));
    assert_eq!(poly.poly_len(), 3);
    assert_eq!(poly.eval(2).to_bytes(), scalar(17).to_bytes());
    poly.pop_front();
    assert_eq!(poly.eval(2).to_bytes(), scalar(8).to_bytes());

    let mut points = ScalarPoly::new(vec![scalar(2), scalar(3)]).to_point_poly();
    points.push_front(ChainPoint::from_scalar(&scalar(1)));
    assert_eq!(points.poly_len(), 3);
    assert!(points.points()[0].eq(&ChainPoint::from_scalar(&scalar(1))));
    assert!(points.eval(2).eq(&ChainPoint::from_scalar(&scalar(17))));
    points.pop_front();
    assert!(points.eval(2).eq(&ChainPoint::from_scalar(&scalar(8))));
}

#[test]
fn the_image_of_a_polynomial_evaluates_to_the_image_of_its_value() {
    for _ in 0..3 {
        let poly = ScalarPoly::random(4);
        let points = poly.to_point_poly();
        assert_eq!(points.poly_len(), 4);
        for x in [1u32, 2, 3, 1000, u32::MAX] {
            assert!(points.eval(x).eq(&ChainPoint::from_scalar(&poly.eval(x))));
        }
    }
    assert!(PointPoly::new(vec![]).eval(3).eq(&ChainPoint::zero()));
}

#[test]
fn the_leaf_of_an_outcome_is_the_sum_of_the_pads_its_bits_select() {
    let pads = vec![
        [scalar(1), scalar(2)],
        [scalar(10), scalar(20)],
        [scalar(100), scalar(200)],
    ];
    let leaves = compute_pads(&pads);
    let expected = [111u32, 112, 121, 122, 211, 212, 221, 222];
    assert_eq!(leaves.len(), 8);
    for (leaf, want) in leaves.iter().zip(expected) {
        assert_eq!(leaf.to_bytes(), scalar(want).to_bytes());
    }
    let images: Vec<[ChainPoint; 2]> = pads
        .iter()
        .map(|pair| [ChainPoint::from_scalar(&pair[0]), ChainPoint::from_scalar(&pair[1])])
        .collect();
    let leaf_images = compute_pad_images(&images);
    assert_eq!(leaf_images.len(), 8);
    for (image, want) in leaf_images.iter().zip(expected) {
        assert!(image.eq(&ChainPoint::from_scalar(&scalar(want))));
    }
    let none = compute_pads(&[]);
    assert_eq!(none.len(), 1);
    assert!(none[0].is_zero());
    assert!(compute_pad_images(&[])[0].eq(&ChainPoint::zero()));
}

#[test]
fn random_pads_give_leaves_that_fit_their_images() {
    let pads: Vec<[ChainScalar; 2]> = (0..3)
        .map(|_| [ChainScalar::random(), ChainScalar::random()])
        .collect();
    let leaves = compute_pads(&pads);
    for outcome in 0..8usize {
        let mut sum = ChainScalar::zero();
        for bit in 0..3 {
            sum = sum.add(&pads[bit][(outcome >> bit) & 1]);
        }
        assert_eq!(leaves[outcome].to_bytes(), sum.to_bytes());
    }
}

#[test]
fn shares_of_a_line_give_its_value_at_zero() {
    let poly = ScalarPoly::new(vec![scalar(5), scalar(3)]);
    let shares = vec![(1u32, poly.eval(1)), (2, poly.eval(2)), (3, poly.eval(3))];
    assert_eq!(interpolate(&shares, 2).to_bytes(), scalar(5).to_bytes());
    assert_eq!(interpolate(&shares, 3).to_bytes(), scalar(5).to_bytes());
    assert_eq!(interpolate(&shares, 1).to_bytes(), scalar(8).to_bytes());
    assert_eq!(interpolate(&shares, 0).to_bytes(), scalar(0).to_bytes());
    let far = vec![(3u32, poly.eval(3)), (7, poly.eval(7))];
    assert_eq!(interpolate(&far, 2).to_bytes(), scalar(5).to_bytes());
}

#[test]
fn shares_of_a_random_cubic_give_its_constant_term() {
    let mut poly = ScalarPoly::random(3);
    let secret = ChainScalar::random();
    poly.push_front(secret.clone());
    let shares: Vec<(u32, ChainScalar)> = [2u32, 3, 5, 8].iter().map(|x| (*x, poly.eval(*x))).collect();
    assert_eq!(interpolate(&shares, 4).to_bytes(), secret.to_bytes());
    assert_ne!(interpolate(&shares, 3).to_bytes(), secret.to_bytes());
}

#[test]
fn the_openings_split_the_indices() {
    let openings: BTreeSet<usize> = [1usize, 4, 9].into_iter().collect();
    let (kept, opened) = split_by_openings(6, &openings);
    assert_eq!(kept, vec![0, 2, 3, 5]);
    assert_eq!(opened, vec![1, 4]);
    let (kept, opened) = split_by_openings(0, &openings);
    assert!(kept.is_empty() && opened.is_empty());
}

#[test]
fn a_position_belongs_to_an_oracle_a_bit_and_a_value() {
    // three bits, buckets of five: 30 positions for each oracle
    assert_eq!(slot(0, 3, 5), (0, 0, 0));
    assert_eq!(slot(4, 3, 5), (0, 0, 0));
    assert_eq!(slot(5, 3, 5), (0, 0, 1));
    assert_eq!(slot(10, 3, 5), (0, 1, 0));
    assert_eq!(slot(29, 3, 5), (0, 2, 1));
    assert_eq!(slot(30, 3, 5), (1, 0, 0));
    assert_eq!(slot(30 * 7 + 10 * 2 + 5 + 3, 3, 5), (7, 2, 1));
}

#[test]
fn a_challenge_is_the_scalar_of_its_bytes() {
    let mut challenge = [0u8; 31];
    challenge[0] = 3;
    challenge[1] = 1;
    let c = normalize_challenge(&challenge).to_bytes();
    assert_eq!(&c[..31], &challenge[..]);
    assert_eq!(c[31], 0);
    let all = normalize_challenge(&[0xffu8; 31]).to_bytes();
    assert_eq!(&all[..31], &[0xffu8; 31][..]);
    assert_eq!(all[31], 0);
}

#[test]
fn a_proof_is_what_the_announcement_secret_gives() {
    let system = ProofSystem::new();
    let w = bls_scalar(7);
    let u = bls_scalar(11);
    let base = GtPoint::generator().mul(&bls_scalar(2));
    let sig = GtPoint::generator().mul(&bls_scalar(3));
    let m = GtPoint::generator().mul(&bls_scalar(5));
    let commit = (G1Point::generator().mul(&w), base.mul(&w).add(&m));
    let ciphertext = sig.mul(&w).add(&m);
    let proof = prove_eqaulity_with(&system, w, ciphertext, sig, base, commit, &u);
    let again = prove_eqaulity_with(&system, w, ciphertext, sig, base, commit, &u);
    assert_eq!(proof.challenge, again.challenge);
    assert_eq!(proof.response.to_bytes(), again.response.to_bytes());
    let c = normalize_challenge(&proof.challenge);
    assert_eq!(proof.response.to_bytes(), u.add(&c.mul(&w)).to_bytes());
    assert!(verify_eqaulity(&system, &proof, ciphertext, sig, base, commit));

    let other = sig.mul(&w).add(&m).add(&GtPoint::generator());
    assert!(!verify_eqaulity(&system, &proof, other, sig, base, commit));
    let wrong = prove_eqaulity_with(&system, bls_scalar(8), ciphertext, sig, base, commit, &u);
    assert!(!verify_eqaulity(&system, &wrong, ciphertext, sig, base, commit));
    let mut tampered = proof;
    tampered.response = tampered.response.add(&bls_scalar(1));
    assert!(!verify_eqaulity(&system, &tampered, ciphertext, sig, base, commit));
}

#[test]
fn the_two_protocols_announce_respond_and_hash() {
    let g1 = DLG1::default();
    let gt = DLGT::default();
    let u = bls_scalar(4);
    let w = bls_scalar(6);
    let in_g1 = (G1Point::generator(), G1Point::generator().mul(&w));
    let in_gt = (GtPoint::generator(), GtPoint::generator().mul(&w));
    let a1 = g1.announce(&in_g1, &u);
    let at = gt.announce(&in_gt, &u);
    assert!(a1.eq(&G1Point::generator().mul(&u)));
    assert!(at.eq(&GtPoint::generator().mul(&u)));
    let mut challenge = [0u8; 31];
    challenge[0] = 2;
    let z = g1.respond(&w, &u, &challenge);
    assert_eq!(z.to_bytes(), bls_scalar(16).to_bytes());
    assert_eq!(gt.respond(&w, &u, &challenge).to_bytes(), z.to_bytes());
    assert!(g1.implied_announcement(&in_g1, &challenge, &z).eq(&a1));
    assert!(gt.implied_announcement(&in_gt, &challenge, &z).eq(&at));

    let mut transcript = vec![];
    g1.write_to(&mut transcript);
    assert_eq!(transcript, b"DL(bls12-381-G1)".to_vec());
    g1.hash_statement(&mut transcript, &in_g1);
    assert_eq!(transcript.len(), 16 + 48 + 48);
    g1.hash_announcement(&mut transcript, &a1);
    assert_eq!(&transcript[112..], &a1.to_bytes()[..]);
    let mut transcript = vec![];
    gt.write_to(&mut transcript);
    assert_eq!(transcript, b"DL(bls12-381-GT)".to_vec());
    gt.hash_statement(&mut transcript, &in_gt);
    gt.hash_announcement(&mut transcript, &at);
    let mut expected = b"DL(bls12-381-GT)".to_vec();
    expected.extend(in_gt.0.to_bytes());
    expected.extend(in_gt.1.to_bytes());
    expected.extend(at.to_bytes());
    assert_eq!(transcript, expected);
    assert_ne!(g1.gen_announce_secret().to_bytes(), [0u8; 32]);
    assert_ne!(gt.gen_announce_secret().to_bytes(), [0u8; 32]);
}

#[test]
fn groups_subtract_and_compare() {
    let a = G1Point::generator().mul(&bls_scalar(5));
    let b = G1Point::generator().mul(&bls_scalar(3));
    assert!(a.sub(&b).eq(&G1Point::generator().mul(&bls_scalar(2))));
    assert!(!a.eq(&b));
    assert_ne!(G1Point::random().to_bytes(), G1Point::random().to_bytes());
    let s = G2Point::generator().mul(&bls_scalar(2));
    assert!(GtPoint::pairing(&G1Point::generator(), &s)
        .eq(&GtPoint::generator().mul(&bls_scalar(2))));
    assert!(GtPoint::pairing(&a, &G2Point::generator())
        .eq(&GtPoint::generator().mul(&bls_scalar(5))));
    let x = bls_scalar(200).mul(&bls_scalar(2));
    assert_eq!(x.to_bytes()[0], 144);
    assert_eq!(x.to_bytes()[1], 1);
}
