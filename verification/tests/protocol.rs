use dlc_venc_pairing::alice::{Alice1, Round3Randomness};
use dlc_venc_pairing::bls::{BlsScalar, G1Point, G2Point, GtPoint};
use dlc_venc_pairing::bob::{Bob1, Bob2};
use dlc_venc_pairing::bucket::{decrypt_pad, find_bit_pad, BucketEntry};
use dlc_venc_pairing::chain::{ChainPoint, ChainScalar};
use dlc_venc_pairing::common::Params;
use dlc_venc_pairing::messages::{Error, Message2, Message3};
use dlc_venc_pairing::oracle::Oracle;

fn elgamal_base() -> GtPoint {
    GtPoint::pairing(&G1Point::hash_to_curve(b"dlc", b"dlc"), &G2Point::generator())
}

fn params_for(
    oracles: &[Oracle],
    n_outcomes: u32,
    threshold: u16,
    bucket_size: u8,
    closed_per_mille: u16,
) -> Params {
    Params {
        oracle_keys: oracles.iter().map(|o| o.public_key()).collect(),
        event_id: "test".to_string(),
        closed_per_mille,
        bucket_size,
        n_outcomes,
        threshold,
        elgamal_base: elgamal_base(),
        monotone: false,
    }
}

fn oracles(n: usize) -> Vec<Oracle> {
    (0..n).map(|_| Oracle::random()).collect()
}

fn secrets(n: u32) -> Vec<ChainScalar> {
    (1..=n).map(ChainScalar::from_u32).collect()
}

fn images(secrets: &[ChainScalar]) -> Vec<ChainPoint> {
    secrets.iter().map(ChainPoint::from_scalar).collect()
}

struct Session {
    bob: Bob1,
    message2: Message2,
    message3: Message3,
}

fn session(params: &Params, secrets: &[ChainScalar]) -> Session {
    assert!(params.check());
    let (alice, m1) = Alice1::new(params);
    assert_eq!(m1.commits.len(), params.M());
    let (bob, m2) = Bob1::new(m1, params).unwrap();
    assert!(alice.check(params));
    let m3 = alice
        .receive_message(m2.clone(), secrets.to_vec(), params)
        .unwrap();
    Session { bob, message2: m2, message3: m3 }
}

fn honest_bob2(params: &Params, secrets: &[ChainScalar]) -> Bob2 {
    let s = session(params, secrets);
    match s.bob.receive_message(s.message3, images(secrets), params) {
        Ok(bob2) => bob2,
        Err(e) => panic!("the honest answer was refused: {:?}", e),
    }
}

fn attest_all(oracles: &[Oracle], params: &Params, outcome: u32) -> Vec<Vec<G2Point>> {
    oracles
        .iter()
        .map(|o| o.attest(&params.event_id, params.n_outcome_bits() as usize, outcome))
        .collect()
}

fn refusal(params: &Params, s: Session, secrets: &[ChainScalar]) -> Option<Error> {
    s.bob.receive_message(s.message3, images(secrets), params).err()
}

fn small() -> (Vec<Oracle>, Params, Vec<ChainScalar>) {
    let oracles = oracles(1);
    let params = params_for(&oracles, 2, 1, 1, 500);
    (oracles, params, secrets(2))
}

#[test]
fn one_oracle_attests_and_the_receiver_gets_the_secret() {
    let oracles = oracles(1);
    let params = params_for(&oracles, 4, 1, 6, 534);
    assert_eq!(params.NB(), 24);
    assert_eq!(params.M(), 45);
    let secrets = secrets(4);
    let bob2 = honest_bob2(&params, &secrets);
    let attestations = attest_all(&oracles, &params, 2);
    let secret = bob2
        .receive_oracle_attestation(2, attestations, &params)
        .unwrap();
    assert_eq!(secret.to_bytes(), ChainScalar::from_u32(3).to_bytes());
}

#[test]
fn two_of_three_oracles_suffice() {
    let oracles = oracles(3);
    let params = params_for(&oracles, 8, 2, 1, 662);
    assert_eq!(params.NB(), 18);
    assert_eq!(params.M(), 28);
    let secrets = secrets(8);
    let bob2 = honest_bob2(&params, &secrets);
    let all = attest_all(&oracles, &params, 5);
    let expected = ChainScalar::from_u32(6).to_bytes();

    let one_silent = vec![all[0].clone(), vec![], all[2].clone()];
    let secret = bob2
        .clone()
        .receive_oracle_attestation(5, one_silent, &params)
        .unwrap();
    assert_eq!(secret.to_bytes(), expected);

    let secret = bob2
        .clone()
        .receive_oracle_attestation(5, all.clone(), &params)
        .unwrap();
    assert_eq!(secret.to_bytes(), expected);

    let two_silent = vec![all[0].clone(), vec![], vec![]];
    assert_eq!(
        bob2.receive_oracle_attestation(5, two_silent, &params).err(),
        Some(Error::InsufficientShares)
    );
}

#[test]
fn an_oracle_that_signs_another_outcome_gives_no_share() {
    let oracles = oracles(3);
    let params = params_for(&oracles, 8, 2, 1, 662);
    let secrets = secrets(8);
    let bob2 = honest_bob2(&params, &secrets);
    let right = attest_all(&oracles, &params, 5);
    let wrong = attest_all(&oracles, &params, 4);

    assert!(bob2
        .recover_share(&params, 1, 5, &[true, false, true].to_vec(), &wrong[1])
        .is_none());
    assert!(bob2
        .recover_share(&params, 1, 5, &[true, false, true].to_vec(), &right[1])
        .is_some());

    let attestations = vec![right[0].clone(), wrong[1].clone(), right[2].clone()];
    let secret = bob2
        .clone()
        .receive_oracle_attestation(5, attestations, &params)
        .unwrap();
    assert_eq!(secret.to_bytes(), ChainScalar::from_u32(6).to_bytes());

    let only_one_right = vec![right[0].clone(), wrong[1].clone(), wrong[2].clone()];
    assert_eq!(
        bob2.receive_oracle_attestation(5, only_one_right, &params).err(),
        Some(Error::InsufficientShares)
    );
}

#[test]
fn a_changed_ciphertext_is_refused() {
    let (_, params, secrets) = small();
    let mut s = session(&params, &secrets);
    s.message3.encryptions[1].1 = s.message3.encryptions[1].1.add(&GtPoint::generator());
    assert_eq!(refusal(&params, s, &secrets), Some(Error::DLEQInvalid));
}

#[test]
fn a_changed_proof_is_refused() {
    let (_, params, secrets) = small();
    let mut s = session(&params, &secrets);
    s.message3.encryptions[0].0.challenge[7] ^= 1;
    assert_eq!(refusal(&params, s, &secrets), Some(Error::DLEQInvalid));
}

#[test]
fn a_changed_opening_is_refused() {
    let (_, params, secrets) = small();
    let mut s = session(&params, &secrets);
    let one = BlsScalar::from_bytes(&{
        let mut b = [0u8; 32];
        b[0] = 1;
        b
    })
    .unwrap();
    s.message3.openings[0] = s.message3.openings[0].add(&one);
    assert_eq!(refusal(&params, s, &secrets), Some(Error::OpeningMismatch));
}

#[test]
fn a_changed_commitment_pad_is_refused() {
    let (_, params, secrets) = small();
    let (alice, mut m1) = Alice1::new(&params);
    for commit in m1.commits.iter_mut() {
        commit.pad[0] ^= 0x80;
    }
    let (bob, m2) = Bob1::new(m1, &params).unwrap();
    let m3 = alice
        .receive_message(m2, secrets.clone(), &params)
        .unwrap();
    assert_eq!(
        bob.receive_message(m3, images(&secrets), &params).err(),
        Some(Error::OpeningMismatch)
    );
}

#[test]
fn a_changed_padded_scalar_is_refused() {
    let (_, params, secrets) = small();
    let mut s = session(&params, &secrets);
    s.message3.encryptions[0].2 = s.message3.encryptions[0].2.add(&ChainScalar::from_u32(1));
    assert_eq!(refusal(&params, s, &secrets), Some(Error::PaddedShareInvalid));
}

#[test]
fn a_changed_pad_image_is_refused() {
    let (_, params, secrets) = small();
    let mut s = session(&params, &secrets);
    let g = ChainPoint::from_scalar(&ChainScalar::from_u32(1));
    s.message3.bit_map_images[0][0][0] = s.message3.bit_map_images[0][0][0].add(&g);
    s.message3.bit_map_images[0][0][1] = s.message3.bit_map_images[0][0][1].add(&g);
    assert_eq!(refusal(&params, s, &secrets), Some(Error::PaddedShareInvalid));
}

#[test]
fn a_changed_secret_share_is_refused() {
    let (_, params, secrets) = small();
    let mut s = session(&params, &secrets);
    s.message3.secret_share_pads_by_oracle[0][1] =
        s.message3.secret_share_pads_by_oracle[0][1].add(&ChainScalar::from_u32(1));
    assert_eq!(refusal(&params, s, &secrets), Some(Error::PadInconsistent));
}

#[test]
fn other_outcome_images_are_refused() {
    let (_, params, secrets) = small();
    let s = session(&params, &secrets);
    let other = images(&[ChainScalar::from_u32(1), ChainScalar::from_u32(7)]);
    assert_eq!(
        s.bob.receive_message(s.message3, other, &params).err(),
        Some(Error::PadInconsistent)
    );
}

#[test]
fn an_answer_of_another_shape_is_refused() {
    let (_, params, secrets) = small();

    let mut s = session(&params, &secrets);
    s.message3.openings.pop();
    assert_eq!(refusal(&params, s, &secrets), Some(Error::BadMessage));

    let mut s = session(&params, &secrets);
    s.message3.encryptions.pop();
    assert_eq!(refusal(&params, s, &secrets), Some(Error::BadMessage));

    let mut s = session(&params, &secrets);
    s.message3.polys[0].push_front(ChainPoint::zero());
    assert_eq!(refusal(&params, s, &secrets), Some(Error::BadMessage));

    let mut s = session(&params, &secrets);
    s.message3.secret_share_pads_by_oracle[0].pop();
    assert_eq!(refusal(&params, s, &secrets), Some(Error::BadMessage));

    let mut s = session(&params, &secrets);
    s.message3.bit_map_images.push(vec![]);
    assert_eq!(refusal(&params, s, &secrets), Some(Error::BadMessage));
}

#[test]
fn a_challenge_with_an_opening_too_few_is_refused() {
    let (oracles, params, secrets) = small();
    let (alice, m1) = Alice1::new(&params);
    let (_, mut m2) = Bob1::new(m1, &params).unwrap();
    assert_eq!(m2.openings.len(), params.M() - params.NB());
    let first = *m2.openings.iter().next().unwrap();
    m2.openings.remove(&first);
    assert_eq!(m2.openings.len(), params.M() - params.NB() - 1);
    assert!(!m2.check(&params));
    assert_eq!(
        alice.receive_message(m2, secrets, &params).err(),
        Some(Error::BadMessage)
    );
    assert_eq!(oracles.len(), 1);
}

#[test]
fn a_challenge_that_maps_outside_the_buckets_is_refused() {
    let (_, params, secrets) = small();
    let (alice, m1) = Alice1::new(&params);
    let (_, mut m2) = Bob1::new(m1, &params).unwrap();
    m2.bucket_mapping[0] = params.NB();
    assert_eq!(
        alice.receive_message(m2, secrets, &params).err(),
        Some(Error::BadMessage)
    );
}

#[test]
fn a_challenge_that_opens_what_is_not_there_is_refused() {
    let (_, params, secrets) = small();
    let (alice, m1) = Alice1::new(&params);
    let (_, mut m2) = Bob1::new(m1, &params).unwrap();
    let first = *m2.openings.iter().next().unwrap();
    m2.openings.remove(&first);
    m2.openings.insert(params.M());
    assert_eq!(
        alice.receive_message(m2, secrets, &params).err(),
        Some(Error::BadMessage)
    );
}

#[test]
fn a_first_message_of_another_length_is_refused() {
    let (_, params, _) = small();
    let (_, mut m1) = Alice1::new(&params);
    m1.commits.pop();
    assert_eq!(Bob1::new(m1, &params).err(), Some(Error::BadMessage));
}

#[test]
fn the_challenge_is_a_permutation_and_opens_other_commitments() {
    let oracles = oracles(2);
    let params = params_for(&oracles, 4, 1, 3, 600);
    let nb = params.NB();
    let m = params.M();
    assert_eq!(nb, 24);
    assert_eq!(m, 40);
    let (_, m1) = Alice1::new(&Params { bucket_size: 0, ..params.clone() });
    assert!(m1.commits.is_empty());
    let commits = vec![
        dlc_venc_pairing::messages::Commit {
            C: (G1Point::generator(), GtPoint::generator()),
            R: ChainPoint::zero(),
            pad: [0u8; 32],
        };
        m
    ];
    let m2 = Bob1::gen_message2(&commits, &params);
    assert!(m2.check(&params));
    assert_ne!(m2.bucket_mapping, (0..nb).collect::<Vec<usize>>());
    let mut seen = vec![false; nb];
    for &to in &m2.bucket_mapping {
        assert!(to < nb);
        assert!(!seen[to]);
        seen[to] = true;
    }
    assert_eq!(m2.openings.len(), m - nb);
    assert!(m2.openings.iter().all(|&i| i < m));
    let kept: Vec<usize> = (0..m).filter(|i| !m2.openings.contains(i)).collect();
    assert_eq!(kept.len(), nb);
    for &to in &m2.bucket_mapping {
        assert!(!m2.openings.contains(&kept[to]));
    }
}

#[test]
fn the_answer_holds_what_the_randomness_gives() {
    let (_, params, secrets) = small();
    let (alice, m1) = Alice1::new(&params);
    let (_, m2) = Bob1::new(m1, &params).unwrap();
    let rnd = Round3Randomness::draw(&params);
    assert!(rnd.check(&params));
    let pad0 = rnd.bit_pads[0][0][0].clone();
    let pad1 = rnd.bit_pads[0][0][1].clone();
    let m3 = alice.respond_with(m2, secrets.clone(), &params, rnd).unwrap();
    assert!(m3.bit_map_images[0][0][0].eq(&ChainPoint::from_scalar(&pad0)));
    assert!(m3.bit_map_images[0][0][1].eq(&ChainPoint::from_scalar(&pad1)));
    assert_eq!(
        m3.secret_share_pads_by_oracle[0][0].to_bytes(),
        pad0.add(&secrets[0]).to_bytes()
    );
    assert_eq!(
        m3.secret_share_pads_by_oracle[0][1].to_bytes(),
        pad1.add(&secrets[1]).to_bytes()
    );
    assert_eq!(m3.encryptions.len(), params.NB());
    assert_eq!(m3.openings.len(), params.num_openings());
    assert_eq!(m3.polys.len(), 2);
    assert_eq!(m3.polys[0].poly_len(), 0);
}

#[test]
fn a_lowered_threshold_gives_a_secret_that_does_not_fit() {
    let oracles = oracles(2);
    let params = params_for(&oracles, 2, 2, 1, 500);
    let secrets = secrets(2);
    let bob2 = honest_bob2(&params, &secrets);
    let attestations = attest_all(&oracles, &params, 1);
    let secret = bob2
        .clone()
        .receive_oracle_attestation(1, attestations.clone(), &params)
        .unwrap();
    assert_eq!(secret.to_bytes(), ChainScalar::from_u32(2).to_bytes());
    let lowered = Params { threshold: 1, ..params.clone() };
    assert_eq!(
        bob2.receive_oracle_attestation(1, attestations, &lowered).err(),
        Some(Error::ReconstructionMismatch)
    );
}

#[test]
fn a_bucket_without_a_good_ciphertext_gives_no_pad() {
    let sig = G2Point::generator();
    let entry = BucketEntry {
        c0: G1Point::generator(),
        ciphertext: GtPoint::generator(),
        padded: ChainScalar::from_u32(5),
        pad: [0u8; 32],
    };
    let pad = decrypt_pad(&entry, &sig);
    let image = ChainPoint::from_scalar(&pad);
    let other = ChainPoint::from_scalar(&pad.add(&ChainScalar::from_u32(1)));
    let entries = vec![entry.clone(), entry];
    assert_eq!(
        find_bit_pad(&entries, 0, 2, &sig, &other).err(),
        Some(Error::AllCiphertextsMalicious)
    );
    assert_eq!(
        find_bit_pad(&entries, 0, 0, &sig, &image).err(),
        Some(Error::AllCiphertextsMalicious)
    );
    assert_eq!(
        find_bit_pad(&entries, 0, 2, &sig, &image).unwrap().to_bytes(),
        pad.to_bytes()
    );
}

#[test]
fn a_session_in_monotone_mode_fills_half_the_buckets() {
    let oracles = oracles(2);
    let mut params = params_for(&oracles, 4, 1, 1, 500);
    params.monotone = true;
    assert_eq!(params.n_anticipations_per_bit(), 1);
    assert_eq!(params.n_anticipations_per_oracle(), 2);
    assert_eq!(params.NB(), 4);
    assert_eq!(params.M(), 8);
    let secrets = secrets(4);
    let bob2 = honest_bob2(&params, &secrets);
    let attestations = attest_all(&oracles, &params, 3);
    let secret = bob2
        .receive_oracle_attestation(3, attestations, &params)
        .unwrap();
    assert_eq!(secret.to_bytes(), ChainScalar::from_u32(4).to_bytes());
}

#[test]
fn a_single_outcome_needs_no_signature() {
    let oracles = oracles(1);
    let params = params_for(&oracles, 1, 1, 4, 500);
    assert_eq!(params.n_outcome_bits(), 0);
    assert_eq!(params.NB(), 0);
    assert_eq!(params.M(), 0);
    let secrets = vec![ChainScalar::from_u32(9)];
    let s = session(&params, &secrets);
    assert!(s.message2.bucket_mapping.is_empty());
    assert!(s.message2.openings.is_empty());
    assert!(s.message3.encryptions.is_empty());
    let bob2 = s
        .bob
        .receive_message(s.message3, images(&secrets), &params)
        .unwrap();
    assert!(bob2.check(&params));
    let secret = bob2
        .receive_oracle_attestation(0, vec![vec![]], &params)
        .unwrap();
    assert_eq!(secret.to_bytes(), secrets[0].to_bytes());
}

#[test]
fn in_monotone_mode_one_oracle_has_a_bucket_for_one_value_of_a_bit() {
    let oracles = oracles(1);
    let mut params = params_for(&oracles, 2, 1, 2, 500);
    params.monotone = true;
    assert_eq!(params.NB(), 2);
    assert_eq!(params.M(), 4);
    let secrets = secrets(2);
    let bob2 = honest_bob2(&params, &secrets);
    let secret = bob2
        .clone()
        .receive_oracle_attestation(0, attest_all(&oracles, &params, 0), &params)
        .unwrap();
    assert_eq!(secret.to_bytes(), ChainScalar::from_u32(1).to_bytes());
    assert_eq!(
        bob2.receive_oracle_attestation(1, attest_all(&oracles, &params, 1), &params)
            .err(),
        Some(Error::InsufficientShares)
    );
}

#[test]
fn attestations_of_more_oracles_than_there_are_give_no_share() {
    let (oracles, params, secrets) = small();
    let bob2 = honest_bob2(&params, &secrets);
    let good = attest_all(&oracles, &params, 1);
    let stranger = Oracle::random().attest("test", 1, 1);
    let short: Vec<G2Point> = vec![];
    assert_eq!(
        bob2.clone()
            .receive_oracle_attestation(1, vec![short, good[0].clone()], &params)
            .err(),
        Some(Error::InsufficientShares)
    );
    assert_eq!(
        bob2.clone()
            .receive_oracle_attestation(1, vec![stranger], &params)
            .err(),
        Some(Error::InsufficientShares)
    );
    let mut long = good[0].clone();
    long.push(good[0][0]);
    assert_eq!(
        bob2.clone()
            .receive_oracle_attestation(1, vec![long], &params)
            .err(),
        Some(Error::InsufficientShares)
    );
    let secret = bob2
        .receive_oracle_attestation(1, good, &params)
        .unwrap();
    assert_eq!(secret.to_bytes(), ChainScalar::from_u32(2).to_bytes());
}

#[test]
fn a_whole_honest_session_gives_the_secret() {
    let oracles = oracles(2);
    let params = params_for(&oracles, 4, 2, 1, 500);
    let secrets = secrets(4);
    let secret = dlc_venc_pairing::session::run_session(&params, secrets, &oracles, 3).unwrap();
    assert_eq!(secret.to_bytes(), ChainScalar::from_u32(4).to_bytes());
}

#[test]
fn the_shares_are_those_of_the_oracles_that_sign() {
    let oracles = oracles(3);
    let params = params_for(&oracles, 2, 2, 1, 500);
    let secrets = secrets(2);
    let bob2 = honest_bob2(&params, &secrets);
    let all = attest_all(&oracles, &params, 1);
    let given = vec![all[0].clone(), vec![], all[2].clone()];
    let shares = bob2.collect_shares(1, &given, &params);
    assert_eq!(shares.len(), 2);
    assert_eq!(shares[0].0, 1);
    assert_eq!(shares[1].0, 3);
    let secret = dlc_venc_pairing::shamir::interpolate(&shares, 2);
    assert_eq!(secret.to_bytes(), ChainScalar::from_u32(2).to_bytes());
    assert_eq!(bob2.collect_shares(1, &all, &params).len(), 3);
    assert!(bob2.collect_shares(0, &all, &params).is_empty());
}
