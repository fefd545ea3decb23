use dlc_venc_pairing::bls::{BlsScalar, G1Point, GtPoint};
use dlc_venc_pairing::dleq::{prove_eqaulity, verify_eqaulity, ProofSystem};

#[test]
fn dleq_roundtrip() {
    let ri_prime = BlsScalar::random();
    let ri_point = GtPoint::generator().mul(&BlsScalar::random());
    let commit_base = GtPoint::generator().mul(&BlsScalar::random());
    let sig_point = GtPoint::generator().mul(&BlsScalar::random());
    let commit = (
        G1Point::generator().mul(&ri_prime),
        commit_base.mul(&ri_prime).add(&ri_point),
    );
    let ri_encryption = sig_point.mul(&ri_prime).add(&ri_point);
    let proof_system = ProofSystem::default();

    let proof = prove_eqaulity(
        &proof_system,
        ri_prime,
        ri_encryption,
        sig_point,
        commit_base,
        commit,
    );
    assert!(verify_eqaulity(
        &proof_system,
        &proof,
        ri_encryption,
        sig_point,
        commit_base,
        commit
    ))
}
