//! Proofs that two discrete logarithms are equal: one in `G1`, one in `GT`.
//!
//! The proof is the Fiat-Shamir form of the conjunction of two Schnorr
//! protocols that share witness, announcement secret and challenge. The
//! challenge is the first 31 bytes of a SHA-256 digest over the statement and
//! the announcement, read as a scalar. A proof holds the challenge and the
//! response; the verifier recomputes the announcement from them.

use crate::bls::{
    bls_order, g1_diff, g1_generator_repr, g1_is_multiple, g1_scale, gt_diff, gt_is_multiple,
    gt_is_sum, gt_scale, gt_sum, scalar_difference, scalar_product, scalar_sum, BlsScalar,
    G1Point, GtPoint,
};
use crate::encoding::{le_nat, lemma_le_nat_bound, pow256};
use crate::hash::{append_bytes, bytes_eq, sha256, sha256_of};
use vstd::prelude::*;
use vstd::utf8::encode_utf8;

verus! {

/// What is proved: `g1.1 = w * g1.0` and `gt.1 = w * gt.0` for one `w`,
/// each element by its encoding.
pub type StatementView = ((Seq<u8>, Seq<u8>), (Seq<u8>, Seq<u8>));

/// The Schnorr protocol for a discrete logarithm in `GT`.
#[derive(Clone, Copy, Debug, Default, PartialEq)]
pub struct DLGT {}

/// The Schnorr protocol for a discrete logarithm in `G1`.
#[derive(Clone, Copy, Debug, Default, PartialEq)]
pub struct DLG1 {}

/// The conjunction of the two protocols.
#[derive(Clone, Copy, Debug, Default, PartialEq)]
pub struct ProofSystem {
    pub g1: DLG1,
    pub gt: DLGT,
}

/// A proof: the challenge and the response.
#[derive(Clone, Copy)]
pub struct Proof {
    pub challenge: [u8; 31],
    pub response: BlsScalar,
}

impl View for Proof {
    type V = (Seq<u8>, nat);

    open spec fn view(&self) -> (Seq<u8>, nat) {
        (self.challenge@, self.response@)
    }
}

/// The tag that opens the `G1` part of a transcript.
pub open spec fn g1_label() -> Seq<u8> {
    encode_utf8("DL(bls12-381-G1)"@)
}

/// The tag that opens the `GT` part of a transcript.
pub open spec fn gt_label() -> Seq<u8> {
    encode_utf8("DL(bls12-381-GT)"@)
}

/// The bytes that are hashed into a challenge.
pub open spec fn dleq_transcript(statement: StatementView, announcement: (Seq<u8>, Seq<u8>)) -> Seq<
    u8,
> {
    g1_label() + statement.0.0 + statement.0.1 + gt_label() + statement.1.0 + statement.1.1
        + announcement.0 + announcement.1
}

/// The challenge that belongs to a statement and an announcement.
pub open spec fn dleq_challenge(statement: StatementView, announcement: (Seq<u8>, Seq<u8>)) -> Seq<
    u8,
> {
    sha256_of(dleq_transcript(statement, announcement)).take(31)
}

/// The response `u + c * w` to the challenge bytes `c`.
pub open spec fn dleq_response(witness: nat, announce_secret: nat, challenge: Seq<u8>) -> nat {
    scalar_sum(announce_secret, scalar_product(le_nat(challenge), witness))
}

/// The proof that the witness `w` and the announcement secret `u` give.
pub open spec fn dleq_proof_of(witness: nat, statement: StatementView, announce_secret: nat) -> (
    Seq<u8>,
    nat,
) {
    let announcement = (
        g1_scale(statement.0.0, announce_secret),
        gt_scale(statement.1.0, announce_secret),
    );
    let challenge = dleq_challenge(statement, announcement);
    (challenge, dleq_response(witness, announce_secret, challenge))
}

/// The announcement that a challenge and a response imply.
pub open spec fn implied_announcement(statement: StatementView, proof: (Seq<u8>, nat)) -> (
    Seq<u8>,
    Seq<u8>,
) {
    (
        g1_diff(g1_scale(statement.0.0, proof.1), g1_scale(statement.0.1, le_nat(proof.0))),
        gt_diff(gt_scale(statement.1.0, proof.1), gt_scale(statement.1.1, le_nat(proof.0))),
    )
}

/// Whether a proof is accepted: the announcement it implies hashes to its
/// challenge.
pub open spec fn dleq_accepts(statement: StatementView, proof: (Seq<u8>, nat)) -> bool {
    dleq_challenge(statement, implied_announcement(statement, proof)) == proof.0
}

/// Whether `witness` is the discrete logarithm that the statement speaks of,
/// in both groups.
pub open spec fn statement_holds(statement: StatementView, witness: nat) -> bool {
    &&& statement.0.1 == g1_scale(statement.0.0, witness)
    &&& statement.1.1 == gt_scale(statement.1.0, witness)
}

/// Whether `commit` commits to `m` under `commit_base` and `ri_encryption`
/// encrypts `m` under `sig_point`, both with the randomness `ri_prime`.
pub open spec fn encrypts_commitment(
    ri_encryption: Seq<u8>,
    sig_point: Seq<u8>,
    commit_base: Seq<u8>,
    commit: (Seq<u8>, Seq<u8>),
    ri_prime: nat,
    m: Seq<u8>,
) -> bool {
    &&& commit.0 == g1_scale(g1_generator_repr(), ri_prime)
    &&& commit.1 == gt_sum(gt_scale(commit_base, ri_prime), m)
    &&& ri_encryption == gt_sum(gt_scale(sig_point, ri_prime), m)
}

/// The response less the challenge times the witness is the announcement
/// secret.
pub proof fn lemma_response_less_product(witness: nat, announce_secret: nat, challenge: nat)
    requires
        announce_secret < bls_order(),
    ensures
        scalar_difference(
            scalar_sum(announce_secret, scalar_product(challenge, witness)),
            scalar_product(witness, challenge),
        ) == announce_secret,
{
    let r = bls_order() as int;
    assert(challenge * witness == witness * challenge) by (nonlinear_arith);
    let t = scalar_product(challenge, witness) as int;
    assert(t % r == t);
    let z = scalar_sum(announce_secret, t as nat) as int;
    if announce_secret + t < r {
        assert(z == announce_secret + t);
        assert(((z + r) - t) % r == announce_secret) by {
            vstd::arithmetic::div_mod::lemma_mod_add_multiples_vanish(announce_secret as int, r);
            assert(announce_secret as int % r == announce_secret);
        }
    } else {
        assert(z == announce_secret + t - r) by {
            vstd::arithmetic::div_mod::lemma_mod_sub_multiples_vanish(announce_secret + t, r);
            assert((announce_secret + t - r) % r == announce_secret + t - r);
        }
        assert(((z + r) - t) % r == announce_secret);
    }
}

/// The statement that ties a ciphertext to a commitment: the commitment's
/// `G1` half is `w * g1`, and `ciphertext - commit.1` is
/// `w * (sig_point - commit_base)`.
pub open spec fn equality_statement(
    ri_encryption: Seq<u8>,
    sig_point: Seq<u8>,
    commit_base: Seq<u8>,
    commit: (Seq<u8>, Seq<u8>),
) -> StatementView {
    (
        (g1_generator_repr(), commit.0),
        (gt_diff(sig_point, commit_base), gt_diff(ri_encryption, commit.1)),
    )
}

/// A number that fits in 31 bytes is below the order of the scalar field.
pub proof fn lemma_pow256_31_below_order()
    ensures
        pow256(31) < bls_order(),
{
    reveal_with_fuel(pow256, 32);
    assert(pow256(31) == 0x100000000000000000000000000000000000000000000000000000000000000nat);
}

/// The scalar that a challenge stands for: its bytes as a little-endian number.
pub fn normalize_challenge(challenge: &[u8; 31]) -> (r: BlsScalar)
    ensures
        r@ == le_nat(challenge@),
{
    let mut bytes: [u8; 32] = [0u8; 32];
    let mut i: usize = 0;
    while i < 31
        invariant
            i <= 31,
            bytes@[31] == 0,
            forall|k: int| 0 <= k < i ==> bytes@[k] == challenge@[k],
        decreases 31 - i,
    {
        bytes[i] = challenge[i];
        i += 1;
    }
    proof {
        assert(bytes@.drop_last() =~= challenge@);
        assert(bytes@.last() == 0);
        assert(le_nat(bytes@) == le_nat(challenge@)) by {
            assert(bytes@.last() as nat * pow256(31) == 0) by (nonlinear_arith)
                requires
                    bytes@.last() == 0,
            ;
        }
        lemma_le_nat_bound(challenge@);
        lemma_pow256_31_below_order();
    }
    BlsScalar::from_bytes(&bytes).unwrap()
}

/// The first 31 bytes of a digest.
fn truncate_digest(digest: &[u8; 32]) -> (r: [u8; 31])
    ensures
        r@ == digest@.take(31),
{
    let mut out: [u8; 31] = [0u8; 31];
    let mut i: usize = 0;
    while i < 31
        invariant
            i <= 31,
            forall|k: int| 0 <= k < i ==> out@[k] == digest@[k],
        decreases 31 - i,
    {
        out[i] = digest[i];
        i += 1;
    }
    assert(out@ =~= digest@.take(31));
    out
}

impl DLG1 {
    /// Appends the protocol's tag.
    pub fn write_to(&self, w: &mut Vec<u8>)
        ensures
            final(w)@ == old(w)@ + g1_label(),
    {
        append_bytes(w, "DL(bls12-381-G1)".as_bytes());
    }

    /// The response `u + c * w`.
    pub fn respond(&self, witness: &BlsScalar, announce_secret: &BlsScalar, challenge: &[u8; 31]) -> (r:
        BlsScalar)
        ensures
            r@ == dleq_response(witness@, announce_secret@, challenge@),
    {
        let c = normalize_challenge(challenge);
        announce_secret.add(&c.mul(witness))
    }

    /// The announcement `u * g`, where `g` is the statement's base.
    pub fn announce(&self, statement: &(G1Point, G1Point), announce_secret: &BlsScalar) -> (r:
        G1Point)
        ensures
            r@ == g1_scale(statement.0@, announce_secret@),
    {
        statement.0.mul(announce_secret)
    }

    /// A fresh announcement secret.
    pub fn gen_announce_secret(&self) -> (r: BlsScalar)
        ensures
            r@ < bls_order(),
    {
        BlsScalar::random()
    }

    /// The announcement `z * g - c * x` that challenge and response imply.
    pub fn implied_announcement(
        &self,
        statement: &(G1Point, G1Point),
        challenge: &[u8; 31],
        response: &BlsScalar,
    ) -> (r: G1Point)
        ensures
            r@ == g1_diff(
                g1_scale(statement.0@, response@),
                g1_scale(statement.1@, le_nat(challenge@)),
            ),
            forall|witness: nat, announce_secret: nat|
                announce_secret < bls_order() && #[trigger] g1_is_multiple(
                    statement.1@,
                    statement.0@,
                    witness,
                ) && response@ == #[trigger] dleq_response(witness, announce_secret, challenge@)
                    ==> r@ == g1_scale(statement.0@, announce_secret),
    {
        let c = normalize_challenge(challenge);
        let scaled_base = statement.0.mul(response);
        let scaled_image = statement.1.mul(&c);
        let implied = scaled_base.sub(&scaled_image);
        proof {
            assert forall|witness: nat, announce_secret: nat|
                announce_secret < bls_order() && #[trigger] g1_is_multiple(
                    statement.1@,
                    statement.0@,
                    witness,
                ) && response@ == #[trigger] dleq_response(
                    witness,
                    announce_secret,
                    challenge@,
                ) implies implied@ == g1_scale(statement.0@, announce_secret) by {
                assert(g1_is_multiple(scaled_base@, statement.0@, response@));
                assert(g1_is_multiple(
                    scaled_image@,
                    statement.0@,
                    scalar_product(witness, c@),
                ));
                lemma_response_less_product(witness, announce_secret, c@);
            }
        }
        implied
    }

    /// Appends the statement's two encodings.
    pub fn hash_statement(&self, hash: &mut Vec<u8>, statement: &(G1Point, G1Point))
        ensures
            final(hash)@ == old(hash)@ + statement.0@ + statement.1@,
    {
        let a = statement.0.to_bytes();
        let b = statement.1.to_bytes();
        append_bytes(hash, &a);
        append_bytes(hash, &b);
    }

    /// Appends the announcement's encoding.
    pub fn hash_announcement(&self, hash: &mut Vec<u8>, announcement: &G1Point)
        ensures
            final(hash)@ == old(hash)@ + announcement@,
    {
        let a = announcement.to_bytes();
        append_bytes(hash, &a);
    }
}

impl DLGT {
    /// Appends the protocol's tag.
    pub fn write_to(&self, w: &mut Vec<u8>)
        ensures
            final(w)@ == old(w)@ + gt_label(),
    {
        append_bytes(w, "DL(bls12-381-GT)".as_bytes());
    }

    /// The response `u + c * w`.
    pub fn respond(&self, witness: &BlsScalar, announce_secret: &BlsScalar, challenge: &[u8; 31]) -> (r:
        BlsScalar)
        ensures
            r@ == dleq_response(witness@, announce_secret@, challenge@),
    {
        let c = normalize_challenge(challenge);
        announce_secret.add(&c.mul(witness))
    }

    /// The announcement `u * g`, where `g` is the statement's base.
    pub fn announce(&self, statement: &(GtPoint, GtPoint), announce_secret: &BlsScalar) -> (r:
        GtPoint)
        ensures
            r@ == gt_scale(statement.0@, announce_secret@),
    {
        statement.0.mul(announce_secret)
    }

    /// A fresh announcement secret.
    pub fn gen_announce_secret(&self) -> (r: BlsScalar)
        ensures
            r@ < bls_order(),
    {
        BlsScalar::random()
    }

    /// The announcement `z * g - c * x` that challenge and response imply.
    pub fn implied_announcement(
        &self,
        statement: &(GtPoint, GtPoint),
        challenge: &[u8; 31],
        response: &BlsScalar,
    ) -> (r: GtPoint)
        ensures
            r@ == gt_diff(
                gt_scale(statement.0@, response@),
                gt_scale(statement.1@, le_nat(challenge@)),
            ),
            forall|witness: nat, announce_secret: nat|
                announce_secret < bls_order() && #[trigger] gt_is_multiple(
                    statement.1@,
                    statement.0@,
                    witness,
                ) && response@ == #[trigger] dleq_response(witness, announce_secret, challenge@)
                    ==> r@ == gt_scale(statement.0@, announce_secret),
    {
        let c = normalize_challenge(challenge);
        let scaled_base = statement.0.mul(response);
        let scaled_image = statement.1.mul(&c);
        let implied = scaled_base.sub(&scaled_image);
        proof {
            assert forall|witness: nat, announce_secret: nat|
                announce_secret < bls_order() && #[trigger] gt_is_multiple(
                    statement.1@,
                    statement.0@,
                    witness,
                ) && response@ == #[trigger] dleq_response(
                    witness,
                    announce_secret,
                    challenge@,
                ) implies implied@ == gt_scale(statement.0@, announce_secret) by {
                assert(gt_is_multiple(scaled_base@, statement.0@, response@));
                assert(gt_is_multiple(
                    scaled_image@,
                    statement.0@,
                    scalar_product(witness, c@),
                ));
                lemma_response_less_product(witness, announce_secret, c@);
            }
        }
        implied
    }

    /// Appends the statement's two encodings.
    pub fn hash_statement(&self, hash: &mut Vec<u8>, statement: &(GtPoint, GtPoint))
        ensures
            final(hash)@ == old(hash)@ + statement.0@ + statement.1@,
    {
        let a = statement.0.to_bytes();
        let b = statement.1.to_bytes();
        append_bytes(hash, a.as_slice());
        append_bytes(hash, b.as_slice());
    }

    /// Appends the announcement's encoding.
    pub fn hash_announcement(&self, hash: &mut Vec<u8>, announcement: &GtPoint)
        ensures
            final(hash)@ == old(hash)@ + announcement@,
    {
        let a = announcement.to_bytes();
        append_bytes(hash, a.as_slice());
    }
}

impl ProofSystem {
    /// The proof system.
    pub fn new() -> Self {
        ProofSystem { g1: DLG1 {  }, gt: DLGT {  } }
    }

    /// The challenge for a statement and an announcement.
    pub fn challenge(
        &self,
        statement: &((G1Point, G1Point), (GtPoint, GtPoint)),
        announcement: &(G1Point, GtPoint),
    ) -> (r: [u8; 31])
        ensures
            r@ == dleq_challenge(
                ((statement.0.0@, statement.0.1@), (statement.1.0@, statement.1.1@)),
                (announcement.0@, announcement.1@),
            ),
    {
        let mut transcript: Vec<u8> = Vec::new();
        self.g1.write_to(&mut transcript);
        self.g1.hash_statement(&mut transcript, &statement.0);
        self.gt.write_to(&mut transcript);
        self.gt.hash_statement(&mut transcript, &statement.1);
        self.g1.hash_announcement(&mut transcript, &announcement.0);
        self.gt.hash_announcement(&mut transcript, &announcement.1);
        assert(transcript@ =~= dleq_transcript(
            ((statement.0.0@, statement.0.1@), (statement.1.0@, statement.1.1@)),
            (announcement.0@, announcement.1@),
        ));
        let digest = sha256(transcript.as_slice());
        truncate_digest(&digest)
    }

    /// The proof for `witness` that the announcement secret gives.
    pub fn prove_with(
        &self,
        witness: &BlsScalar,
        statement: &((G1Point, G1Point), (GtPoint, GtPoint)),
        announce_secret: &BlsScalar,
    ) -> (r: Proof)
        ensures
            r@ == dleq_proof_of(
                witness@,
                ((statement.0.0@, statement.0.1@), (statement.1.0@, statement.1.1@)),
                announce_secret@,
            ),
    {
        let announcement = (
            self.g1.announce(&statement.0, announce_secret),
            self.gt.announce(&statement.1, announce_secret),
        );
        let challenge = self.challenge(statement, &announcement);
        let response = self.g1.respond(witness, announce_secret, &challenge);
        Proof { challenge, response }
    }

    /// Whether `proof` is accepted for `statement`. The proof that a
    /// witness of the statement gives is accepted.
    pub fn verify(&self, statement: &((G1Point, G1Point), (GtPoint, GtPoint)), proof: &Proof) -> (r:
        bool)
        ensures
            r == dleq_accepts(
                ((statement.0.0@, statement.0.1@), (statement.1.0@, statement.1.1@)),
                proof@,
            ),
            forall|witness: nat, announce_secret: nat|
                announce_secret < bls_order() && statement_holds(
                    ((statement.0.0@, statement.0.1@), (statement.1.0@, statement.1.1@)),
                    witness,
                ) && proof@ == #[trigger] dleq_proof_of(
                    witness,
                    ((statement.0.0@, statement.0.1@), (statement.1.0@, statement.1.1@)),
                    announce_secret,
                ) ==> r,
    {
        let announcement = (
            self.g1.implied_announcement(&statement.0, &proof.challenge, &proof.response),
            self.gt.implied_announcement(&statement.1, &proof.challenge, &proof.response),
        );
        let challenge = self.challenge(statement, &announcement);
        let accepted = bytes_eq(&challenge, &proof.challenge);
        proof {
            let view = ((statement.0.0@, statement.0.1@), (statement.1.0@, statement.1.1@));
            assert forall|witness: nat, announce_secret: nat|
                announce_secret < bls_order() && statement_holds(view, witness) && proof@
                    == #[trigger] dleq_proof_of(witness, view, announce_secret) implies accepted by {
                let made = (
                    g1_scale(view.0.0, announce_secret),
                    gt_scale(view.1.0, announce_secret),
                );
                assert(proof.response@ == dleq_response(
                    witness,
                    announce_secret,
                    proof.challenge@,
                ));
                assert(g1_is_multiple(statement.0.1@, statement.0.0@, witness));
                assert(gt_is_multiple(statement.1.1@, statement.1.0@, witness));
                assert(announcement.0@ == made.0);
                assert(announcement.1@ == made.1);
            }
        }
        accepted
    }
}

/// The statement for a ciphertext, the anticipated attestation it was made
/// with, the commitment base and the commitment.
pub fn statement_for(
    ri_encryption: &GtPoint,
    sig_point: &GtPoint,
    commit_base: &GtPoint,
    commit: &(G1Point, GtPoint),
) -> (r: ((G1Point, G1Point), (GtPoint, GtPoint)))
    ensures
        ((r.0.0@, r.0.1@), (r.1.0@, r.1.1@)) == equality_statement(
            ri_encryption@,
            sig_point@,
            commit_base@,
            (commit.0@, commit.1@),
        ),
        forall|ri_prime: nat, m: Seq<u8>| #[trigger]
            encrypts_commitment(
                ri_encryption@,
                sig_point@,
                commit_base@,
                (commit.0@, commit.1@),
                ri_prime,
                m,
            ) ==> statement_holds(((r.0.0@, r.0.1@), (r.1.0@, r.1.1@)), ri_prime),
{
    let enc_sub = ri_encryption.sub(&commit.1);
    let sig_sub = sig_point.sub(commit_base);
    proof {
        assert forall|ri_prime: nat, m: Seq<u8>| #[trigger]
            encrypts_commitment(
                ri_encryption@,
                sig_point@,
                commit_base@,
                (commit.0@, commit.1@),
                ri_prime,
                m,
            ) implies enc_sub@ == gt_scale(sig_sub@, ri_prime) by {
            assert(gt_is_sum(ri_encryption@, gt_scale(sig_point@, ri_prime), m));
            assert(gt_is_sum(commit.1@, gt_scale(commit_base@, ri_prime), m));
        }
    }
    ((G1Point::generator(), commit.0), (sig_sub, enc_sub))
}

/// Proves, with a given announcement secret, that `ri_encryption` encrypts
/// under `sig_point` what `commit` commits to under `commit_base`, where
/// `ri_prime` is the randomness of both.
pub fn prove_eqaulity_with(
    proof_system: &ProofSystem,
    ri_prime: BlsScalar,
    ri_encryption: GtPoint,
    sig_point: GtPoint,
    commit_base: GtPoint,
    commit: (G1Point, GtPoint),
    announce_secret: &BlsScalar,
) -> (r: Proof)
    ensures
        r@ == dleq_proof_of(
            ri_prime@,
            equality_statement(ri_encryption@, sig_point@, commit_base@, (commit.0@, commit.1@)),
            announce_secret@,
        ),
{
    let statement = statement_for(&ri_encryption, &sig_point, &commit_base, &commit);
    proof_system.prove_with(&ri_prime, &statement, announce_secret)
}

/// Proves that `ri_encryption` encrypts under `sig_point` what `commit`
/// commits to under `commit_base`, where `ri_prime` is the randomness of
/// both. The announcement secret is drawn at random.
pub fn prove_eqaulity(
    proof_system: &ProofSystem,
    ri_prime: BlsScalar,
    ri_encryption: GtPoint,
    sig_point: GtPoint,
    commit_base: GtPoint,
    commit: (G1Point, GtPoint),
) -> (r: Proof)
    ensures
        exists|u: nat|
            u < bls_order() && r@ == #[trigger] dleq_proof_of(
                ri_prime@,
                equality_statement(
                    ri_encryption@,
                    sig_point@,
                    commit_base@,
                    (commit.0@, commit.1@),
                ),
                u,
            ),
{
    let u = proof_system.g1.gen_announce_secret();
    prove_eqaulity_with(
        proof_system,
        ri_prime,
        ri_encryption,
        sig_point,
        commit_base,
        commit,
        &u,
    )
}

/// Whether `proof` shows that `ri_encryption` encrypts under `sig_point` what
/// `commit` commits to under `commit_base`. The proof that the randomness of
/// ciphertext and commitment gives is accepted.
pub fn verify_eqaulity(
    proof_system: &ProofSystem,
    proof: &Proof,
    ri_encryption: GtPoint,
    sig_point: GtPoint,
    commit_base: GtPoint,
    commit: (G1Point, GtPoint),
) -> (r: bool)
    ensures
        r == dleq_accepts(
            equality_statement(ri_encryption@, sig_point@, commit_base@, (commit.0@, commit.1@)),
            proof@,
        ),
        forall|ri_prime: nat, announce_secret: nat, m: Seq<u8>|
            announce_secret < bls_order() && #[trigger] encrypts_commitment(
                ri_encryption@,
                sig_point@,
                commit_base@,
                (commit.0@, commit.1@),
                ri_prime,
                m,
            ) && proof@ == #[trigger] dleq_proof_of(
                ri_prime,
                equality_statement(
                    ri_encryption@,
                    sig_point@,
                    commit_base@,
                    (commit.0@, commit.1@),
                ),
                announce_secret,
            ) ==> r,
{
    let statement = statement_for(&ri_encryption, &sig_point, &commit_base, &commit);
    proof_system.verify(&statement, proof)
}

} // verus!
