//! A whole session in one place: a dealer, a receiver and the oracles, all
//! honest.

use crate::alice::{is_answer, lemma_answer_to_same_challenge, Alice1, Round3Randomness};
use crate::bls::G2Point;
use crate::bob::Bob1;
use crate::chain::{base_scale, chain_order, ChainPoint, ChainScalar};
use crate::common::Params;
use crate::honest::{honest_session, honest_signatures, lemma_honest_oracle};
use crate::messages::Error;
use crate::oracle::Oracle;
use crate::poly::poly_eval;
use vstd::prelude::*;

verus! {

/// The images of the secrets.
fn images_of(secrets: &Vec<ChainScalar>) -> (r: Vec<ChainPoint>)
    ensures
        r@.len() == secrets@.len(),
        forall|o: int| 0 <= o < r@.len() ==> (#[trigger] r@[o])@ == base_scale(secrets@[o]@),
{
    let mut images: Vec<ChainPoint> = Vec::new();
    let mut o: usize = 0;
    while o < secrets.len()
        invariant
            o <= secrets@.len(),
            images@.len() == o,
            forall|k: int| 0 <= k < o ==> (#[trigger] images@[k])@ == base_scale(secrets@[k]@),
        decreases secrets@.len() - o,
    {
        images.push(ChainPoint::from_scalar(&secrets[o]));
        o += 1;
    }
    images
}

/// A copy of the secrets.
fn copy_of(secrets: &Vec<ChainScalar>) -> (r: Vec<ChainScalar>)
    ensures
        r@.len() == secrets@.len(),
        forall|o: int| 0 <= o < r@.len() ==> (#[trigger] r@[o])@ == secrets@[o]@,
{
    let mut copy: Vec<ChainScalar> = Vec::new();
    let mut o: usize = 0;
    while o < secrets.len()
        invariant
            o <= secrets@.len(),
            copy@.len() == o,
            forall|k: int| 0 <= k < o ==> (#[trigger] copy@[k])@ == secrets@[k]@,
        decreases secrets@.len() - o,
    {
        copy.push(secrets[o].clone());
        o += 1;
    }
    copy
}

/// Runs a session for the outcome `outcome`: the dealer commits, the
/// receiver challenges, the dealer answers, the receiver checks the answer,
/// every oracle attests to the outcome, and the receiver recovers a secret.
/// With honest parties all around, the secret is the dealer's for the
/// outcome.
#[verifier::rlimit(50)]
pub fn run_session(
    params: &Params,
    secrets: Vec<ChainScalar>,
    oracles: &Vec<Oracle>,
    outcome: u32,
) -> (r: Result<ChainScalar, Error>)
    requires
        params.wf(),
        !params.monotone,
        params.bucket_size >= 1,
        params.threshold <= params.oracle_keys@.len(),
        oracles@.len() == params.oracle_keys@.len(),
        forall|j: int|
            0 <= j < oracles@.len() ==> (#[trigger] oracles@[j]).wf()
                && oracles@[j].spec_public_key() == params.oracle_keys@[j]@,
        secrets@.len() == params.n_outcomes,
        outcome < params.n_outcomes,
    ensures
        r matches Ok(secret) && secret@ == secrets@[outcome as int]@,
{
    let images = images_of(&secrets);
    let kept = copy_of(&secrets);
    let mut o: usize = 0;
    while o < secrets.len()
        invariant
            o <= secrets@.len(),
            forall|k: int| 0 <= k < o ==> (#[trigger] secrets@[k])@ < chain_order(),
        decreases secrets@.len() - o,
    {
        let _ = secrets[o].to_bytes();
        o += 1;
    }
    let (alice, message1) = Alice1::new(params);
    let ghost commits = alice.commits();
    let ghost commit_secrets = alice.commit_secrets();
    let (bob, message2) = match Bob1::new(message1, params) {
        Ok(pair) => pair,
        Err(e) => {
            return Err(e);
        },
    };
    let ghost challenge = message2;
    let message3 = match alice.receive_message(message2, kept, params) {
        Ok(message3) => message3,
        Err(e) => {
            return Err(e);
        },
    };
    let ghost rnd = choose|rnd: Round3Randomness|
        rnd.fits(params) && rnd.valid() && #[trigger] is_answer(
            &message3,
            commits,
            commit_secrets,
            &challenge,
            kept@,
            params,
            &rnd,
        );
    let ghost sent = message3;
    proof {
        lemma_answer_to_same_challenge(
            &message3,
            commits,
            commit_secrets,
            &challenge,
            &bob.challenge(),
            kept@,
            params,
            &rnd,
        );
        assert(bob.commits() == commits);
        assert(bob.answer_is_honest(&message3, images@, params, commit_secrets, kept@, &rnd));
    }
    let bob2 = match bob.receive_message(message3, images, params) {
        Ok(bob2) => bob2,
        Err(e) => {
            return Err(e);
        },
    };
    proof {
        assert(honest_session(
            &bob2,
            &sent,
            commits,
            commit_secrets,
            &challenge,
            kept@,
            params,
            &rnd,
        ));
    }
    let bits = params.n_outcome_bits() as usize;
    let mut attestations: Vec<Vec<G2Point>> = Vec::new();
    let mut j: usize = 0;
    while j < oracles.len()
        invariant
            j <= oracles@.len(),
            oracles@.len() == params.oracle_keys@.len(),
            bits == params.spec_n_outcome_bits(),
            bits <= 32,
            attestations@.len() == j,
            forall|k: int|
                0 <= k < oracles@.len() ==> (#[trigger] oracles@[k]).wf()
                    && oracles@[k].spec_public_key() == params.oracle_keys@[k]@,
            forall|k: int|
                0 <= k < j ==> honest_signatures(
                    params,
                    k as nat,
                    outcome,
                    (#[trigger] attestations@[k])@,
                    oracles@[k].secret_key(),
                ),
        decreases oracles@.len() - j,
    {
        let sigs = oracles[j].attest(params.event_id.as_str(), bits, outcome);
        attestations.push(sigs);
        j += 1;
    }
    proof {
        let polynomial = seq![kept@[outcome as int]@] + rnd.polys@[outcome as int]@;
        assert(polynomial[0] == secrets@[outcome as int]@);
        assert forall|k: int|
            0 <= k < attestations@.len() && k
                < params.oracle_keys@.len() implies bob2.attests_honestly(
            params,
            k as nat,
            outcome,
            (#[trigger] attestations@[k])@,
            poly_eval(polynomial, (k + 1) as nat),
        ) by {
            lemma_honest_oracle(
                &bob2,
                &sent,
                commits,
                commit_secrets,
                &challenge,
                kept@,
                params,
                &rnd,
                k as nat,
                outcome,
                oracles@[k].secret_key(),
                attestations@[k]@,
            );
        }
        assert(bob2.all_attest_honestly(params, outcome, attestations@, polynomial));
    }
    bob2.receive_oracle_attestation(outcome, attestations, params)
}

} // verus!
