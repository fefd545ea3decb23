//! An honest session: what holds of the receiver's state after an honest
//! dealer's answer, so that the signatures of an honest oracle give the
//! oracle's share of the secret.
//!
//! What makes a session honest is what the dealer's and the receiver's
//! functions state of what they return. The receiver does not refuse an
//! honest dealer's answer; from the signatures of an honest oracle it
//! recovers the value at the oracle's place of the outcome's polynomial; and
//! from as many such values as the threshold it gets the outcome's secret.

use crate::alice::{encryption_of, encryption_view, is_answer, Round3Randomness};
use crate::bls::{g1_generator_repr, g1_scale, g2_scale, hash_to_g2, G2Point};
use crate::bob::Bob2;
use crate::bucket::honest_entry;
use crate::chain::{base_scale, chain_order, fadd, ChainScalar};
use crate::common::{bit_of, dst_tag, event_message, lemma_sizes, Params};
use crate::layout::{
    bucket_start, kept_indices, lemma_kept_indices, lemma_opened_indices, lemma_slot_of_bucket,
};
use crate::messages::{Commit, CommitSecret, Message2, Message3};
use crate::pads::{pad_sum, selected};
use crate::poly::poly_eval;
use vstd::prelude::*;

verus! {

/// Whether `bob` is the receiver's state after an honest dealer's answer
/// `message3` to the challenge `message2`: the commitments open to their
/// secrets, the answer is the dealer's for some randomness `rnd`, and the
/// receiver keeps of it what it is stated to keep. All scalars are below the
/// order of their field.
pub open spec fn honest_session(
    bob: &Bob2,
    message3: &Message3,
    commits: Seq<Commit>,
    commit_secrets: Seq<CommitSecret>,
    message2: &Message2,
    secrets: Seq<ChainScalar>,
    params: &Params,
    rnd: &Round3Randomness,
) -> bool {
    &&& params.wf()
    &&& !params.monotone
    &&& params.bucket_size >= 1
    &&& commits.len() == params.spec_m()
    &&& commit_secrets.len() == params.spec_m()
    &&& forall|i: int|
        0 <= i < commits.len() ==> (#[trigger] commits[i]).opens_to(
            params.elgamal_base@,
            commit_secrets[i].r@,
            commit_secrets[i].r_prime@,
            commit_secrets[i].m@,
        ) && commit_secrets[i].r@ < chain_order()
    &&& message2.fits(params)
    &&& rnd.fits(params)
    &&& rnd.valid()
    &&& secrets.len() == params.n_outcomes
    &&& forall|o: int|
        0 <= o < secrets.len() ==> (#[trigger] secrets[o])@ < chain_order()
            && bob.outcome_images()[o]@ == base_scale(secrets[o]@)
    &&& is_answer(message3, commits, commit_secrets, message2, secrets, params, rnd)
    &&& bob.wf(params)
    &&& bob.bit_map_images() == message3.bit_map_images@
    &&& bob.secret_share_pads() == message3.secret_share_pads_by_oracle@
    &&& forall|i: int|
        0 <= i < params.spec_nb() ==> {
            let commit = commits[kept_indices(
                params.spec_m(),
                message2.openings@,
            )[message2.bucket_mapping@[i] as int] as int];
            &&& (#[trigger] bob.entries()[i]).c0 == commit.C.0
            &&& bob.entries()[i].pad == commit.pad
            &&& bob.entries()[i].ciphertext == message3.encryptions@[i].1
            &&& bob.entries()[i].padded@ == message3.encryptions@[i].2@
        }
}

/// After an honest dealer's answer, every bucket begins with an honest
/// ciphertext for its oracle, bit and value, padded with the dealer's pad for
/// these.
#[verifier::rlimit(50)]
pub proof fn lemma_honest_buckets(
    bob: &Bob2,
    message3: &Message3,
    commits: Seq<Commit>,
    commit_secrets: Seq<CommitSecret>,
    message2: &Message2,
    secrets: Seq<ChainScalar>,
    params: &Params,
    rnd: &Round3Randomness,
    oracle: nat,
    bit: nat,
    value: nat,
)
    requires
        honest_session(bob, message3, commits, commit_secrets, message2, secrets, params, rnd),
        oracle < params.oracle_keys@.len(),
        bit < params.spec_n_outcome_bits(),
        value < 2,
    ensures
        bob.bucket_is_honest(
            params,
            oracle,
            bit,
            value,
            rnd.bit_pads@[oracle as int]@[bit as int]@[value as int]@,
        ),
{
    let bits = params.spec_n_outcome_bits();
    let size = params.bucket_size as nat;
    let n_oracles = params.oracle_keys@.len();
    let start = bucket_start(oracle, bit, value, bits, size);
    let pad = rnd.bit_pads@[oracle as int]@[bit as int]@[value as int]@;
    assert(start < size * (bits * 2) * n_oracles) by (nonlinear_arith)
        requires
            start == ((oracle * bits + bit) * 2 + value) * size,
            oracle < n_oracles,
            bit < bits,
            value < 2,
            size >= 1,
    ;
    assert(start < params.spec_nb());
    lemma_slot_of_bucket(oracle, bit, value, 0, bits, size);
    lemma_sizes(params);
    lemma_kept_indices(params.spec_m(), message2.openings@);
    lemma_opened_indices(params.spec_m(), message2.openings@);
    let kept = kept_indices(params.spec_m(), message2.openings@);
    let from = kept[message2.bucket_mapping@[start as int] as int] as int;
    let commit = commits[from];
    let secret = commit_secrets[from];
    let anticipated = params.spec_anticipation(oracle as int, bit as u32, value == 1);
    let sent = message3.encryptions@[start as int];
    assert(encryption_view(sent) == encryption_of(
        commit,
        secret,
        anticipated,
        params.elgamal_base@,
        pad,
        rnd.announce_secrets@[start as int]@,
    ));
    assert(commit.opens_to(params.elgamal_base@, secret.r@, secret.r_prime@, secret.m@));
    let entry = bob.entries()[start as int];
    assert(entry.pad@ == commit.pad@);
    assert(entry.c0@ == commit.C.0@);
    assert(entry.ciphertext@ == sent.1@);
    assert(honest_entry(entry, anticipated, secret.r@, secret.r_prime@, secret.m@, pad));
    assert(bob.bit_map_images()[oracle as int]@[bit as int]@[value as int]@ == base_scale(pad));
}

/// After an honest dealer's answer, an oracle that signs every bit of the
/// outcome with the secret key of its public key is honest for the value
/// at its place of the outcome's polynomial, whose constant term is the
/// outcome's secret.
#[verifier::rlimit(50)]
pub proof fn lemma_honest_oracle(
    bob: &Bob2,
    message3: &Message3,
    commits: Seq<Commit>,
    commit_secrets: Seq<CommitSecret>,
    message2: &Message2,
    secrets: Seq<ChainScalar>,
    params: &Params,
    rnd: &Round3Randomness,
    oracle: nat,
    outcome: u32,
    secret_key: nat,
    sigs: Seq<G2Point>,
)
    requires
        honest_session(bob, message3, commits, commit_secrets, message2, secrets, params, rnd),
        oracle < params.oracle_keys@.len(),
        outcome < params.n_outcomes,
        params.oracle_keys@[oracle as int]@ == g1_scale(g1_generator_repr(), secret_key),
        sigs.len() == params.spec_n_outcome_bits(),
        forall|b: int|
            0 <= b < sigs.len() ==> (#[trigger] sigs[b])@ == g2_scale(
                hash_to_g2(
                    event_message(params.event_id@, b as u32, bit_of(outcome as nat, b as nat)),
                    dst_tag(),
                ),
                secret_key,
            ),
    ensures
        bob.oracle_is_honest(
            params,
            oracle,
            outcome,
            sigs,
            secret_key,
            rnd.bit_pads@[oracle as int]@,
            poly_eval(seq![secrets[outcome as int]@] + rnd.polys@[outcome as int]@, oracle + 1),
        ),
{
    let bit_pads = rnd.bit_pads@[oracle as int]@;
    assert forall|b: int| 0 <= b < sigs.len() implies bob.bucket_is_honest(
        params,
        oracle,
        b as nat,
        selected(outcome as nat, b as nat) as nat,
        bit_pads[b]@[selected(outcome as nat, b as nat)]@,
    ) by {
        lemma_honest_buckets(
            bob,
            message3,
            commits,
            commit_secrets,
            message2,
            secrets,
            params,
            rnd,
            oracle,
            b as nat,
            selected(outcome as nat, b as nat) as nat,
        );
    }
    let share_pad = message3.secret_share_pads_by_oracle@[oracle as int]@[outcome as int];
    assert(share_pad@ == fadd(
        pad_sum(bit_pads, outcome as nat),
        poly_eval(seq![secrets[outcome as int]@] + rnd.polys@[outcome as int]@, oracle + 1),
    ));
}

/// Whether `sigs` are the signatures of oracle `oracle` on the bits of the
/// outcome, made with the secret key `secret_key` of the oracle's public
/// key.
pub open spec fn honest_signatures(
    params: &Params,
    oracle: nat,
    outcome: u32,
    sigs: Seq<G2Point>,
    secret_key: nat,
) -> bool {
    &&& params.oracle_keys@[oracle as int]@ == g1_scale(g1_generator_repr(), secret_key)
    &&& sigs.len() == params.spec_n_outcome_bits()
    &&& forall|b: int|
        0 <= b < sigs.len() ==> (#[trigger] sigs[b])@ == g2_scale(
            hash_to_g2(
                event_message(params.event_id@, b as u32, bit_of(outcome as nat, b as nat)),
                dst_tag(),
            ),
            secret_key,
        )
}

/// After an honest dealer's answer, where every oracle that gives a share
/// has signed with the secret key of its public key and as many oracles as
/// the threshold give a share, the attestations are honest for the outcome's
/// polynomial: the receiver then gets the outcome's secret.
pub proof fn lemma_honest_attestations(
    bob: &Bob2,
    message3: &Message3,
    commits: Seq<Commit>,
    commit_secrets: Seq<CommitSecret>,
    message2: &Message2,
    secrets: Seq<ChainScalar>,
    params: &Params,
    rnd: &Round3Randomness,
    outcome: u32,
    attestations: Seq<Vec<G2Point>>,
    secret_keys: Seq<nat>,
)
    requires
        honest_session(bob, message3, commits, commit_secrets, message2, secrets, params, rnd),
        outcome < params.n_outcomes,
        bob.shares(params, outcome, attestations, attestations.len()).len() >= params.threshold,
        forall|j: int|
            0 <= j < attestations.len() && j < params.oracle_keys@.len() && bob.oracle_share(
                params,
                j as nat,
                outcome,
                (#[trigger] attestations[j])@,
            ) is Some ==> honest_signatures(
                params,
                j as nat,
                outcome,
                attestations[j]@,
                secret_keys[j],
            ),
    ensures
        bob.attestations_are_honest(
            params,
            outcome,
            attestations,
            seq![secrets[outcome as int]@] + rnd.polys@[outcome as int]@,
        ),
        (seq![secrets[outcome as int]@] + rnd.polys@[outcome as int]@)[0]
            == secrets[outcome as int]@,
{
    let polynomial = seq![secrets[outcome as int]@] + rnd.polys@[outcome as int]@;
    assert(rnd.polys@[outcome as int]@.len() == params.threshold - 1);
    assert(polynomial[0] == secrets[outcome as int]@);
    assert forall|j: int|
        0 <= j < attestations.len() && j < params.oracle_keys@.len() implies bob.share_is_honest(
        params,
        j as nat,
        outcome,
        (#[trigger] attestations[j])@,
        poly_eval(polynomial, (j + 1) as nat),
    ) by {
        if bob.oracle_share(params, j as nat, outcome, attestations[j]@) is Some {
            lemma_honest_oracle(
                bob,
                message3,
                commits,
                commit_secrets,
                message2,
                secrets,
                params,
                rnd,
                j as nat,
                outcome,
                secret_keys[j],
                attestations[j]@,
            );
        }
    }
}

} // verus!
