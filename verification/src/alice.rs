//! The dealer: commits, and answers the receiver's challenge with openings,
//! ciphertexts and padded secret shares.

use crate::bls::{bls_order, gt_scale, gt_sum, BlsScalar, GtPoint};
use crate::chain::{base_scale, chain_order, fadd, ChainPoint, ChainScalar};
use crate::common::{lemma_sizes, Params};
use crate::dleq::{dleq_proof_of, equality_statement, prove_eqaulity_with, Proof, ProofSystem};
use crate::layout::{
    kept_indices, lemma_kept_indices, lemma_opened_indices, lemma_slot_oracle_bound, opened_indices,
    slot, slot_bit, slot_oracle, slot_value, split_by_openings,
};
use crate::messages::{Commit, CommitSecret, Error, Message1, Message2, Message3};
use crate::pads::{compute_pads, pad_sum};
use crate::poly::{is_image_of, poly_eval, PointPoly, ScalarPoly};
use vstd::prelude::*;

verus! {

/// The dealer after the first message: the commitments and their secrets.
pub struct Alice1 {
    commit_secrets: Vec<CommitSecret>,
    commits: Vec<Commit>,
}

/// What the dealer draws at random for the third message.
pub struct Round3Randomness {
    /// For each oracle and each bit of the outcome, the two pad scalars.
    pub bit_pads: Vec<Vec<[ChainScalar; 2]>>,
    /// For each outcome, the coefficients of its polynomial above the
    /// constant term.
    pub polys: Vec<ScalarPoly>,
    /// For each bucket position, the announcement secret of its proof.
    pub announce_secrets: Vec<BlsScalar>,
}

/// What is sent for a bucket position, as the proof, the encoding of the
/// ciphertext and the integer of the padded scalar.
pub open spec fn encryption_view(e: (Proof, GtPoint, ChainScalar)) -> (
    (Seq<u8>, nat),
    Seq<u8>,
    nat,
) {
    (e.0@, e.1@, e.2@)
}

/// What the dealer sends for one commitment in a bucket: the ElGamal
/// encryption of the committed element under the anticipated attestation,
/// the proof that ciphertext and commitment share their randomness, and the
/// committed chain scalar plus the bucket's pad.
pub open spec fn encryption_of(
    commit: Commit,
    secret: CommitSecret,
    anticipated: Seq<u8>,
    base: Seq<u8>,
    pad: nat,
    announce_secret: nat,
) -> ((Seq<u8>, nat), Seq<u8>, nat) {
    let ciphertext = gt_sum(gt_scale(anticipated, secret.r_prime@), secret.m@);
    (
        dleq_proof_of(
            secret.r_prime@,
            equality_statement(ciphertext, anticipated, base, (commit.C.0@, commit.C.1@)),
            announce_secret,
        ),
        ciphertext,
        fadd(secret.r@, pad),
    )
}

/// Encrypts one commitment for a bucket.
pub fn encrypt(
    proof_system: &ProofSystem,
    commit: &Commit,
    secret: &CommitSecret,
    anticipated: &GtPoint,
    base: &GtPoint,
    pad: &ChainScalar,
    announce_secret: &BlsScalar,
) -> (r: (Proof, GtPoint, ChainScalar))
    ensures
        encryption_view(r) == encryption_of(
            *commit,
            *secret,
            anticipated@,
            base@,
            pad@,
            announce_secret@,
        ),
{
    let ri_encryption = anticipated.mul(&secret.r_prime).add(&secret.m);
    let proof = prove_eqaulity_with(
        proof_system,
        secret.r_prime,
        ri_encryption,
        *anticipated,
        *base,
        commit.C,
        announce_secret,
    );
    let padded_secret = secret.r.add(pad);
    (proof, ri_encryption, padded_secret)
}

impl Round3Randomness {
    /// Whether there is randomness for every place that the parameters give:
    /// two pads for each bit of each oracle, `threshold - 1` coefficients for
    /// each outcome, and an announcement secret for each bucket position.
    pub open spec fn fits(&self, params: &Params) -> bool {
        &&& self.bit_pads@.len() == params.oracle_keys@.len()
        &&& forall|j: int|
            0 <= j < self.bit_pads@.len() ==> (#[trigger] self.bit_pads@[j])@.len()
                == params.spec_n_outcome_bits()
        &&& self.polys@.len() == params.n_outcomes
        &&& forall|o: int|
            0 <= o < self.polys@.len() ==> (#[trigger] self.polys@[o])@.len() == params.threshold
                - 1
        &&& self.announce_secrets@.len() == params.spec_nb()
    }

    /// Whether every scalar is below the order of its field.
    pub open spec fn valid(&self) -> bool {
        &&& forall|j: int, b: int, v: int|
            0 <= j < self.bit_pads@.len() && 0 <= b < self.bit_pads@[j]@.len() && 0 <= v < 2 ==> (
            #[trigger] self.bit_pads@[j]@[b]@[v])@ < chain_order()
        &&& forall|i: int|
            0 <= i < self.announce_secrets@.len() ==> (#[trigger] self.announce_secrets@[i])@
                < bls_order()
    }

    /// Whether there is randomness for every place that the parameters give.
    pub fn check(&self, params: &Params) -> (r: bool)
        requires
            params.wf(),
        ensures
            r == self.fits(params),
    {
        if self.bit_pads.len() != params.oracle_keys.len() {
            return false;
        }
        let bits = params.n_outcome_bits() as usize;
        let mut j: usize = 0;
        while j < self.bit_pads.len()
            invariant
                j <= self.bit_pads@.len(),
                bits == params.spec_n_outcome_bits(),
                forall|k: int| 0 <= k < j ==> (#[trigger] self.bit_pads@[k])@.len() == bits,
            decreases self.bit_pads@.len() - j,
        {
            if self.bit_pads[j].len() != bits {
                return false;
            }
            j += 1;
        }
        if self.polys.len() != params.n_outcomes as usize {
            return false;
        }
        let tail = (params.threshold - 1) as usize;
        let mut o: usize = 0;
        while o < self.polys.len()
            invariant
                o <= self.polys@.len(),
                tail == params.threshold - 1,
                forall|k: int| 0 <= k < o ==> (#[trigger] self.polys@[k])@.len() == tail,
            decreases self.polys@.len() - o,
        {
            if self.polys[o].poly_len() != tail {
                return false;
            }
            o += 1;
        }
        self.announce_secrets.len() == params.NB()
    }

    /// Draws the randomness for a third message.
    pub fn draw(params: &Params) -> (r: Self)
        requires
            params.wf(),
        ensures
            r.fits(params),
            r.valid(),
    {
        let bits = params.n_outcome_bits();
        let mut bit_pads: Vec<Vec<[ChainScalar; 2]>> = Vec::new();
        let mut j: usize = 0;
        while j < params.oracle_keys.len()
            invariant
                j <= params.oracle_keys@.len(),
                bits == params.spec_n_outcome_bits(),
                bit_pads@.len() == j,
                forall|k: int| 0 <= k < j ==> (#[trigger] bit_pads@[k])@.len() == bits,
                forall|k: int, b: int, v: int|
                    0 <= k < j && 0 <= b < bit_pads@[k]@.len() && 0 <= v < 2 ==> (
                    #[trigger] bit_pads@[k]@[b]@[v])@ < chain_order(),
            decreases params.oracle_keys@.len() - j,
        {
            let mut oracle_pads: Vec<[ChainScalar; 2]> = Vec::new();
            let mut b: u32 = 0;
            while b < bits
                invariant
                    b <= bits,
                    oracle_pads@.len() == b,
                    forall|c: int, v: int|
                        0 <= c < b && 0 <= v < 2 ==> (#[trigger] oracle_pads@[c]@[v])@
                            < chain_order(),
                decreases bits - b,
            {
                oracle_pads.push([ChainScalar::random(), ChainScalar::random()]);
                b += 1;
            }
            bit_pads.push(oracle_pads);
            j += 1;
        }
        let tail = (params.threshold - 1) as usize;
        let mut polys: Vec<ScalarPoly> = Vec::new();
        let mut o: u32 = 0;
        while o < params.n_outcomes
            invariant
                o <= params.n_outcomes,
                tail == params.threshold - 1,
                polys@.len() == o,
                forall|k: int| 0 <= k < o ==> (#[trigger] polys@[k])@.len() == tail,
            decreases params.n_outcomes - o,
        {
            polys.push(ScalarPoly::random(tail));
            o += 1;
        }
        let nb = params.NB();
        let mut announce_secrets: Vec<BlsScalar> = Vec::new();
        let mut i: usize = 0;
        while i < nb
            invariant
                i <= nb,
                announce_secrets@.len() == i,
                forall|k: int| 0 <= k < i ==> (#[trigger] announce_secrets@[k])@ < bls_order(),
            decreases nb - i,
        {
            announce_secrets.push(BlsScalar::random());
            i += 1;
        }
        Round3Randomness { bit_pads, polys, announce_secrets }
    }
}

/// Whether `message3` is the dealer's answer to `message` with the
/// randomness `rnd`: the secrets' randomness of the opened commitments in
/// rising order of their indices; for each bucket position the encryption of
/// the kept commitment that `message` maps to it, for the oracle, bit and
/// bit value of that position; the images of the pads; the images of the
/// polynomials' coefficients above the constant term; and for each oracle `j`
/// and each outcome the outcome's pad plus the value at `j + 1` of the
/// outcome's polynomial, whose constant term is the outcome's secret.
pub open spec fn is_answer(
    message3: &Message3,
    commits: Seq<Commit>,
    commit_secrets: Seq<CommitSecret>,
    message: &Message2,
    secrets: Seq<ChainScalar>,
    params: &Params,
    rnd: &Round3Randomness,
) -> bool {
    let kept = kept_indices(params.spec_m(), message.openings@);
    let opened = opened_indices(params.spec_m(), message.openings@);
    let bits = params.spec_n_outcome_bits();
    let size = params.bucket_size as nat;
    &&& message3.openings@.len() == opened.len()
    &&& forall|k: int|
        0 <= k < opened.len() ==> (#[trigger] message3.openings@[k])@
            == commit_secrets[opened[k] as int].r_prime@
    &&& message3.encryptions@.len() == params.spec_nb()
    &&& forall|i: int|
        0 <= i < params.spec_nb() ==> encryption_view(#[trigger] message3.encryptions@[i])
            == encryption_of(
            commits[kept[message.bucket_mapping@[i] as int] as int],
            commit_secrets[kept[message.bucket_mapping@[i] as int] as int],
            params.spec_anticipation(
                slot_oracle(i as nat, bits, size) as int,
                slot_bit(i as nat, bits, size) as u32,
                slot_value(i as nat, size) == 1,
            ),
            params.elgamal_base@,
            rnd.bit_pads@[slot_oracle(i as nat, bits, size) as int]@[slot_bit(
                i as nat,
                bits,
                size,
            ) as int]@[slot_value(i as nat, size) as int]@,
            rnd.announce_secrets@[i]@,
        )
    &&& message3.bit_map_images@.len() == params.oracle_keys@.len()
    &&& forall|j: int|
        0 <= j < message3.bit_map_images@.len() ==> (#[trigger] message3.bit_map_images@[j])@.len()
            == bits
    &&& forall|j: int, b: int, v: int|
        0 <= j < message3.bit_map_images@.len() && 0 <= b < bits && 0 <= v < 2 ==> (
        #[trigger] message3.bit_map_images@[j]@[b]@[v])@ == base_scale(
            rnd.bit_pads@[j]@[b]@[v]@,
        )
    &&& message3.polys@.len() == params.n_outcomes
    &&& forall|o: int|
        0 <= o < message3.polys@.len() ==> is_image_of(
            (#[trigger] message3.polys@[o])@,
            rnd.polys@[o]@,
        )
    &&& message3.secret_share_pads_by_oracle@.len() == params.oracle_keys@.len()
    &&& forall|j: int|
        0 <= j < message3.secret_share_pads_by_oracle@.len() ==> (
        #[trigger] message3.secret_share_pads_by_oracle@[j])@.len() == params.n_outcomes
    &&& forall|j: int, o: int|
        0 <= j < message3.secret_share_pads_by_oracle@.len() && 0 <= o < params.n_outcomes ==> (
        #[trigger] message3.secret_share_pads_by_oracle@[j]@[o])@ == fadd(
            pad_sum(rnd.bit_pads@[j]@, o as nat),
            poly_eval(seq![secrets[o]@] + rnd.polys@[o]@, (j + 1) as nat),
        )
}

/// The randomness of the opened commitments, in the order of `opened`.
fn open_commits(commit_secrets: &Vec<CommitSecret>, opened: &Vec<usize>) -> (r: Vec<BlsScalar>)
    requires
        forall|k: int| 0 <= k < opened@.len() ==> opened@[k] < commit_secrets@.len(),
    ensures
        r@.len() == opened@.len(),
        forall|k: int|
            0 <= k < opened@.len() ==> (#[trigger] r@[k])@
                == commit_secrets@[opened@[k] as int].r_prime@,
{
    let mut openings: Vec<BlsScalar> = Vec::new();
    let mut k: usize = 0;
    while k < opened.len()
        invariant
            k <= opened@.len(),
            forall|l: int| 0 <= l < opened@.len() ==> opened@[l] < commit_secrets@.len(),
            openings@.len() == k,
            forall|l: int|
                0 <= l < k ==> (#[trigger] openings@[l])@
                    == commit_secrets@[opened@[l] as int].r_prime@,
        decreases opened@.len() - k,
    {
        openings.push(commit_secrets[opened[k]].r_prime);
        k += 1;
    }
    openings
}

/// The anticipated attestations of all oracles.
pub fn all_anticipations(params: &Params) -> (r: Vec<Vec<[GtPoint; 2]>>)
    ensures
        r@.len() == params.oracle_keys@.len(),
        forall|j: int|
            0 <= j < r@.len() ==> (#[trigger] r@[j])@.len() == params.spec_n_outcome_bits(),
        forall|j: int, b: int, v: int|
            0 <= j < r@.len() && 0 <= b < params.spec_n_outcome_bits() && 0 <= v < 2 ==> (
            #[trigger] r@[j]@[b]@[v])@ == params.spec_anticipation(j, b as u32, v == 1),
{
    let mut all: Vec<Vec<[GtPoint; 2]>> = Vec::new();
    let mut j: usize = 0;
    while j < params.oracle_keys.len()
        invariant
            j <= params.oracle_keys@.len(),
            all@.len() == j,
            forall|k: int|
                0 <= k < j ==> (#[trigger] all@[k])@.len() == params.spec_n_outcome_bits(),
            forall|k: int, b: int, v: int|
                0 <= k < j && 0 <= b < params.spec_n_outcome_bits() && 0 <= v < 2 ==> (
                #[trigger] all@[k]@[b]@[v])@ == params.spec_anticipation(k, b as u32, v == 1),
        decreases params.oracle_keys@.len() - j,
    {
        let one = params.iter_anticipations(j);
        proof {
            assert forall|b: int, v: int|
                0 <= b < params.spec_n_outcome_bits() && 0 <= v < 2 implies (
            #[trigger] one@[b]@[v])@ == params.spec_anticipation(j as int, b as u32, v == 1) by {
                let pair = one@[b];
                assert(pair@[0]@ == params.spec_anticipation(j as int, b as u32, false));
            }
        }
        all.push(one);
        j += 1;
    }
    all
}

/// The images of the pads.
fn pad_images(bit_pads: &Vec<Vec<[ChainScalar; 2]>>) -> (r: Vec<Vec<[ChainPoint; 2]>>)
    ensures
        r@.len() == bit_pads@.len(),
        forall|j: int| 0 <= j < r@.len() ==> (#[trigger] r@[j])@.len() == bit_pads@[j]@.len(),
        forall|j: int, b: int, v: int|
            0 <= j < r@.len() && 0 <= b < bit_pads@[j]@.len() && 0 <= v < 2 ==> (
            #[trigger] r@[j]@[b]@[v])@ == base_scale(bit_pads@[j]@[b]@[v]@),
{
    let mut images: Vec<Vec<[ChainPoint; 2]>> = Vec::new();
    let mut j: usize = 0;
    while j < bit_pads.len()
        invariant
            j <= bit_pads@.len(),
            images@.len() == j,
            forall|k: int| 0 <= k < j ==> (#[trigger] images@[k])@.len() == bit_pads@[k]@.len(),
            forall|k: int, b: int, v: int|
                0 <= k < j && 0 <= b < bit_pads@[k]@.len() && 0 <= v < 2 ==> (
                #[trigger] images@[k]@[b]@[v])@ == base_scale(bit_pads@[k]@[b]@[v]@),
        decreases bit_pads@.len() - j,
    {
        let oracle_pads = &bit_pads[j];
        let mut oracle_images: Vec<[ChainPoint; 2]> = Vec::new();
        let mut b: usize = 0;
        while b < oracle_pads.len()
            invariant
                b <= oracle_pads@.len(),
                oracle_images@.len() == b,
                forall|c: int, v: int|
                    0 <= c < b && 0 <= v < 2 ==> (#[trigger] oracle_images@[c]@[v])@
                        == base_scale(oracle_pads@[c]@[v]@),
            decreases oracle_pads@.len() - b,
        {
            let pair = [
                ChainPoint::from_scalar(&oracle_pads[b][0]),
                ChainPoint::from_scalar(&oracle_pads[b][1]),
            ];
            oracle_images.push(pair);
            b += 1;
        }
        images.push(oracle_images);
        j += 1;
    }
    images
}

/// Each polynomial with its secret put in front as the constant term.
fn with_constants(tails: Vec<ScalarPoly>, secrets: &Vec<ChainScalar>) -> (r: Vec<ScalarPoly>)
    requires
        tails@.len() == secrets@.len(),
    ensures
        r@.len() == tails@.len(),
        forall|o: int| 0 <= o < r@.len() ==> (#[trigger] r@[o])@ == seq![secrets@[o]@] + tails@[o]@,
{
    let mut polys = tails;
    let mut o: usize = 0;
    while o < polys.len()
        invariant
            o <= polys@.len(),
            polys@.len() == tails@.len(),
            tails@.len() == secrets@.len(),
            forall|k: int|
                0 <= k < o ==> (#[trigger] polys@[k])@ == seq![secrets@[k]@] + tails@[k]@,
            forall|k: int| o <= k < polys@.len() ==> polys@[k] == tails@[k],
        decreases polys@.len() - o,
    {
        polys[o].push_front(secrets[o].clone());
        o += 1;
    }
    polys
}

/// For each oracle `j` and each outcome, the outcome's pad plus the value at
/// `j + 1` of the outcome's polynomial.
fn share_pads(bit_pads: &Vec<Vec<[ChainScalar; 2]>>, polys: &Vec<ScalarPoly>, n_outcomes: u32) -> (r:
    Vec<Vec<ChainScalar>>)
    requires
        bit_pads@.len() <= 0xFFFF,
        polys@.len() == n_outcomes,
        forall|j: int|
            0 <= j < bit_pads@.len() ==> (#[trigger] bit_pads@[j])@.len() <= 16 && n_outcomes
                <= vstd::arithmetic::power2::pow2(bit_pads@[j]@.len()),
    ensures
        r@.len() == bit_pads@.len(),
        forall|j: int| 0 <= j < r@.len() ==> (#[trigger] r@[j])@.len() == n_outcomes,
        forall|j: int, o: int|
            0 <= j < r@.len() && 0 <= o < n_outcomes ==> (#[trigger] r@[j]@[o])@ == fadd(
                pad_sum(bit_pads@[j]@, o as nat),
                poly_eval(polys@[o]@, (j + 1) as nat),
            ),
{
    let mut all: Vec<Vec<ChainScalar>> = Vec::new();
    let mut j: usize = 0;
    while j < bit_pads.len()
        invariant
            j <= bit_pads@.len() <= 0xFFFF,
            polys@.len() == n_outcomes,
            forall|k: int|
                0 <= k < bit_pads@.len() ==> (#[trigger] bit_pads@[k])@.len() <= 16 && n_outcomes
                    <= vstd::arithmetic::power2::pow2(bit_pads@[k]@.len()),
            all@.len() == j,
            forall|k: int| 0 <= k < j ==> (#[trigger] all@[k])@.len() == n_outcomes,
            forall|k: int, o: int|
                0 <= k < j && 0 <= o < n_outcomes ==> (#[trigger] all@[k]@[o])@ == fadd(
                    pad_sum(bit_pads@[k]@, o as nat),
                    poly_eval(polys@[o]@, (k + 1) as nat),
                ),
        decreases bit_pads@.len() - j,
    {
        let leaves = compute_pads(bit_pads[j].as_slice());
        let x = (j + 1) as u32;
        let mut oracle_pads: Vec<ChainScalar> = Vec::new();
        let mut o: usize = 0;
        while o < polys.len()
            invariant
                o <= polys@.len(),
                polys@.len() == n_outcomes,
                n_outcomes <= leaves@.len(),
                x == j + 1,
                j < bit_pads@.len(),
                forall|l: int|
                    0 <= l < leaves@.len() ==> (#[trigger] leaves@[l])@ == pad_sum(
                        bit_pads@[j as int]@,
                        l as nat,
                    ),
                oracle_pads@.len() == o,
                forall|l: int|
                    0 <= l < o ==> (#[trigger] oracle_pads@[l])@ == fadd(
                        pad_sum(bit_pads@[j as int]@, l as nat),
                        poly_eval(polys@[l]@, (j + 1) as nat),
                    ),
            decreases polys@.len() - o,
        {
            let secret_share = polys[o].eval(x);
            oracle_pads.push(leaves[o].add(&secret_share));
            o += 1;
        }
        all.push(oracle_pads);
        j += 1;
    }
    all
}

/// The images of each polynomial's coefficients above the constant term.
fn poly_images(polys: Vec<ScalarPoly>) -> (r: Vec<PointPoly>)
    requires
        forall|o: int| 0 <= o < polys@.len() ==> (#[trigger] polys@[o])@.len() >= 1,
    ensures
        r@.len() == polys@.len(),
        forall|o: int|
            0 <= o < r@.len() ==> is_image_of((#[trigger] r@[o])@, polys@[o]@.skip(1)),
{
    let mut polys = polys;
    let ghost before = polys@;
    let mut images: Vec<PointPoly> = Vec::new();
    let mut o: usize = 0;
    while o < polys.len()
        invariant
            o <= polys@.len(),
            polys@.len() == before.len(),
            forall|k: int| o <= k < polys@.len() ==> polys@[k] == before[k],
            forall|k: int| 0 <= k < before.len() ==> (#[trigger] before[k])@.len() >= 1,
            images@.len() == o,
            forall|k: int|
                0 <= k < o ==> is_image_of((#[trigger] images@[k])@, before[k]@.skip(1)),
        decreases polys@.len() - o,
    {
        assert(polys@[o as int] == before[o as int]);
        polys[o].pop_front();
        images.push(polys[o].to_point_poly());
        o += 1;
    }
    images
}

/// For each bucket position, the encryption of the kept commitment that is
/// mapped to it.
#[verifier::rlimit(50)]
fn encrypt_buckets(
    params: &Params,
    commits: &Vec<Commit>,
    commit_secrets: &Vec<CommitSecret>,
    kept: &Vec<usize>,
    bucket_mapping: &Vec<usize>,
    rnd: &Round3Randomness,
) -> (r: Vec<(Proof, GtPoint, ChainScalar)>)
    requires
        params.wf(),
        rnd.fits(params),
        bucket_mapping@.len() == params.spec_nb(),
        forall|i: int| 0 <= i < bucket_mapping@.len() ==> bucket_mapping@[i] < kept@.len(),
        forall|k: int|
            0 <= k < kept@.len() ==> kept@[k] < commits@.len() && kept@[k] < commit_secrets@.len(),
    ensures
        r@.len() == params.spec_nb(),
        forall|i: int|
            0 <= i < params.spec_nb() ==> encryption_view(#[trigger] r@[i]) == encryption_of(
                commits@[kept@[bucket_mapping@[i] as int] as int],
                commit_secrets@[kept@[bucket_mapping@[i] as int] as int],
                params.spec_anticipation(
                    slot_oracle(
                        i as nat,
                        params.spec_n_outcome_bits(),
                        params.bucket_size as nat,
                    ) as int,
                    slot_bit(i as nat, params.spec_n_outcome_bits(), params.bucket_size as nat) as u32,
                    slot_value(i as nat, params.bucket_size as nat) == 1,
                ),
                params.elgamal_base@,
                rnd.bit_pads@[slot_oracle(
                    i as nat,
                    params.spec_n_outcome_bits(),
                    params.bucket_size as nat,
                ) as int]@[slot_bit(
                    i as nat,
                    params.spec_n_outcome_bits(),
                    params.bucket_size as nat,
                ) as int]@[slot_value(i as nat, params.bucket_size as nat) as int]@,
                rnd.announce_secrets@[i]@,
            ),
{
    let proof_system = ProofSystem::new();
    let anticipated = all_anticipations(params);
    let nb = params.NB();
    let bits = params.n_outcome_bits();
    let per_bit = params.n_anticipations_per_bit();
    let size = params.bucket_size;
    let mut encryptions: Vec<(Proof, GtPoint, ChainScalar)> = Vec::new();
    let mut i: usize = 0;
    while i < nb
        invariant
            i <= nb,
            params.wf(),
            rnd.fits(params),
            nb == params.spec_nb(),
            bits == params.spec_n_outcome_bits(),
            bits <= 16,
            per_bit == params.spec_n_anticipations_per_bit(),
            size == params.bucket_size,
            bucket_mapping@.len() == nb,
            forall|k: int| 0 <= k < bucket_mapping@.len() ==> bucket_mapping@[k] < kept@.len(),
            forall|k: int|
                0 <= k < kept@.len() ==> kept@[k] < commits@.len() && kept@[k]
                    < commit_secrets@.len(),
            anticipated@.len() == params.oracle_keys@.len(),
            forall|j: int|
                0 <= j < anticipated@.len() ==> (#[trigger] anticipated@[j])@.len() == bits,
            forall|j: int, b: int, v: int|
                0 <= j < anticipated@.len() && 0 <= b < bits && 0 <= v < 2 ==> (
                #[trigger] anticipated@[j]@[b]@[v])@ == params.spec_anticipation(
                    j,
                    b as u32,
                    v == 1,
                ),
            encryptions@.len() == i,
            forall|k: int|
                0 <= k < i ==> encryption_view(#[trigger] encryptions@[k]) == encryption_of(
                    commits@[kept@[bucket_mapping@[k] as int] as int],
                    commit_secrets@[kept@[bucket_mapping@[k] as int] as int],
                    params.spec_anticipation(
                        slot_oracle(k as nat, bits as nat, size as nat) as int,
                        slot_bit(k as nat, bits as nat, size as nat) as u32,
                        slot_value(k as nat, size as nat) == 1,
                    ),
                    params.elgamal_base@,
                    rnd.bit_pads@[slot_oracle(k as nat, bits as nat, size as nat) as int]@[slot_bit(
                        k as nat,
                        bits as nat,
                        size as nat,
                    ) as int]@[slot_value(k as nat, size as nat) as int]@,
                    rnd.announce_secrets@[k]@,
                ),
        decreases nb - i,
    {
        proof {
            let o = params.oracle_keys@.len();
            assert(size >= 1 && bits >= 1 && i < 2 * size * bits * o) by (nonlinear_arith)
                requires
                    i < nb,
                    nb == size * (bits * per_bit) * o,
                    1 <= per_bit <= 2,
            ;
            lemma_slot_oracle_bound(i as nat, bits as nat, size as nat, o);
        }
        let (j, b, v) = slot(i, bits, size);
        let from = kept[bucket_mapping[i]];
        let entry = encrypt(
            &proof_system,
            &commits[from],
            &commit_secrets[from],
            &anticipated[j][b as usize][v],
            &params.elgamal_base,
            &rnd.bit_pads[j][b as usize][v],
            &rnd.announce_secrets[i],
        );
        encryptions.push(entry);
        i += 1;
    }
    encryptions
}

impl Alice1 {
    /// The commitments, in the order in which they were sent.
    pub closed spec fn commits(&self) -> Seq<Commit> {
        self.commits@
    }

    /// The secrets of the commitments.
    pub closed spec fn commit_secrets(&self) -> Seq<CommitSecret> {
        self.commit_secrets@
    }

    /// Whether the dealer holds as many commitments as the parameters ask for.
    pub open spec fn wf(&self, params: &Params) -> bool {
        &&& self.commits().len() == params.spec_m()
        &&& self.commit_secrets().len() == params.spec_m()
    }

    /// Whether the dealer holds as many commitments as the parameters ask for.
    pub fn check(&self, params: &Params) -> (r: bool)
        requires
            params.wf(),
        ensures
            r == self.wf(params),
    {
        let m = params.M();
        self.commits.len() == m && self.commit_secrets.len() == m
    }

    /// Commits: draws the secrets of `m` commitments and returns the dealer's
    /// state with the first message. Each commitment opens to its secret.
    pub fn new(params: &Params) -> (r: (Alice1, Message1))
        requires
            params.wf(),
        ensures
            r.0.wf(params),
            r.1.commits@ == r.0.commits(),
            forall|i: int|
                0 <= i < r.0.commits().len() ==> (#[trigger] r.0.commits()[i]).opens_to(
                    params.elgamal_base@,
                    r.0.commit_secrets()[i].r@,
                    r.0.commit_secrets()[i].r_prime@,
                    r.0.commit_secrets()[i].m@,
                ) && r.0.commit_secrets()[i].r@ < chain_order(),
    {
        let m = params.M();
        let mut commits: Vec<Commit> = Vec::new();
        let mut sent: Vec<Commit> = Vec::new();
        let mut commit_secrets: Vec<CommitSecret> = Vec::new();
        let mut i: usize = 0;
        while i < m
            invariant
                i <= m,
                commits@.len() == i,
                commit_secrets@.len() == i,
                sent@ == commits@,
                forall|k: int|
                    0 <= k < i ==> (#[trigger] commits@[k]).opens_to(
                        params.elgamal_base@,
                        commit_secrets@[k].r@,
                        commit_secrets@[k].r_prime@,
                        commit_secrets@[k].m@,
                    ) && commit_secrets@[k].r@ < chain_order(),
            decreases m - i,
        {
            let ri = ChainScalar::random();
            let (ri_mapped, pad) = params.map_Zq_to_Gt(&ri);
            let ri_prime = BlsScalar::random();
            let commit = Commit::create(params, &ri, &ri_prime, &ri_mapped, pad);
            commits.push(commit);
            sent.push(commit);
            commit_secrets.push(CommitSecret { r: ri, r_prime: ri_prime, m: ri_mapped });
            i += 1;
        }
        (Alice1 { commit_secrets, commits }, Message1 { commits: sent })
    }

    /// Answers the receiver's challenge with the randomness `rnd`. A
    /// challenge that does not fit the parameters is refused.
    #[verifier::rlimit(50)]
    pub fn respond_with(
        self,
        message: Message2,
        secrets: Vec<ChainScalar>,
        params: &Params,
        rnd: Round3Randomness,
    ) -> (r: Result<Message3, Error>)
        requires
            params.wf(),
            self.wf(params),
            rnd.fits(params),
            secrets@.len() == params.n_outcomes,
        ensures
            r is Ok == message.fits(params),
            r matches Err(e) ==> e == Error::BadMessage,
            r matches Ok(message3) ==> is_answer(
                &message3,
                self.commits(),
                self.commit_secrets(),
                &message,
                secrets@,
                params,
                &rnd,
            ),
    {
        if !message.check(params) {
            return Err(Error::BadMessage);
        }
        let m = params.M();
        let (kept, opened) = split_by_openings(m, &message.openings);
        proof {
            lemma_kept_indices(m as nat, message.openings@);
            lemma_opened_indices(m as nat, message.openings@);
        }
        let openings = open_commits(&self.commit_secrets, &opened);
        let encryptions = encrypt_buckets(
            params,
            &self.commits,
            &self.commit_secrets,
            &kept,
            &message.bucket_mapping,
            &rnd,
        );
        let bit_map_images = pad_images(&rnd.bit_pads);
        let Round3Randomness { bit_pads, polys: tails, announce_secrets } = rnd;
        let scalar_polys = with_constants(tails, &secrets);
        proof {
            assert forall|j: int| 0 <= j < bit_pads@.len() implies (#[trigger] bit_pads@[j])@.len()
                <= 16 && params.n_outcomes <= vstd::arithmetic::power2::pow2(
                bit_pads@[j]@.len(),
            ) by {
                lemma_sizes(params);
            }
        }
        let secret_share_pads_by_oracle = share_pads(&bit_pads, &scalar_polys, params.n_outcomes);
        let polys = poly_images(scalar_polys);
        let message3 = Message3 {
            encryptions,
            openings,
            polys,
            bit_map_images,
            secret_share_pads_by_oracle,
        };
        proof {
            assert forall|o: int| 0 <= o < message3.polys@.len() implies is_image_of(
                (#[trigger] message3.polys@[o])@,
                rnd.polys@[o]@,
            ) by {
                assert((seq![secrets@[o]@] + rnd.polys@[o]@).skip(1) =~= rnd.polys@[o]@);
            }
        }
        Ok(message3)
    }

    /// Answers the receiver's challenge: draws the randomness of the answer
    /// and answers with it. A challenge that does not fit the parameters is
    /// refused.
    pub fn receive_message(self, message: Message2, secrets: Vec<ChainScalar>, params: &Params) -> (r:
        Result<Message3, Error>)
        requires
            params.wf(),
            self.wf(params),
            secrets@.len() == params.n_outcomes,
        ensures
            r is Ok == message.fits(params),
            r matches Err(e) ==> e == Error::BadMessage,
            r matches Ok(message3) ==> exists|rnd: Round3Randomness|
                rnd.fits(params) && rnd.valid() && #[trigger] is_answer(
                    &message3,
                    self.commits(),
                    self.commit_secrets(),
                    &message,
                    secrets@,
                    params,
                    &rnd,
                ),
    {
        let rnd = Round3Randomness::draw(params);
        self.respond_with(message, secrets, params, rnd)
    }
}

/// The answer to a challenge is the answer to every challenge with the same
/// bucket mapping and the same openings.
pub proof fn lemma_answer_to_same_challenge(
    message3: &Message3,
    commits: Seq<Commit>,
    commit_secrets: Seq<CommitSecret>,
    message: &Message2,
    same: &Message2,
    secrets: Seq<ChainScalar>,
    params: &Params,
    rnd: &Round3Randomness,
)
    requires
        message.bucket_mapping@ == same.bucket_mapping@,
        message.openings@ == same.openings@,
        is_answer(message3, commits, commit_secrets, message, secrets, params, rnd),
    ensures
        is_answer(message3, commits, commit_secrets, same, secrets, params, rnd),
{
}

} // verus!
