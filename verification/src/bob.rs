//! The receiver: challenges the dealer's commitments, checks the answer, and
//! recovers the secret of the attested outcome from the oracles' signatures.

use crate::alice::{is_answer, Round3Randomness};
use crate::bls::{
    g1_generator_repr, g1_is_multiple, g1_scale, g2_scale, hash_to_g2, pairing_of, G2Point,
};
use crate::bucket::{bucket_from, bucket_to, find_bit_pad, first_pad, honest_entry, BucketEntry};
use crate::chain::{base_scale, chain_order, fadd, fsub, ChainPoint, ChainScalar};
use crate::checks::{
    check_entries, check_openings, check_shape, check_share_pads, collect_entries, entry_is_honest,
    lemma_answer_has_shape, lemma_honest_entry, opening_is_honest, shape_fits, share_pads_fit,
    shares_are_honest, verdict, with_images,
};
use crate::common::{bit_of, dst_tag, event_message, lemma_sizes, to_bits, Params};
use crate::layout::{
    bucket_start, is_permutation, kept_indices, lemma_kept_indices, lemma_opened_all,
    lemma_opened_indices, split_by_openings,
};
use crate::messages::{Commit, CommitSecret, Error, Message1, Message2, Message3};
use crate::pads::{
    images_of_pads, lemma_pad_comes_off, lemma_pad_sum_is_selected_sum, pad_sum, selected,
    selected_sum,
};
use crate::poly::{is_image_of, poly_eval};
use crate::shamir::{are_values_of, interpolate, interpolate_at_zero, share_xs, share_ys};
use rand::seq::SliceRandom;
use std::collections::BTreeSet;
use vstd::prelude::*;

verus! {

/// `SliceRandom::shuffle` on the thread's generator: the same items, in
/// some order.
#[verifier::external_body]
fn shuffle(items: &mut Vec<usize>)
    ensures
        final(items)@.to_multiset() == old(items)@.to_multiset(),
{
    items.shuffle(&mut rand::thread_rng());
}

/// `SliceRandom::choose_multiple` on the thread's generator: `amount` of the
/// items, or all if there are fewer, taken from places that differ.
#[verifier::external_body]
fn choose_multiple(items: &Vec<usize>, amount: usize) -> (r: Vec<usize>)
    ensures
        r@.len() == if amount <= items@.len() {
            amount as int
        } else {
            items@.len() as int
        },
        exists|places: Seq<int>|
            #![trigger places.len()]
            places.len() == r@.len() && places.no_duplicates() && forall|k: int|
                0 <= k < places.len() ==> 0 <= #[trigger] places[k] < items@.len() && r@[k]
                    == items@[places[k]],
{
    items.choose_multiple(&mut rand::thread_rng(), amount).cloned().collect()
}

/// The numbers below `n`, in rising order.
fn iota(n: usize) -> (r: Vec<usize>)
    ensures
        r@.len() == n,
        forall|i: int| 0 <= i < n ==> r@[i] == i,
{
    let mut v: Vec<usize> = Vec::new();
    let mut i: usize = 0;
    while i < n
        invariant
            i <= n,
            v@.len() == i,
            forall|k: int| 0 <= k < i ==> v@[k] == k,
        decreases n - i,
    {
        v.push(i);
        i += 1;
    }
    v
}

/// A sequence with the items of the numbers below `n` is a permutation of them.
proof fn lemma_shuffled_iota(shuffled: Seq<usize>, sorted: Seq<usize>, n: nat)
    requires
        sorted.len() == n,
        forall|i: int| 0 <= i < n ==> sorted[i] == i,
        shuffled.to_multiset() == sorted.to_multiset(),
    ensures
        is_permutation(shuffled, n),
{
    shuffled.to_multiset_ensures();
    sorted.to_multiset_ensures();
    assert(sorted.no_duplicates());
    sorted.lemma_multiset_has_no_duplicates();
    shuffled.lemma_multiset_has_no_duplicates_conv();
    assert forall|i: int| 0 <= i < shuffled.len() implies shuffled[i] < n by {
        assert(shuffled.contains(shuffled[i]));
        assert(sorted.to_multiset().count(shuffled[i]) > 0);
        assert(sorted.contains(shuffled[i]));
    }
}

/// The receiver after the first message: the commitments and the challenge.
pub struct Bob1 {
    commits: Vec<Commit>,
    message2: Message2,
}

impl Bob1 {
    /// The commitments, in the order in which they came.
    pub closed spec fn commits(&self) -> Seq<Commit> {
        self.commits@
    }

    /// The bucket mapping of the challenge.
    pub closed spec fn bucket_mapping(&self) -> Seq<usize> {
        self.message2.bucket_mapping@
    }

    /// The openings of the challenge.
    pub closed spec fn openings(&self) -> Set<usize> {
        self.message2.openings@
    }

    /// The challenge.
    pub closed spec fn challenge(&self) -> Message2 {
        self.message2
    }

    /// Whether `message` is an honest dealer's answer: the commitments open
    /// to `commit_secrets`, the images of the outcomes' secrets `secrets` are
    /// `outcome_images`, and `message` is the dealer's answer to the challenge
    /// for these and the randomness `rnd`. All scalars are below the order of
    /// their field.
    pub open spec fn answer_is_honest(
        &self,
        message: &Message3,
        outcome_images: Seq<ChainPoint>,
        params: &Params,
        commit_secrets: Seq<CommitSecret>,
        secrets: Seq<ChainScalar>,
        rnd: &Round3Randomness,
    ) -> bool {
        &&& commit_secrets.len() == self.commits().len()
        &&& forall|i: int|
            0 <= i < self.commits().len() ==> (#[trigger] self.commits()[i]).opens_to(
                params.elgamal_base@,
                commit_secrets[i].r@,
                commit_secrets[i].r_prime@,
                commit_secrets[i].m@,
            ) && commit_secrets[i].r@ < chain_order()
        &&& rnd.fits(params)
        &&& rnd.valid()
        &&& secrets.len() == params.n_outcomes
        &&& forall|o: int|
            0 <= o < secrets.len() ==> outcome_images[o]@ == base_scale((#[trigger] secrets[o])@)
        &&& is_answer(
            message,
            self.commits(),
            commit_secrets,
            &self.challenge(),
            secrets,
            params,
            rnd,
        )
    }

    /// Whether the receiver holds as many commitments as the parameters ask
    /// for, and a challenge that fits them.
    pub closed spec fn wf(&self, params: &Params) -> bool {
        &&& self.commits@.len() == params.spec_m()
        &&& self.message2.fits(params)
    }

    /// Whether the receiver's state fits the parameters.
    pub fn check(&self, params: &Params) -> (r: bool)
        requires
            params.wf(),
        ensures
            r == self.wf(params),
    {
        self.commits.len() == params.M() && self.message2.check(params)
    }

    /// Takes the dealer's commitments and draws the challenge. A message
    /// with another number of commitments than the parameters ask for is
    /// refused.
    pub fn new(message: Message1, params: &Params) -> (r: Result<(Bob1, Message2), Error>)
        requires
            params.wf(),
        ensures
            r is Ok == (message.commits@.len() == params.spec_m()),
            r matches Err(e) ==> e == Error::BadMessage,
            r matches Ok((bob, message2)) ==> {
                &&& bob.wf(params)
                &&& bob.commits() == message.commits@
                &&& bob.bucket_mapping() == message2.bucket_mapping@
                &&& bob.openings() == message2.openings@
                &&& bob.challenge().bucket_mapping@ == message2.bucket_mapping@
                &&& bob.challenge().openings@ == message2.openings@
                &&& message2.fits(params)
                &&& is_permutation(message2.bucket_mapping@, params.spec_nb())
            },
    {
        if message.commits.len() != params.M() {
            return Err(Error::BadMessage);
        }
        let message2 = Self::gen_message2(message.commits.as_slice(), params);
        let sent = Message2 {
            bucket_mapping: message2.bucket_mapping.clone(),
            openings: message2.openings.clone(),
        };
        Ok((Bob1 { commits: message.commits, message2 }, sent))
    }

    /// Draws a challenge for `commits`: a random choice of commitments to
    /// open, as many as the parameters ask for, and a random permutation of
    /// the bucket positions.
    #[verifier::rlimit(50)]
    pub fn gen_message2(commits: &[Commit], params: &Params) -> (r: Message2)
        requires
            params.wf(),
        ensures
            is_permutation(r.bucket_mapping@, params.spec_nb()),
            r.openings@.finite(),
            forall|x: usize| r.openings@.contains(x) ==> x < commits@.len(),
            r.openings@.len() == if params.spec_num_openings() <= commits@.len() {
                params.spec_num_openings()
            } else {
                commits@.len()
            },
            commits@.len() == params.spec_m() ==> r.fits(params),
    {
        let indexes = iota(commits.len());
        let chosen = choose_multiple(&indexes, params.num_openings());
        let mut openings: BTreeSet<usize> = BTreeSet::new();
        let ghost places = choose|places: Seq<int>|
            #![trigger places.len()]
            places.len() == chosen@.len() && places.no_duplicates() && forall|k: int|
                0 <= k < places.len() ==> 0 <= #[trigger] places[k] < indexes@.len() && chosen@[k]
                    == indexes@[places[k]];
        let mut k: usize = 0;
        while k < chosen.len()
            invariant
                k <= chosen@.len(),
                places.len() == chosen@.len(),
                places.no_duplicates(),
                forall|l: int|
                    0 <= l < places.len() ==> 0 <= #[trigger] places[l] < indexes@.len()
                        && chosen@[l] == indexes@[places[l]],
                forall|i: int| 0 <= i < indexes@.len() ==> indexes@[i] == i,
                openings@.finite(),
                openings@.len() == k,
                forall|x: usize|
                    openings@.contains(x) <==> exists|l: int| 0 <= l < k && chosen@[l] == x,
            decreases chosen@.len() - k,
        {
            proof {
                if openings@.contains(chosen@[k as int]) {
                    let l = choose|l: int| 0 <= l < k && chosen@[l] == chosen@[k as int];
                    assert(places[l] == places[k as int]);
                }
            }
            let ghost before = openings@;
            openings.insert(chosen[k]);
            proof {
                assert forall|x: usize| openings@.contains(x) <==> exists|l: int|
                    0 <= l < k + 1 && chosen@[l] == x by {
                    if openings@.contains(x) {
                        if x == chosen@[k as int] {
                            assert(chosen@[k as int] == x);
                        } else {
                            assert(before.contains(x));
                            let l = choose|l: int| 0 <= l < k && chosen@[l] == x;
                            assert(0 <= l < k + 1 && chosen@[l] == x);
                        }
                    }
                    if exists|l: int| 0 <= l < k + 1 && chosen@[l] == x {
                        let l = choose|l: int| 0 <= l < k + 1 && chosen@[l] == x;
                        if l < k {
                            assert(before.contains(x));
                        }
                    }
                }
            }
            k += 1;
        }
        let mut bucket_mapping = iota(params.NB());
        let ghost sorted = bucket_mapping@;
        shuffle(&mut bucket_mapping);
        proof {
            lemma_shuffled_iota(bucket_mapping@, sorted, params.spec_nb());
            assert forall|x: usize| openings@.contains(x) implies x < commits@.len() by {
                let l = choose|l: int| 0 <= l < chosen@.len() && chosen@[l] == x;
                assert(chosen@[l] == indexes@[places[l]]);
            }
            if commits@.len() == params.spec_m() {
                lemma_opened_all(params.spec_m(), openings@);
                assert(openings@.len() == params.spec_num_openings());
                assert(bucket_mapping@.len() == params.spec_nb());
            }
        }
        Message2 { bucket_mapping, openings }
    }
}

/// The receiver after the third message: the ciphertexts in their buckets,
/// the images of the pads, the padded secret shares and the images of the
/// outcomes' secrets.
#[derive(Clone)]
pub struct Bob2 {
    entries: Vec<BucketEntry>,
    bit_map_images: Vec<Vec<[ChainPoint; 2]>>,
    secret_share_pads_by_oracle: Vec<Vec<ChainScalar>>,
    outcome_images: Vec<ChainPoint>,
}

impl Bob2 {
    /// What is kept for each bucket position.
    pub closed spec fn entries(&self) -> Seq<BucketEntry> {
        self.entries@
    }

    /// For each oracle and each bit, the images of the two pads.
    pub closed spec fn bit_map_images(&self) -> Seq<Vec<[ChainPoint; 2]>> {
        self.bit_map_images@
    }

    /// For each oracle and each outcome, the padded secret share.
    pub closed spec fn secret_share_pads(&self) -> Seq<Vec<ChainScalar>> {
        self.secret_share_pads_by_oracle@
    }

    /// For each outcome, the image of its secret.
    pub closed spec fn outcome_images(&self) -> Seq<ChainPoint> {
        self.outcome_images@
    }

    /// Whether the state has the sizes that the parameters give.
    pub open spec fn wf(&self, params: &Params) -> bool {
        &&& self.entries().len() == params.spec_nb()
        &&& self.bit_map_images().len() == params.oracle_keys@.len()
        &&& forall|j: int|
            0 <= j < self.bit_map_images().len() ==> (#[trigger] self.bit_map_images()[j])@.len()
                == params.spec_n_outcome_bits()
        &&& self.secret_share_pads().len() == params.oracle_keys@.len()
        &&& forall|j: int|
            0 <= j < self.secret_share_pads().len() ==> (
            #[trigger] self.secret_share_pads()[j])@.len() == params.n_outcomes
        &&& self.outcome_images().len() == params.n_outcomes
    }

    /// Whether the state has the sizes that the parameters give.
    #[verifier::loop_isolation(false)]
    pub fn check(&self, params: &Params) -> (r: bool)
        requires
            params.wf(),
        ensures
            r == self.wf(params),
    {
        let n_oracles = params.oracle_keys.len();
        let bits = params.n_outcome_bits() as usize;
        let n_outcomes = params.n_outcomes as usize;
        if self.entries.len() != params.NB() || self.bit_map_images.len() != n_oracles
            || self.secret_share_pads_by_oracle.len() != n_oracles || self.outcome_images.len()
            != n_outcomes {
            return false;
        }
        let mut j: usize = 0;
        while j < n_oracles
            invariant
                j <= n_oracles,
                forall|k: int| 0 <= k < j ==> (#[trigger] self.bit_map_images@[k])@.len() == bits,
                forall|k: int|
                    0 <= k < j ==> (#[trigger] self.secret_share_pads_by_oracle@[k])@.len()
                        == n_outcomes,
            decreases n_oracles - j,
        {
            if self.bit_map_images[j].len() != bits || self.secret_share_pads_by_oracle[j].len()
                != n_outcomes {
                return false;
            }
            j += 1;
        }
        true
    }
}

impl Bob1 {
    /// Checks the dealer's answer against the commitments and the images
    /// `outcome_images` of the outcomes' secrets, and keeps what is needed to
    /// decrypt. An answer with a fault is refused with the first fault's
    /// error. An honest dealer's answer is not refused.
    #[verifier::rlimit(50)]
    pub fn receive_message(self, message: Message3, outcome_images: Vec<ChainPoint>, params: &Params) -> (r:
        Result<Bob2, Error>)
        requires
            params.wf(),
            self.wf(params),
            outcome_images@.len() == params.n_outcomes,
        ensures
            match r {
                Err(e) => verdict(
                    &message,
                    self.commits(),
                    self.bucket_mapping(),
                    self.openings(),
                    outcome_images@,
                    params,
                ) == Some(e),
                Ok(bob) => {
                    &&& verdict(
                        &message,
                        self.commits(),
                        self.bucket_mapping(),
                        self.openings(),
                        outcome_images@,
                        params,
                    ) is None
                    &&& bob.wf(params)
                    &&& bob.bit_map_images() == message.bit_map_images@
                    &&& bob.secret_share_pads() == message.secret_share_pads_by_oracle@
                    &&& bob.outcome_images() == outcome_images@
                    &&& forall|i: int|
                        0 <= i < params.spec_nb() ==> {
                            let commit = self.commits()[kept_indices(
                                params.spec_m(),
                                self.openings(),
                            )[self.bucket_mapping()[i] as int] as int];
                            &&& (#[trigger] bob.entries()[i]).c0 == commit.C.0
                            &&& bob.entries()[i].pad == commit.pad
                            &&& bob.entries()[i].ciphertext == message.encryptions@[i].1
                            &&& bob.entries()[i].padded@ == message.encryptions@[i].2@
                        }
                },
            },
            forall|
                commit_secrets: Seq<CommitSecret>,
                secrets: Seq<ChainScalar>,
                rnd: Round3Randomness,
            | #[trigger]
                self.answer_is_honest(
                    &message,
                    outcome_images@,
                    params,
                    commit_secrets,
                    secrets,
                    &rnd,
                ) ==> r is Ok,
    {
        proof {
            assert forall|
                commit_secrets: Seq<CommitSecret>,
                secrets: Seq<ChainScalar>,
                rnd: Round3Randomness,
            | #[trigger]
                self.answer_is_honest(
                    &message,
                    outcome_images@,
                    params,
                    commit_secrets,
                    secrets,
                    &rnd,
                ) implies shape_fits(&message, params) by {
                lemma_answer_has_shape(
                    &message,
                    self.commits(),
                    commit_secrets,
                    &self.challenge(),
                    secrets,
                    params,
                    &rnd,
                );
            }
        }
        if !check_shape(&message, params) {
            return Err(Error::BadMessage);
        }
        let Bob1 { commits, message2 } = self;
        let m = params.M();
        let (kept, opened) = split_by_openings(m, &message2.openings);
        proof {
            lemma_kept_indices(m as nat, message2.openings@);
            lemma_opened_indices(m as nat, message2.openings@);
            assert forall|
                commit_secrets: Seq<CommitSecret>,
                secrets: Seq<ChainScalar>,
                rnd: Round3Randomness,
            | #[trigger]
                self.answer_is_honest(
                    &message,
                    outcome_images@,
                    params,
                    commit_secrets,
                    secrets,
                    &rnd,
                ) implies (forall|k: int|
                0 <= k < opened@.len() ==> opening_is_honest(
                    commits@[opened@[k] as int],
                    (#[trigger] message.openings@[k])@,
                    params.elgamal_base@,
                )) && (forall|i: nat|
                i < params.spec_nb() ==> #[trigger] entry_is_honest(
                    &message,
                    commits@,
                    kept@,
                    message2.bucket_mapping@,
                    params,
                    i,
                )) by {
                assert forall|k: int| 0 <= k < opened@.len() implies opening_is_honest(
                    commits@[opened@[k] as int],
                    (#[trigger] message.openings@[k])@,
                    params.elgamal_base@,
                ) by {
                    let from = opened@[k] as int;
                    assert(commits@[from].opens_to(
                        params.elgamal_base@,
                        commit_secrets[from].r@,
                        message.openings@[k]@,
                        commit_secrets[from].m@,
                    ));
                }
                assert forall|i: nat| i < params.spec_nb() implies #[trigger] entry_is_honest(
                    &message,
                    commits@,
                    kept@,
                    message2.bucket_mapping@,
                    params,
                    i,
                ) by {
                    lemma_honest_entry(
                        &message,
                        commits@,
                        commit_secrets,
                        &message2,
                        secrets,
                        params,
                        &rnd,
                        i,
                    );
                }
            }
        }
        if !check_openings(&message.openings, &commits, &opened, &params.elgamal_base) {
            return Err(Error::OpeningMismatch);
        }
        match check_entries(&message, &commits, &kept, &message2.bucket_mapping, params) {
            Some(e) => {
                return Err(e);
            },
            None => {},
        }
        let Message3 {
            encryptions,
            polys,
            openings: _,
            bit_map_images,
            secret_share_pads_by_oracle,
        } = message;
        let full = with_images(polys, &outcome_images);
        proof {
            assert forall|
                commit_secrets: Seq<CommitSecret>,
                secrets: Seq<ChainScalar>,
                rnd: Round3Randomness,
            | #[trigger]
                self.answer_is_honest(
                    &message,
                    outcome_images@,
                    params,
                    commit_secrets,
                    secrets,
                    &rnd,
                ) implies shares_are_honest(
                secret_share_pads_by_oracle@,
                bit_map_images@,
                full@,
                rnd.bit_pads@,
                Seq::new(
                    params.n_outcomes as nat,
                    |o: int| seq![secrets[o]@] + rnd.polys@[o]@,
                ),
            ) by {
                let polys_ = Seq::new(
                    params.n_outcomes as nat,
                    |o: int| seq![secrets[o]@] + rnd.polys@[o]@,
                );
                assert forall|j: int| 0 <= j < rnd.bit_pads@.len() implies images_of_pads(
                    bit_map_images@[j]@,
                    (#[trigger] rnd.bit_pads@[j])@,
                ) by {
                    assert(bit_map_images@[j]@.len() == rnd.bit_pads@[j]@.len());
                }
                assert forall|o: int| 0 <= o < polys_.len() implies is_image_of(
                    full@[o]@,
                    #[trigger] polys_[o],
                ) by {
                    assert(is_image_of(message.polys@[o]@, rnd.polys@[o]@));
                    assert(outcome_images@[o]@ == base_scale(secrets[o]@));
                    let images = full@[o]@;
                    let scalars = polys_[o];
                    assert forall|i: int| 0 <= i < scalars.len() implies images[i] == base_scale(
                        #[trigger] scalars[i],
                    ) by {
                        if i > 0 {
                            assert(images[i] == message.polys@[o]@[i - 1]);
                            assert(scalars[i] == rnd.polys@[o]@[i - 1]);
                        }
                    }
                }
            }
        }
        proof {
            assert forall|j: int| 0 <= j < bit_map_images@.len() implies (
            #[trigger] bit_map_images@[j])@.len() <= 16 && params.n_outcomes
                <= vstd::arithmetic::power2::pow2(bit_map_images@[j]@.len()) by {
                lemma_sizes(params);
            }
        }
        if !check_share_pads(
            &secret_share_pads_by_oracle,
            &bit_map_images,
            &full,
            params.n_outcomes,
        ) {
            assert(!share_pads_fit(&message, outcome_images@, params));
            return Err(Error::PadInconsistent);
        }
        assert(share_pads_fit(&message, outcome_images@, params));
        let entries = collect_entries(encryptions, &commits, &kept, &message2.bucket_mapping);
        Ok(Bob2 { entries, bit_map_images, secret_share_pads_by_oracle, outcome_images })
    }
}

impl Bob2 {
    /// Whether the bucket of an oracle, a bit and a bit value is not empty
    /// and begins with an honest dealer's ciphertext for it, padded with
    /// `pad`, whose image is the one that the receiver holds for the bucket.
    pub open spec fn bucket_is_honest(
        &self,
        params: &Params,
        oracle: nat,
        bit: nat,
        value: nat,
        pad: nat,
    ) -> bool {
        let start = bucket_start(
            oracle,
            bit,
            value,
            params.spec_n_outcome_bits(),
            params.bucket_size as nat,
        );
        let anticipated = params.spec_anticipation(oracle as int, bit as u32, value == 1);
        &&& params.bucket_size >= 1
        &&& start < self.entries().len()
        &&& self.bit_map_images()[oracle as int]@[bit as int]@[value as int]@ == base_scale(pad)
        &&& exists|ri: nat, ri_prime: nat, m: Seq<u8>| #[trigger]
            honest_entry(self.entries()[start as int], anticipated, ri, ri_prime, m, pad)
    }

    /// Whether the oracle `oracle` with the secret key `secret_key` has
    /// signed every bit of the outcome, each bucket that the outcome's bits
    /// select is honest for the pad at its place in `bit_pads`, and the
    /// padded share for the outcome is `share` plus the outcome's pad.
    pub open spec fn oracle_is_honest(
        &self,
        params: &Params,
        oracle: nat,
        outcome: u32,
        sigs: Seq<G2Point>,
        secret_key: nat,
        bit_pads: Seq<[ChainScalar; 2]>,
        share: nat,
    ) -> bool {
        &&& params.oracle_keys@[oracle as int]@ == g1_scale(g1_generator_repr(), secret_key)
        &&& sigs.len() == params.spec_n_outcome_bits()
        &&& bit_pads.len() == params.spec_n_outcome_bits()
        &&& share < chain_order()
        &&& self.secret_share_pads()[oracle as int]@[outcome as int]@ == fadd(
            pad_sum(bit_pads, outcome as nat),
            share,
        )
        &&& forall|b: int|
            0 <= b < sigs.len() ==> (#[trigger] sigs[b])@ == g2_scale(
                hash_to_g2(
                    event_message(params.event_id@, b as u32, bit_of(outcome as nat, b as nat)),
                    dst_tag(),
                ),
                secret_key,
            ) && self.bucket_is_honest(
                params,
                oracle,
                b as nat,
                selected(outcome as nat, b as nat) as nat,
                bit_pads[b]@[selected(outcome as nat, b as nat)]@,
            )
    }

    /// Whether oracle `oracle` is honest for `share`, with some secret key
    /// and some pads.
    pub open spec fn attests_honestly(
        &self,
        params: &Params,
        oracle: nat,
        outcome: u32,
        sigs: Seq<G2Point>,
        share: nat,
    ) -> bool {
        exists|secret_key: nat, bit_pads: Seq<[ChainScalar; 2]>| #[trigger]
            self.oracle_is_honest(params, oracle, outcome, sigs, secret_key, bit_pads, share)
    }

    /// Whether oracle `oracle` gives no share or is honest for `share`.
    pub open spec fn share_is_honest(
        &self,
        params: &Params,
        oracle: nat,
        outcome: u32,
        sigs: Seq<G2Point>,
        share: nat,
    ) -> bool {
        self.oracle_share(params, oracle, outcome, sigs) is Some ==> self.attests_honestly(
            params,
            oracle,
            outcome,
            sigs,
            share,
        )
    }

    /// Whether every oracle that gives a share is honest for the value at its
    /// place of the polynomial with the coefficients `polynomial`: oracle `j`
    /// for the value at `j + 1`.
    pub open spec fn given_shares_are_honest(
        &self,
        params: &Params,
        outcome: u32,
        attestations: Seq<Vec<G2Point>>,
        polynomial: Seq<nat>,
    ) -> bool {
        forall|j: int|
            0 <= j < attestations.len() && j < params.oracle_keys@.len() ==> self.share_is_honest(
                params,
                j as nat,
                outcome,
                (#[trigger] attestations[j])@,
                poly_eval(polynomial, (j + 1) as nat),
            )
    }

    /// Whether every oracle is honest for the value at its place of the
    /// polynomial with the coefficients `polynomial`.
    pub open spec fn all_are_honest(
        &self,
        params: &Params,
        outcome: u32,
        attestations: Seq<Vec<G2Point>>,
        polynomial: Seq<nat>,
    ) -> bool {
        forall|j: int|
            0 <= j < attestations.len() && j < params.oracle_keys@.len() ==> self.attests_honestly(
                params,
                j as nat,
                outcome,
                (#[trigger] attestations[j])@,
                poly_eval(polynomial, (j + 1) as nat),
            )
    }

    /// Whether `polynomial` holds as many coefficients as the threshold and
    /// the image of its constant term is the image that the receiver holds
    /// for the outcome.
    pub open spec fn is_polynomial_of(&self, params: &Params, outcome: u32, polynomial: Seq<nat>) -> bool {
        &&& polynomial.len() == params.threshold
        &&& polynomial[0] < chain_order()
        &&& self.outcome_images()[outcome as int]@ == base_scale(polynomial[0])
    }

    /// Whether the oracles that give a share are honest for the outcome's
    /// polynomial and as many as the threshold.
    pub open spec fn attestations_are_honest(
        &self,
        params: &Params,
        outcome: u32,
        attestations: Seq<Vec<G2Point>>,
        polynomial: Seq<nat>,
    ) -> bool {
        &&& self.is_polynomial_of(params, outcome, polynomial)
        &&& self.shares(params, outcome, attestations, attestations.len()).len()
            >= params.threshold
        &&& self.given_shares_are_honest(params, outcome, attestations, polynomial)
    }

    /// Whether as many oracles as the threshold attest, and all are honest
    /// for the outcome's polynomial.
    pub open spec fn all_attest_honestly(
        &self,
        params: &Params,
        outcome: u32,
        attestations: Seq<Vec<G2Point>>,
        polynomial: Seq<nat>,
    ) -> bool {
        &&& self.is_polynomial_of(params, outcome, polynomial)
        &&& attestations.len() >= params.threshold
        &&& params.oracle_keys@.len() >= params.threshold
        &&& self.all_are_honest(params, outcome, attestations, polynomial)
    }

    /// The pad that oracle `oracle` has for bit `bit` of the outcome
    /// `outcome`, from the oracle's signature `sig` for that bit: `None`
    /// where the signature is not the oracle's on the bit's value, or where
    /// no ciphertext of the bucket gives the pad.
    pub open spec fn bit_pad(
        &self,
        params: &Params,
        oracle: nat,
        bit: nat,
        outcome: u32,
        sig: Seq<u8>,
    ) -> Option<nat> {
        let value = bit_of(outcome as nat, bit);
        let v: nat = if value {
            1
        } else {
            0
        };
        let bits = params.spec_n_outcome_bits();
        let size = params.bucket_size as nat;
        let len = self.entries().len();
        if pairing_of(g1_generator_repr(), sig) != params.spec_anticipation(
            oracle as int,
            bit as u32,
            value,
        ) {
            None
        } else {
            first_pad(
                self.entries(),
                bucket_from(oracle, bit, v, bits, size, len) as int,
                bucket_to(oracle, bit, v, bits, size, len) as int,
                sig,
                self.bit_map_images()[oracle as int]@[bit as int]@[v as int]@,
            )
        }
    }

    /// The sum of the pads that oracle `oracle` has for the bits below `upto`
    /// of the outcome; `None` where one of these bits has no pad.
    pub open spec fn oracle_pad(
        &self,
        params: &Params,
        oracle: nat,
        outcome: u32,
        sigs: Seq<G2Point>,
        upto: nat,
    ) -> Option<nat>
        decreases upto,
    {
        if upto == 0 {
            Some(0)
        } else {
            match self.oracle_pad(params, oracle, outcome, sigs, (upto - 1) as nat) {
                None => None,
                Some(sum) => match self.bit_pad(
                    params,
                    oracle,
                    (upto - 1) as nat,
                    outcome,
                    sigs[upto - 1]@,
                ) {
                    None => None,
                    Some(pad) => Some(fadd(sum, pad)),
                },
            }
        }
    }

    /// The secret share that oracle `oracle` gives for the outcome: the
    /// padded share less the oracle's pad. `None` where the oracle did not
    /// sign every bit, or where a bit has no pad.
    pub open spec fn oracle_share(
        &self,
        params: &Params,
        oracle: nat,
        outcome: u32,
        sigs: Seq<G2Point>,
    ) -> Option<nat> {
        if sigs.len() != params.spec_n_outcome_bits() {
            None
        } else {
            match self.oracle_pad(params, oracle, outcome, sigs, sigs.len()) {
                None => None,
                Some(pad) => Some(
                    fsub(self.secret_share_pads()[oracle as int]@[outcome as int]@, pad),
                ),
            }
        }
    }

    /// The shares that the oracles below `upto` give, each with its place
    /// `oracle + 1`, in the order of the oracles.
    pub open spec fn shares(
        &self,
        params: &Params,
        outcome: u32,
        attestations: Seq<Vec<G2Point>>,
        upto: nat,
    ) -> Seq<(nat, nat)>
        decreases upto,
    {
        if upto == 0 {
            Seq::empty()
        } else {
            let prev = self.shares(params, outcome, attestations, (upto - 1) as nat);
            let oracle = (upto - 1) as nat;
            if oracle < params.oracle_keys@.len() {
                match self.oracle_share(params, oracle, outcome, attestations[oracle as int]@) {
                    Some(share) => prev.push((oracle + 1, share)),
                    None => prev,
                }
            } else {
                prev
            }
        }
    }

    /// What the attestations give: with fewer shares than the threshold,
    /// nothing; else the secret that the first `threshold` shares give, if its
    /// image is the outcome's.
    pub open spec fn recovered(
        &self,
        params: &Params,
        outcome: u32,
        attestations: Seq<Vec<G2Point>>,
    ) -> Result<nat, Error> {
        let all = self.shares(params, outcome, attestations, attestations.len());
        if all.len() < params.threshold {
            Err(Error::InsufficientShares)
        } else {
            let used = all.take(params.threshold as int);
            let secret = interpolate_at_zero(
                Seq::new(used.len(), |i: int| used[i].0),
                Seq::new(used.len(), |i: int| used[i].1),
            );
            if base_scale(secret) != self.outcome_images()[outcome as int]@ {
                Err(Error::ReconstructionMismatch)
            } else {
                Ok(secret)
            }
        }
    }
}

impl Bob2 {
    /// The pad that oracle `oracle` has for bit `bit` of the outcome.
    #[verifier::rlimit(50)]
    fn recover_bit_pad(
        &self,
        params: &Params,
        oracle: usize,
        bit: u32,
        outcome: u32,
        value: bool,
        sig: &G2Point,
    ) -> (r: Option<ChainScalar>)
        requires
            params.wf(),
            self.wf(params),
            oracle < params.oracle_keys@.len(),
            bit < params.spec_n_outcome_bits(),
            value == bit_of(outcome as nat, bit as nat),
        ensures
            match r {
                Some(pad) => self.bit_pad(params, oracle as nat, bit as nat, outcome, sig@)
                    == Some(pad@),
                None => self.bit_pad(params, oracle as nat, bit as nat, outcome, sig@) is None,
            },
            forall|secret_key: nat, pad: nat|
                #[trigger] g1_is_multiple(
                    params.oracle_keys@[oracle as int]@,
                    g1_generator_repr(),
                    secret_key,
                ) && sig@ == g2_scale(
                    hash_to_g2(event_message(params.event_id@, bit, value), dst_tag()),
                    secret_key,
                ) && #[trigger] self.bucket_is_honest(
                    params,
                    oracle as nat,
                    bit as nat,
                    selected(outcome as nat, bit as nat) as nat,
                    pad,
                ) ==> (r matches Some(found) && found@ == pad),
    {
        if !params.verify_bls_sig(oracle, bit, value, *sig) {
            return None;
        }
        let v: usize = if value {
            1
        } else {
            0
        };
        let bits = params.n_outcome_bits() as usize;
        let size = params.bucket_size as usize;
        let len = self.entries.len();
        assert((oracle * bits + bit) * 2 + v <= 0xFFFF * 16 * 2 + 1) by (nonlinear_arith)
            requires
                oracle < 0xFFFF,
                bits <= 16,
                bit < bits,
                v <= 1,
        ;
        assert(((oracle * bits + bit) * 2 + v) * size + size <= (0xFFFF * 16 * 2 + 2) * 255)
            by (nonlinear_arith)
            requires
                (oracle * bits + bit) * 2 + v <= 0xFFFF * 16 * 2 + 1,
                size <= 255,
        ;
        let start = ((oracle * bits + bit as usize) * 2 + v) * size;
        let from = if start <= len {
            start
        } else {
            len
        };
        let to = if start + size <= len {
            start + size
        } else {
            len
        };
        let found = find_bit_pad(
            &self.entries,
            from,
            to,
            sig,
            &self.bit_map_images[oracle][bit as usize][v],
        );
        proof {
            assert forall|secret_key: nat, pad: nat|
                #[trigger] g1_is_multiple(
                    params.oracle_keys@[oracle as int]@,
                    g1_generator_repr(),
                    secret_key,
                ) && sig@ == g2_scale(
                    hash_to_g2(event_message(params.event_id@, bit, value), dst_tag()),
                    secret_key,
                ) && #[trigger] self.bucket_is_honest(
                    params,
                    oracle as nat,
                    bit as nat,
                    selected(outcome as nat, bit as nat) as nat,
                    pad,
                ) implies (found matches Ok(p) && p@ == pad) by {
                let anticipated = params.spec_anticipation(oracle as int, bit, value);
                assert(v == selected(outcome as nat, bit as nat));
                assert(from == start && from < to);
                let (ri, ri_prime, m) = choose|ri: nat, ri_prime: nat, m: Seq<u8>| #[trigger]
                    honest_entry(self.entries()[start as int], anticipated, ri, ri_prime, m, pad);
                assert(honest_entry(
                    self.entries@[from as int],
                    pairing_of(g1_generator_repr(), sig@),
                    ri,
                    ri_prime,
                    m,
                    pad,
                ));
            }
        }
        match found {
            Ok(pad) => Some(pad),
            Err(_) => None,
        }
    }

    /// The secret share that oracle `oracle` gives for the outcome.
    #[verifier::rlimit(50)]
    pub fn recover_share(
        &self,
        params: &Params,
        oracle: usize,
        outcome: u32,
        outcome_bits: &Vec<bool>,
        sigs: &Vec<G2Point>,
    ) -> (r: Option<ChainScalar>)
        requires
            params.wf(),
            self.wf(params),
            oracle < params.oracle_keys@.len(),
            outcome < params.n_outcomes,
            outcome_bits@.len() == params.spec_n_outcome_bits(),
            forall|b: int|
                0 <= b < outcome_bits@.len() ==> outcome_bits@[b] == bit_of(outcome as nat, b as nat),
        ensures
            match r {
                Some(share) => self.oracle_share(params, oracle as nat, outcome, sigs@) == Some(
                    share@,
                ),
                None => self.oracle_share(params, oracle as nat, outcome, sigs@) is None,
            },
            forall|secret_key: nat, bit_pads: Seq<[ChainScalar; 2]>, share: nat| #[trigger]
                self.oracle_is_honest(
                    params,
                    oracle as nat,
                    outcome,
                    sigs@,
                    secret_key,
                    bit_pads,
                    share,
                ) ==> (r matches Some(found) && found@ == share),
    {
        if sigs.len() != outcome_bits.len() {
            return None;
        }
        proof {
            lemma_sizes(params);
        }
        let mut sum = ChainScalar::zero();
        let mut b: usize = 0;
        while b < sigs.len()
            invariant
                b <= sigs@.len(),
                sigs@.len() == outcome_bits@.len(),
                params.wf(),
                self.wf(params),
                oracle < params.oracle_keys@.len(),
                outcome_bits@.len() == params.spec_n_outcome_bits() <= 16,
                forall|c: int|
                    0 <= c < outcome_bits@.len() ==> outcome_bits@[c] == bit_of(
                        outcome as nat,
                        c as nat,
                    ),
                self.oracle_pad(params, oracle as nat, outcome, sigs@, b as nat) == Some(sum@),
                forall|secret_key: nat, bit_pads: Seq<[ChainScalar; 2]>, share: nat| #[trigger]
                    self.oracle_is_honest(
                        params,
                        oracle as nat,
                        outcome,
                        sigs@,
                        secret_key,
                        bit_pads,
                        share,
                    ) ==> sum@ == selected_sum(bit_pads, outcome as nat, b as nat),
            decreases sigs@.len() - b,
        {
            let found = self.recover_bit_pad(
                params,
                oracle,
                b as u32,
                outcome,
                outcome_bits[b],
                &sigs[b],
            );
            proof {
                assert forall|secret_key: nat, bit_pads: Seq<[ChainScalar; 2]>, share: nat| #[trigger]
                    self.oracle_is_honest(
                        params,
                        oracle as nat,
                        outcome,
                        sigs@,
                        secret_key,
                        bit_pads,
                        share,
                    ) implies (found matches Some(p) && p@ == bit_pads[b as int]@[selected(
                    outcome as nat,
                    b as nat,
                )]@) by {
                    let pad = bit_pads[b as int]@[selected(outcome as nat, b as nat)]@;
                    assert(sigs@[b as int]@ == g2_scale(
                        hash_to_g2(
                            event_message(
                                params.event_id@,
                                b as u32,
                                bit_of(outcome as nat, b as nat),
                            ),
                            dst_tag(),
                        ),
                        secret_key,
                    ));
                    assert(self.bucket_is_honest(
                        params,
                        oracle as nat,
                        b as nat,
                        selected(outcome as nat, b as nat) as nat,
                        pad,
                    ));
                    assert(g1_is_multiple(
                        params.oracle_keys@[oracle as int]@,
                        g1_generator_repr(),
                        secret_key,
                    ));
                }
            }
            match found {
                Some(pad) => {
                    sum = sum.add(&pad);
                },
                None => {
                    proof {
                        self.lemma_oracle_pad_stays(
                            params,
                            oracle as nat,
                            outcome,
                            sigs@,
                            (b + 1) as nat,
                            sigs@.len(),
                        );
                    }
                    return None;
                },
            }
            b += 1;
        }
        let share = self.secret_share_pads_by_oracle[oracle][outcome as usize].sub(&sum);
        proof {
            assert forall|secret_key: nat, bit_pads: Seq<[ChainScalar; 2]>, value: nat| #[trigger]
                self.oracle_is_honest(
                    params,
                    oracle as nat,
                    outcome,
                    sigs@,
                    secret_key,
                    bit_pads,
                    value,
                ) implies share@ == value by {
                lemma_pad_sum_is_selected_sum(bit_pads, outcome as nat);
                lemma_pad_comes_off(pad_sum(bit_pads, outcome as nat), value);
            }
        }
        Some(share)
    }

    /// Once a bit has no pad, the oracle has none.
    pub proof fn lemma_oracle_pad_stays(
        &self,
        params: &Params,
        oracle: nat,
        outcome: u32,
        sigs: Seq<G2Point>,
        k: nat,
        n: nat,
    )
        requires
            k <= n,
            self.oracle_pad(params, oracle, outcome, sigs, k) is None,
        ensures
            self.oracle_pad(params, oracle, outcome, sigs, n) is None,
        decreases n,
    {
        if k < n {
            self.lemma_oracle_pad_stays(params, oracle, outcome, sigs, k, (n - 1) as nat);
        }
    }

    /// The shares that the oracles give, each with its place `oracle + 1`,
    /// in the order of the oracles.
    #[verifier::rlimit(50)]
    pub fn collect_shares(
        &self,
        outcome_index: u32,
        attestations: &Vec<Vec<G2Point>>,
        params: &Params,
    ) -> (r: Vec<(u32, ChainScalar)>)
        requires
            params.wf(),
            self.wf(params),
            outcome_index < params.n_outcomes,
        ensures
            r@.len() == self.shares(
                params,
                outcome_index,
                attestations@,
                attestations@.len(),
            ).len(),
            forall|k: int|
                0 <= k < r@.len() ==> (#[trigger] r@[k]).0 == self.shares(
                    params,
                    outcome_index,
                    attestations@,
                    attestations@.len(),
                )[k].0 && r@[k].1@ == self.shares(
                    params,
                    outcome_index,
                    attestations@,
                    attestations@.len(),
                )[k].1,
            forall|k: int, l: int|
                0 <= k < l < r@.len() ==> (#[trigger] r@[k]).0 < (#[trigger] r@[l]).0,
            forall|polynomial: Seq<nat>| #[trigger]
                self.given_shares_are_honest(params, outcome_index, attestations@, polynomial)
                    ==> forall|k: int|
                    0 <= k < r@.len() ==> (#[trigger] r@[k]).1@ == poly_eval(
                        polynomial,
                        r@[k].0 as nat,
                    ),
            forall|polynomial: Seq<nat>| #[trigger]
                self.all_are_honest(params, outcome_index, attestations@, polynomial) ==> r@.len()
                    == (if attestations@.len() <= params.oracle_keys@.len() {
                    attestations@.len()
                } else {
                    params.oracle_keys@.len()
                }),
    {
        let outcome_bits = to_bits(outcome_index, params.n_outcome_bits() as usize);
        let n_oracles = params.oracle_keys.len();
        let mut secret_shares: Vec<(u32, ChainScalar)> = Vec::new();
        let mut oracle: usize = 0;
        while oracle < attestations.len()
            invariant
                oracle <= attestations@.len(),
                params.wf(),
                self.wf(params),
                n_oracles == params.oracle_keys@.len(),
                outcome_index < params.n_outcomes,
                outcome_bits@.len() == params.spec_n_outcome_bits(),
                forall|b: int|
                    0 <= b < outcome_bits@.len() ==> outcome_bits@[b] == bit_of(
                        outcome_index as nat,
                        b as nat,
                    ),
                secret_shares@.len() == self.shares(
                    params,
                    outcome_index,
                    attestations@,
                    oracle as nat,
                ).len(),
                forall|k: int|
                    0 <= k < secret_shares@.len() ==> (#[trigger] secret_shares@[k]).0
                        == self.shares(params, outcome_index, attestations@, oracle as nat)[k].0
                        && secret_shares@[k].1@ == self.shares(
                        params,
                        outcome_index,
                        attestations@,
                        oracle as nat,
                    )[k].1,
                forall|k: int|
                    0 <= k < secret_shares@.len() ==> 1 <= (#[trigger] secret_shares@[k]).0
                        <= oracle && secret_shares@[k].0 <= n_oracles,
                forall|k: int, l: int|
                    0 <= k < l < secret_shares@.len() ==> (#[trigger] secret_shares@[k]).0 < (
                    #[trigger] secret_shares@[l]).0,
                forall|polynomial: Seq<nat>| #[trigger]
                    self.given_shares_are_honest(
                        params,
                        outcome_index,
                        attestations@,
                        polynomial,
                    ) ==> forall|k: int|
                        0 <= k < secret_shares@.len() ==> (#[trigger] secret_shares@[k]).1@
                            == poly_eval(polynomial, secret_shares@[k].0 as nat),
                forall|polynomial: Seq<nat>| #[trigger]
                    self.all_are_honest(params, outcome_index, attestations@, polynomial)
                        ==> secret_shares@.len() == (if oracle <= n_oracles {
                        oracle
                    } else {
                        n_oracles
                    }),
            decreases attestations@.len() - oracle,
        {
            if oracle < n_oracles {
                let found = self.recover_share(
                    params,
                    oracle,
                    outcome_index,
                    &outcome_bits,
                    &attestations[oracle],
                );
                proof {
                    let sigs = attestations@[oracle as int];
                    assert forall|polynomial: Seq<nat>| #[trigger]
                        self.given_shares_are_honest(
                            params,
                            outcome_index,
                            attestations@,
                            polynomial,
                        ) && found is Some implies found->0@ == poly_eval(
                        polynomial,
                        (oracle + 1) as nat,
                    ) by {
                        assert(self.share_is_honest(
                            params,
                            oracle as nat,
                            outcome_index,
                            sigs@,
                            poly_eval(polynomial, (oracle + 1) as nat),
                        ));
                    }
                    assert forall|polynomial: Seq<nat>| #[trigger]
                        self.all_are_honest(
                            params,
                            outcome_index,
                            attestations@,
                            polynomial,
                        ) implies found is Some by {
                        assert(self.attests_honestly(
                            params,
                            oracle as nat,
                            outcome_index,
                            sigs@,
                            poly_eval(polynomial, (oracle + 1) as nat),
                        ));
                    }
                }
                match found {
                    Some(share) => {
                        secret_shares.push(((oracle + 1) as u32, share));
                    },
                    None => {},
                }
            }
            oracle += 1;
        }
        secret_shares
    }

    /// Recovers the secret of the outcome `outcome_index` from the
    /// signatures of the oracles: `attestations[j]` holds oracle `j`'s
    /// signatures, one for each bit of the outcome. An oracle whose
    /// signatures are not all there and valid, or one of whose buckets gives
    /// no pad, gives no share. Where the oracles that give a share are
    /// honest and as many as the threshold, the secret is the constant term
    /// of the dealer's polynomial.
    #[verifier::rlimit(50)]
    pub fn receive_oracle_attestation(
        self,
        outcome_index: u32,
        attestations: Vec<Vec<G2Point>>,
        params: &Params,
    ) -> (r: Result<ChainScalar, Error>)
        requires
            params.wf(),
            self.wf(params),
            outcome_index < params.n_outcomes,
        ensures
            match r {
                Ok(secret) => self.recovered(params, outcome_index, attestations@) == Ok::<
                    nat,
                    Error,
                >(secret@),
                Err(e) => self.recovered(params, outcome_index, attestations@) == Err::<nat, Error>(
                    e,
                ),
            },
            forall|polynomial: Seq<nat>| #[trigger]
                self.attestations_are_honest(params, outcome_index, attestations@, polynomial)
                    ==> (r matches Ok(found) && found@ == polynomial[0]),
            forall|polynomial: Seq<nat>| #[trigger]
                self.all_attest_honestly(params, outcome_index, attestations@, polynomial) ==> (
                r matches Ok(found) && found@ == polynomial[0]),
    {
        let secret_shares = self.collect_shares(outcome_index, &attestations, params);
        proof {
            assert forall|polynomial: Seq<nat>| #[trigger]
                self.all_attest_honestly(
                    params,
                    outcome_index,
                    attestations@,
                    polynomial,
                ) implies self.attestations_are_honest(
                params,
                outcome_index,
                attestations@,
                polynomial,
            ) by {
                assert forall|j: int|
                    0 <= j < attestations@.len() && j
                        < params.oracle_keys@.len() implies self.share_is_honest(
                    params,
                    j as nat,
                    outcome_index,
                    (#[trigger] attestations@[j])@,
                    poly_eval(polynomial, (j + 1) as nat),
                ) by {
                    assert(self.attests_honestly(
                        params,
                        j as nat,
                        outcome_index,
                        attestations@[j]@,
                        poly_eval(polynomial, (j + 1) as nat),
                    ));
                }
            }
        }
        let threshold = params.threshold as usize;
        if secret_shares.len() < threshold {
            return Err(Error::InsufficientShares);
        }
        let secret = interpolate(&secret_shares, threshold);
        proof {
            let all = self.shares(params, outcome_index, attestations@, attestations@.len());
            let used = all.take(threshold as int);
            let xs = share_xs(secret_shares@.take(threshold as int));
            let ys = share_ys(secret_shares@.take(threshold as int));
            assert(xs =~= Seq::new(used.len(), |i: int| used[i].0));
            assert(ys =~= Seq::new(used.len(), |i: int| used[i].1));
            assert forall|polynomial: Seq<nat>| #[trigger]
                self.attestations_are_honest(
                    params,
                    outcome_index,
                    attestations@,
                    polynomial,
                ) implies secret@ == polynomial[0] by {
                assert(are_values_of(xs, ys, polynomial));
            }
        }
        if !ChainPoint::from_scalar(&secret).eq(&self.outcome_images[outcome_index as usize]) {
            return Err(Error::ReconstructionMismatch);
        }
        Ok(secret)
    }
}

} // verus!
