//! What the receiver checks of the dealer's answer: its shape, the openings,
//! the encryptions with their proofs and padded scalars, and the padded
//! secret shares.

use crate::alice::{all_anticipations, encryption_of, encryption_view, is_answer, Round3Randomness};
use crate::bls::{
    bls_order, g1_generator_repr, g1_scale, gt_diff, gt_is_sum, gt_scale, BlsScalar, G1Point,
    GtPoint,
};
use crate::bucket::BucketEntry;
use crate::chain::{
    base_scale, chain_order, fadd, is_multiple_of_base, point_sum, ChainPoint, ChainScalar,
};
use crate::common::{lemma_sizes, lemma_unmask_pad, map_Gt_to_Zq, unmask, Params};
use crate::dleq::{
    dleq_accepts, encrypts_commitment, equality_statement, verify_eqaulity, Proof, ProofSystem,
};
use crate::layout::{
    kept_indices, lemma_kept_indices, lemma_opened_indices, lemma_slot_bounds,
    lemma_slot_oracle_bound, opened_indices, slot, slot_bit, slot_oracle, slot_value,
};
use crate::messages::{Commit, CommitSecret, Error, Message2, Message3};
use crate::pads::{compute_pad_images, images_of_pads, pad_image_sum, pad_sum};
use crate::poly::{is_image_of, point_poly_eval, poly_eval, PointPoly};
use vstd::prelude::*;

verus! {

/// Whether `r_prime` opens `commit`: it gives the commitment's `G1` half,
/// and the element that it uncovers in the `GT` half is tied by the pad to a
/// scalar whose image is the commitment's point.
pub open spec fn opening_fits(commit: Commit, r_prime: nat, base: Seq<u8>) -> bool {
    &&& g1_scale(g1_generator_repr(), r_prime) == commit.C.0@
    &&& base_scale(unmask(gt_diff(commit.C.1@, gt_scale(base, r_prime)), commit.pad@))
        == commit.R@
}

/// Whether `r_prime` is the randomness of the commitment `commit` to some
/// scalar below the order and some element.
pub open spec fn opening_is_honest(commit: Commit, r_prime: nat, base: Seq<u8>) -> bool {
    exists|r: nat, m: Seq<u8>| r < chain_order() && #[trigger] commit.opens_to(base, r, r_prime, m)
}

/// Whether what came for a bucket position is an honest dealer's encryption
/// of the commitment `commit`, under the anticipated attestation
/// `anticipated` and with a pad whose image is `pad_image`.
pub open spec fn encryption_is_honest(
    commit: Commit,
    encryption: (Proof, GtPoint, ChainScalar),
    anticipated: Seq<u8>,
    base: Seq<u8>,
    pad_image: Option<Seq<u8>>,
) -> bool {
    exists|secret: CommitSecret, pad: nat, announce_secret: nat|
        #![trigger encryption_of(commit, secret, anticipated, base, pad, announce_secret)]
        {
            &&& encryption_view(encryption) == encryption_of(
                commit,
                secret,
                anticipated,
                base,
                pad,
                announce_secret,
            )
            &&& commit.opens_to(base, secret.r@, secret.r_prime@, secret.m@)
            &&& announce_secret < bls_order()
            &&& pad_image == base_scale(pad)
        }
}

/// Whether the proof that came with a ciphertext is accepted for its
/// commitment and the anticipated attestation of its bucket.
pub open spec fn proof_fits(
    commit: Commit,
    encryption: (Proof, GtPoint, ChainScalar),
    anticipated: Seq<u8>,
    base: Seq<u8>,
) -> bool {
    dleq_accepts(
        equality_statement(encryption.1@, anticipated, base, (commit.C.0@, commit.C.1@)),
        encryption.0@,
    )
}

/// Whether the padded scalar that came with a ciphertext fits: its image is
/// the image of the bucket's pad plus the commitment's point.
pub open spec fn padded_fits(
    commit: Commit,
    encryption: (Proof, GtPoint, ChainScalar),
    pad_image: Option<Seq<u8>>,
) -> bool {
    point_sum(pad_image, commit.R@) == base_scale(encryption.2@)
}

/// Whether a padded secret share fits: its image is the image of the
/// outcome's pad plus the value at `x` of the outcome's polynomial of points,
/// whose constant term is the outcome's image.
pub open spec fn share_pad_fits(
    share_pad: nat,
    pad_images: Seq<[ChainPoint; 2]>,
    outcome: nat,
    poly: Seq<Option<Seq<u8>>>,
    outcome_image: Option<Seq<u8>>,
    x: nat,
) -> bool {
    base_scale(share_pad) == point_sum(
        pad_image_sum(pad_images, outcome),
        point_poly_eval(seq![outcome_image] + poly, x),
    )
}

/// Whether the dealer's answer has the shape that the parameters ask for:
/// an opening for each opened commitment, an encryption for each bucket
/// position, two pad images for each bit of each oracle, a polynomial of
/// `threshold - 1` points for each outcome, and a padded share for each
/// outcome and oracle.
pub open spec fn shape_fits(message: &Message3, params: &Params) -> bool {
    &&& message.openings@.len() == params.spec_num_openings()
    &&& message.encryptions@.len() == params.spec_nb()
    &&& message.bit_map_images@.len() == params.oracle_keys@.len()
    &&& forall|j: int|
        0 <= j < message.bit_map_images@.len() ==> (#[trigger] message.bit_map_images@[j])@.len()
            == params.spec_n_outcome_bits()
    &&& message.polys@.len() == params.n_outcomes
    &&& forall|o: int|
        0 <= o < message.polys@.len() ==> (#[trigger] message.polys@[o])@.len() == params.threshold
            - 1
    &&& message.secret_share_pads_by_oracle@.len() == params.oracle_keys@.len()
    &&& forall|j: int|
        0 <= j < message.secret_share_pads_by_oracle@.len() ==> (
        #[trigger] message.secret_share_pads_by_oracle@[j])@.len() == params.n_outcomes
}

/// Whether every opening fits the commitment that it is for: the opened
/// commitments in rising order of their indices.
pub open spec fn openings_fit(
    message: &Message3,
    commits: Seq<Commit>,
    opened: Seq<usize>,
    base: Seq<u8>,
) -> bool {
    forall|k: int|
        0 <= k < opened.len() ==> opening_fits(
            commits[opened[k] as int],
            (#[trigger] message.openings@[k])@,
            base,
        )
}

/// Whether what came for position `i` is an honest dealer's encryption of
/// the commitment that is mapped to the position, for the position's oracle,
/// bit and value.
pub open spec fn entry_is_honest(
    message: &Message3,
    commits: Seq<Commit>,
    kept: Seq<usize>,
    bucket_mapping: Seq<usize>,
    params: &Params,
    i: nat,
) -> bool {
    let bits = params.spec_n_outcome_bits();
    let size = params.bucket_size as nat;
    let j = slot_oracle(i, bits, size) as int;
    let b = slot_bit(i, bits, size);
    let v = slot_value(i, size);
    encryption_is_honest(
        commits[kept[bucket_mapping[i as int] as int] as int],
        message.encryptions@[i as int],
        params.spec_anticipation(j, b as u32, v == 1),
        params.elgamal_base@,
        message.bit_map_images@[j]@[b as int]@[v as int]@,
    )
}

/// The fault of the encryption at position `i`, if it has one: the proof is
/// checked before the padded scalar.
pub open spec fn entry_fault(
    message: &Message3,
    commits: Seq<Commit>,
    kept: Seq<usize>,
    bucket_mapping: Seq<usize>,
    params: &Params,
    i: nat,
) -> Option<Error> {
    let bits = params.spec_n_outcome_bits();
    let size = params.bucket_size as nat;
    let commit = commits[kept[bucket_mapping[i as int] as int] as int];
    let j = slot_oracle(i, bits, size) as int;
    let b = slot_bit(i, bits, size);
    let v = slot_value(i, size);
    if !proof_fits(
        commit,
        message.encryptions@[i as int],
        params.spec_anticipation(j, b as u32, v == 1),
        params.elgamal_base@,
    ) {
        Some(Error::DLEQInvalid)
    } else if !padded_fits(
        commit,
        message.encryptions@[i as int],
        message.bit_map_images@[j]@[b as int]@[v as int]@,
    ) {
        Some(Error::PaddedShareInvalid)
    } else {
        None
    }
}

/// The first fault among the encryptions at the positions below `upto`, if
/// there is one.
pub open spec fn entries_verdict(
    message: &Message3,
    commits: Seq<Commit>,
    kept: Seq<usize>,
    bucket_mapping: Seq<usize>,
    params: &Params,
    upto: nat,
) -> Option<Error>
    decreases upto,
{
    if upto == 0 {
        None
    } else {
        match entries_verdict(message, commits, kept, bucket_mapping, params, (upto - 1) as nat) {
            Some(e) => Some(e),
            None => entry_fault(message, commits, kept, bucket_mapping, params, (upto - 1) as nat),
        }
    }
}

/// A fault that is found below `k` is the verdict for every larger range.
pub proof fn lemma_verdict_stays(
    message: &Message3,
    commits: Seq<Commit>,
    kept: Seq<usize>,
    bucket_mapping: Seq<usize>,
    params: &Params,
    k: nat,
    n: nat,
)
    requires
        k <= n,
        entries_verdict(message, commits, kept, bucket_mapping, params, k) is Some,
    ensures
        entries_verdict(message, commits, kept, bucket_mapping, params, n) == entries_verdict(
            message,
            commits,
            kept,
            bucket_mapping,
            params,
            k,
        ),
    decreases n,
{
    if k < n {
        lemma_verdict_stays(message, commits, kept, bucket_mapping, params, k, (n - 1) as nat);
    }
}

/// Whether `share_pad` is a share plus a pad, where `pad_image` is the
/// image of the pad and the share is the value at `x` of a polynomial of
/// scalars whose images are `poly`.
pub open spec fn share_is_honest(
    share_pad: nat,
    pad_image: Option<Seq<u8>>,
    poly: Seq<Option<Seq<u8>>>,
    x: nat,
) -> bool {
    exists|pad: nat, coefficients: Seq<nat>|
        #![trigger is_image_of(poly, coefficients), base_scale(pad)]
        {
            &&& is_image_of(poly, coefficients)
            &&& pad_image == base_scale(pad)
            &&& share_pad == fadd(pad, poly_eval(coefficients, x))
        }
}

/// Whether the padded secret shares are those of an honest dealer with the
/// pads `bit_pads` and the polynomials `polys`, whose images are `full`.
pub open spec fn shares_are_honest(
    share_pads: Seq<Vec<ChainScalar>>,
    bit_map_images: Seq<Vec<[ChainPoint; 2]>>,
    full: Seq<PointPoly>,
    bit_pads: Seq<Vec<[ChainScalar; 2]>>,
    polys: Seq<Seq<nat>>,
) -> bool {
    &&& bit_pads.len() == bit_map_images.len()
    &&& polys.len() == full.len()
    &&& forall|j: int|
        0 <= j < bit_pads.len() ==> images_of_pads(
            bit_map_images[j]@,
            (#[trigger] bit_pads[j])@,
        )
    &&& forall|o: int| 0 <= o < polys.len() ==> is_image_of(full[o]@, #[trigger] polys[o])
    &&& forall|j: int, o: int|
        0 <= j < bit_pads.len() && 0 <= o < polys.len() ==> (#[trigger] share_pads[j]@[o])@
            == fadd(pad_sum(bit_pads[j]@, o as nat), poly_eval(polys[o], (j + 1) as nat))
}

/// Whether every padded secret share fits.
pub open spec fn share_pads_fit(
    message: &Message3,
    outcome_images: Seq<ChainPoint>,
    params: &Params,
) -> bool {
    forall|j: int, o: int|
        0 <= j < params.oracle_keys@.len() && 0 <= o < params.n_outcomes ==> share_pad_fits(
            (#[trigger] message.secret_share_pads_by_oracle@[j]@[o])@,
            message.bit_map_images@[j]@,
            o as nat,
            message.polys@[o]@,
            outcome_images[o]@,
            (j + 1) as nat,
        )
}

/// Why the receiver refuses the dealer's answer, if it does: for its shape;
/// else for an opening that does not fit; else for the first fault among the
/// encryptions; else for a padded secret share that does not fit.
pub open spec fn verdict(
    message: &Message3,
    commits: Seq<Commit>,
    bucket_mapping: Seq<usize>,
    openings: Set<usize>,
    outcome_images: Seq<ChainPoint>,
    params: &Params,
) -> Option<Error> {
    let kept = kept_indices(params.spec_m(), openings);
    let opened = opened_indices(params.spec_m(), openings);
    if !shape_fits(message, params) {
        Some(Error::BadMessage)
    } else if !openings_fit(message, commits, opened, params.elgamal_base@) {
        Some(Error::OpeningMismatch)
    } else if entries_verdict(message, commits, kept, bucket_mapping, params, params.spec_nb())
        is Some {
        entries_verdict(message, commits, kept, bucket_mapping, params, params.spec_nb())
    } else if !share_pads_fit(message, outcome_images, params) {
        Some(Error::PadInconsistent)
    } else {
        None
    }
}

/// The dealer's answer to a challenge that fits the parameters has the
/// shape that the receiver asks for.
pub proof fn lemma_answer_has_shape(
    message3: &Message3,
    commits: Seq<Commit>,
    commit_secrets: Seq<CommitSecret>,
    message: &Message2,
    secrets: Seq<ChainScalar>,
    params: &Params,
    rnd: &Round3Randomness,
)
    requires
        message.fits(params),
        rnd.fits(params),
        is_answer(message3, commits, commit_secrets, message, secrets, params, rnd),
    ensures
        shape_fits(message3, params),
{
    assert forall|o: int| 0 <= o < message3.polys@.len() implies (#[trigger] message3.polys@[o])@.len()
        == params.threshold - 1 by {
        assert(is_image_of(message3.polys@[o]@, rnd.polys@[o]@));
    }
}

/// Whether the dealer's answer has the shape that the parameters ask for.
#[verifier::loop_isolation(false)]
pub fn check_shape(message: &Message3, params: &Params) -> (r: bool)
    requires
        params.wf(),
    ensures
        r == shape_fits(message, params),
{
    if message.openings.len() != params.num_openings() {
        return false;
    }
    if message.encryptions.len() != params.NB() {
        return false;
    }
    let n_oracles = params.oracle_keys.len();
    let bits = params.n_outcome_bits() as usize;
    let n_outcomes = params.n_outcomes as usize;
    if message.bit_map_images.len() != n_oracles {
        return false;
    }
    let mut j: usize = 0;
    while j < message.bit_map_images.len()
        invariant
            j <= message.bit_map_images@.len(),
            forall|k: int| 0 <= k < j ==> (#[trigger] message.bit_map_images@[k])@.len() == bits,
        decreases message.bit_map_images@.len() - j,
    {
        if message.bit_map_images[j].len() != bits {
            return false;
        }
        j += 1;
    }
    if message.polys.len() != n_outcomes {
        return false;
    }
    let tail = (params.threshold - 1) as usize;
    let mut o: usize = 0;
    while o < message.polys.len()
        invariant
            o <= message.polys@.len(),
            forall|k: int| 0 <= k < o ==> (#[trigger] message.polys@[k])@.len() == tail,
        decreases message.polys@.len() - o,
    {
        if message.polys[o].poly_len() != tail {
            return false;
        }
        o += 1;
    }
    if message.secret_share_pads_by_oracle.len() != n_oracles {
        return false;
    }
    let mut j: usize = 0;
    while j < message.secret_share_pads_by_oracle.len()
        invariant
            j <= message.secret_share_pads_by_oracle@.len(),
            forall|k: int|
                0 <= k < j ==> (#[trigger] message.secret_share_pads_by_oracle@[k])@.len()
                    == n_outcomes,
        decreases message.secret_share_pads_by_oracle@.len() - j,
    {
        if message.secret_share_pads_by_oracle[j].len() != n_outcomes {
            return false;
        }
        j += 1;
    }
    true
}

/// Whether `opening` opens `commit` under the ElGamal base `base`. The
/// randomness of an honest dealer's commitment opens it.
pub fn check_opening(commit: &Commit, opening: &BlsScalar, base: &GtPoint) -> (r: bool)
    ensures
        r == opening_fits(*commit, opening@, base@),
        opening_is_honest(*commit, opening@, base@) ==> r,
{
    let ri_prime_image = G1Point::generator().mul(opening);
    if !ri_prime_image.eq(&commit.C.0) {
        return false;
    }
    let masked = base.mul(opening);
    let ri_mapped = commit.C.1.sub(&masked);
    let ri = map_Gt_to_Zq(&ri_mapped, commit.pad);
    proof {
        if opening_is_honest(*commit, opening@, base@) {
            let (r, m) = choose|r: nat, m: Seq<u8>|
                r < chain_order() && #[trigger] commit.opens_to(base@, r, opening@, m);
            assert(gt_is_sum(commit.C.1@, masked@, m));
            lemma_unmask_pad(m, r);
        }
    }
    ChainPoint::from_scalar(&ri).eq(&commit.R)
}

/// Whether every opening fits the commitment that it is for.
pub fn check_openings(
    openings: &Vec<BlsScalar>,
    commits: &Vec<Commit>,
    opened: &Vec<usize>,
    base: &GtPoint,
) -> (r: bool)
    requires
        openings@.len() == opened@.len(),
        forall|k: int| 0 <= k < opened@.len() ==> opened@[k] < commits@.len(),
    ensures
        r == forall|k: int|
            0 <= k < opened@.len() ==> opening_fits(
                commits@[opened@[k] as int],
                (#[trigger] openings@[k])@,
                base@,
            ),
        (forall|k: int|
            0 <= k < opened@.len() ==> opening_is_honest(
                commits@[opened@[k] as int],
                (#[trigger] openings@[k])@,
                base@,
            )) ==> r,
{
    let mut k: usize = 0;
    while k < opened.len()
        invariant
            k <= opened@.len(),
            openings@.len() == opened@.len(),
            forall|l: int| 0 <= l < opened@.len() ==> opened@[l] < commits@.len(),
            forall|l: int|
                0 <= l < k ==> opening_fits(
                    commits@[opened@[l] as int],
                    (#[trigger] openings@[l])@,
                    base@,
                ),
        decreases opened@.len() - k,
    {
        if !check_opening(&commits[opened[k]], &openings[k], base) {
            assert(!opening_fits(commits@[opened@[k as int] as int], openings@[k as int]@, base@));
            return false;
        }
        k += 1;
    }
    true
}

/// The fault of the encryption at position `i`, if it has one.
#[verifier::rlimit(50)]
fn check_entry(
    proof_system: &ProofSystem,
    message: &Message3,
    commits: &Vec<Commit>,
    kept: &Vec<usize>,
    bucket_mapping: &Vec<usize>,
    anticipated: &Vec<Vec<[GtPoint; 2]>>,
    params: &Params,
    i: usize,
) -> (r: Option<Error>)
    requires
        params.wf(),
        shape_fits(message, params),
        i < params.spec_nb(),
        bucket_mapping@.len() == params.spec_nb(),
        forall|k: int| 0 <= k < bucket_mapping@.len() ==> bucket_mapping@[k] < kept@.len(),
        forall|k: int| 0 <= k < kept@.len() ==> kept@[k] < commits@.len(),
        anticipated@.len() == params.oracle_keys@.len(),
        forall|j: int|
            0 <= j < anticipated@.len() ==> (#[trigger] anticipated@[j])@.len()
                == params.spec_n_outcome_bits(),
        forall|j: int, b: int, v: int|
            0 <= j < anticipated@.len() && 0 <= b < params.spec_n_outcome_bits() && 0 <= v < 2
                ==> (#[trigger] anticipated@[j]@[b]@[v])@ == params.spec_anticipation(
                j,
                b as u32,
                v == 1,
            ),
    ensures
        r == entry_fault(message, commits@, kept@, bucket_mapping@, params, i as nat),
        entry_is_honest(message, commits@, kept@, bucket_mapping@, params, i as nat) ==> r is None,
{
    let nb = params.NB();
    let bits = params.n_outcome_bits();
    let per_bit = params.n_anticipations_per_bit();
    let size = params.bucket_size;
    proof {
        let o = params.oracle_keys@.len();
        assert(size >= 1 && bits >= 1 && i < 2 * size * bits * o) by (nonlinear_arith)
            requires
                i < nb,
                nb == size * (bits * per_bit) * o,
                1 <= per_bit <= 2,
        ;
        lemma_slot_oracle_bound(i as nat, bits as nat, size as nat, o);
    }
    let (j, b, v) = slot(i, bits, size);
    let commit = &commits[kept[bucket_mapping[i]]];
    let entry = &message.encryptions[i];
    let sig_point = anticipated[j][b as usize][v];
    assert(sig_point@ == params.spec_anticipation(j as int, b, v == 1)) by {
        assert(anticipated@[j as int]@[b as int]@[v as int]@ == params.spec_anticipation(
            j as int,
            b as int as u32,
            v as int == 1,
        ));
    }
    let pad_image = &message.bit_map_images[j][b as usize][v];
    let ghost honest = entry_is_honest(message, commits@, kept@, bucket_mapping@, params, i as nat);
    let ghost (secret, pad, announce_secret) = if honest {
        choose|secret: CommitSecret, pad: nat, announce_secret: nat|
            #![trigger encryption_of(*commit, secret, sig_point@, params.elgamal_base@, pad, announce_secret)]
            {
                &&& encryption_view(*entry) == encryption_of(
                    *commit,
                    secret,
                    sig_point@,
                    params.elgamal_base@,
                    pad,
                    announce_secret,
                )
                &&& commit.opens_to(
                    params.elgamal_base@,
                    secret.r@,
                    secret.r_prime@,
                    secret.m@,
                )
                &&& announce_secret < bls_order()
                &&& pad_image@ == base_scale(pad)
            }
    } else {
        arbitrary()
    };
    proof {
        if honest {
            assert(encrypts_commitment(
                entry.1@,
                sig_point@,
                params.elgamal_base@,
                (commit.C.0@, commit.C.1@),
                secret.r_prime@,
                secret.m@,
            ));
        }
    }
    if !verify_eqaulity(proof_system, &entry.0, entry.1, sig_point, params.elgamal_base, commit.C) {
        return Some(Error::DLEQInvalid);
    }
    let padded_image = pad_image.add(&commit.R);
    proof {
        if honest {
            assert(is_multiple_of_base(pad_image@, pad));
            assert(is_multiple_of_base(commit.R@, secret.r@));
            assert(fadd(pad, secret.r@) == fadd(secret.r@, pad));
        }
    }
    if !padded_image.eq(&ChainPoint::from_scalar(&entry.2)) {
        return Some(Error::PaddedShareInvalid);
    }
    None
}

/// The first fault among the encryptions, if there is one.
#[verifier::rlimit(50)]
pub fn check_entries(
    message: &Message3,
    commits: &Vec<Commit>,
    kept: &Vec<usize>,
    bucket_mapping: &Vec<usize>,
    params: &Params,
) -> (r: Option<Error>)
    requires
        params.wf(),
        shape_fits(message, params),
        bucket_mapping@.len() == params.spec_nb(),
        forall|i: int| 0 <= i < bucket_mapping@.len() ==> bucket_mapping@[i] < kept@.len(),
        forall|k: int| 0 <= k < kept@.len() ==> kept@[k] < commits@.len(),
    ensures
        r == entries_verdict(
            message,
            commits@,
            kept@,
            bucket_mapping@,
            params,
            params.spec_nb(),
        ),
        (forall|i: nat|
            i < params.spec_nb() ==> #[trigger] entry_is_honest(
                message,
                commits@,
                kept@,
                bucket_mapping@,
                params,
                i,
            )) ==> r is None,
{
    let proof_system = ProofSystem::new();
    let anticipated = all_anticipations(params);
    let nb = params.NB();
    let mut i: usize = 0;
    while i < nb
        invariant
            i <= nb,
            nb == params.spec_nb(),
            params.wf(),
            shape_fits(message, params),
            bucket_mapping@.len() == params.spec_nb(),
            forall|k: int| 0 <= k < bucket_mapping@.len() ==> bucket_mapping@[k] < kept@.len(),
            forall|k: int| 0 <= k < kept@.len() ==> kept@[k] < commits@.len(),
            anticipated@.len() == params.oracle_keys@.len(),
            forall|j: int|
                0 <= j < anticipated@.len() ==> (#[trigger] anticipated@[j])@.len()
                    == params.spec_n_outcome_bits(),
            forall|j: int, b: int, v: int|
                0 <= j < anticipated@.len() && 0 <= b < params.spec_n_outcome_bits() && 0 <= v
                    < 2 ==> (#[trigger] anticipated@[j]@[b]@[v])@ == params.spec_anticipation(
                    j,
                    b as u32,
                    v == 1,
                ),
            entries_verdict(message, commits@, kept@, bucket_mapping@, params, i as nat) is None,
        decreases nb - i,
    {
        let fault = check_entry(
            &proof_system,
            message,
            commits,
            kept,
            bucket_mapping,
            &anticipated,
            params,
            i,
        );
        if fault.is_some() {
            proof {
                lemma_verdict_stays(
                    message,
                    commits@,
                    kept@,
                    bucket_mapping@,
                    params,
                    (i + 1) as nat,
                    nb as nat,
                );
            }
            return fault;
        }
        i += 1;
    }
    None
}

/// Each polynomial with its outcome's image put in front as the constant term.
pub fn with_images(polys: Vec<PointPoly>, outcome_images: &Vec<ChainPoint>) -> (r: Vec<PointPoly>)
    requires
        polys@.len() == outcome_images@.len(),
    ensures
        r@.len() == polys@.len(),
        forall|o: int|
            0 <= o < r@.len() ==> (#[trigger] r@[o])@ == seq![outcome_images@[o]@] + polys@[o]@,
{
    let mut full = polys;
    let mut o: usize = 0;
    while o < full.len()
        invariant
            o <= full@.len(),
            full@.len() == polys@.len(),
            polys@.len() == outcome_images@.len(),
            forall|k: int|
                0 <= k < o ==> (#[trigger] full@[k])@ == seq![outcome_images@[k]@] + polys@[k]@,
            forall|k: int| o <= k < full@.len() ==> full@[k] == polys@[k],
        decreases full@.len() - o,
    {
        full[o].push_front(outcome_images[o]);
        o += 1;
    }
    full
}

/// Whether every padded secret share of oracle `j` fits the leaves
/// `pad_images` of the oracle's pad images and the polynomials `full`.
#[verifier::rlimit(50)]
fn check_oracle_share_pads(
    share_pads: &Vec<ChainScalar>,
    pad_images: &Vec<ChainPoint>,
    full: &Vec<PointPoly>,
    j: usize,
) -> (r: bool)
    requires
        j < 0xFFFF,
        share_pads@.len() == full@.len() <= pad_images@.len(),
    ensures
        r == forall|o: int|
            0 <= o < full@.len() ==> base_scale((#[trigger] share_pads@[o])@) == point_sum(
                pad_images@[o]@,
                point_poly_eval(full@[o]@, (j + 1) as nat),
            ),
        (forall|o: int|
            0 <= o < full@.len() ==> share_is_honest(
                (#[trigger] share_pads@[o])@,
                pad_images@[o]@,
                full@[o]@,
                (j + 1) as nat,
            )) ==> r,
{
    let x = (j + 1) as u32;
    let mut o: usize = 0;
    while o < full.len()
        invariant
            o <= full@.len(),
            x == j + 1,
            share_pads@.len() == full@.len() <= pad_images@.len(),
            forall|l: int|
                0 <= l < o ==> base_scale((#[trigger] share_pads@[l])@) == point_sum(
                    pad_images@[l]@,
                    point_poly_eval(full@[l]@, (j + 1) as nat),
                ),
        decreases full@.len() - o,
    {
        let secret_share_image = full[o].eval(x);
        let expected = pad_images[o].add(&secret_share_image);
        proof {
            if share_is_honest(
                share_pads@[o as int]@,
                pad_images@[o as int]@,
                full@[o as int]@,
                (j + 1) as nat,
            ) {
                let (pad, coefficients) = choose|pad: nat, coefficients: Seq<nat>|
                    #![trigger is_image_of(full@[o as int]@, coefficients), base_scale(pad)]
                    {
                        &&& is_image_of(full@[o as int]@, coefficients)
                        &&& pad_images@[o as int]@ == base_scale(pad)
                        &&& share_pads@[o as int]@ == fadd(
                            pad,
                            poly_eval(coefficients, (j + 1) as nat),
                        )
                    };
                assert(is_multiple_of_base(pad_images@[o as int]@, pad));
                assert(is_multiple_of_base(
                    secret_share_image@,
                    poly_eval(coefficients, (j + 1) as nat),
                ));
            }
        }
        if !ChainPoint::from_scalar(&share_pads[o]).eq(&expected) {
            assert(base_scale(share_pads@[o as int]@) != point_sum(
                pad_images@[o as int]@,
                point_poly_eval(full@[o as int]@, (j + 1) as nat),
            ));
            return false;
        }
        o += 1;
    }
    true
}

/// Whether every padded secret share fits the images of the pads and the
/// polynomials `full`, which have the outcomes' images as constant terms.
#[verifier::rlimit(50)]
pub fn check_share_pads(
    share_pads: &Vec<Vec<ChainScalar>>,
    bit_map_images: &Vec<Vec<[ChainPoint; 2]>>,
    full: &Vec<PointPoly>,
    n_outcomes: u32,
) -> (r: bool)
    requires
        share_pads@.len() == bit_map_images@.len() <= 0xFFFF,
        full@.len() == n_outcomes,
        forall|j: int|
            0 <= j < share_pads@.len() ==> (#[trigger] share_pads@[j])@.len() == n_outcomes,
        forall|j: int|
            0 <= j < bit_map_images@.len() ==> (#[trigger] bit_map_images@[j])@.len() <= 16
                && n_outcomes <= vstd::arithmetic::power2::pow2(bit_map_images@[j]@.len()),
    ensures
        r == forall|j: int, o: int|
            0 <= j < share_pads@.len() && 0 <= o < n_outcomes ==> base_scale(
                (#[trigger] share_pads@[j]@[o])@,
            ) == point_sum(
                pad_image_sum(bit_map_images@[j]@, o as nat),
                point_poly_eval(full@[o]@, (j + 1) as nat),
            ),
        forall|bit_pads: Seq<Vec<[ChainScalar; 2]>>, polys: Seq<Seq<nat>>| #[trigger]
            shares_are_honest(share_pads@, bit_map_images@, full@, bit_pads, polys) ==> r,
{
    let mut j: usize = 0;
    while j < share_pads.len()
        invariant
            j <= share_pads@.len(),
            share_pads@.len() == bit_map_images@.len() <= 0xFFFF,
            full@.len() == n_outcomes,
            forall|k: int|
                0 <= k < share_pads@.len() ==> (#[trigger] share_pads@[k])@.len() == n_outcomes,
            forall|k: int|
                0 <= k < bit_map_images@.len() ==> (#[trigger] bit_map_images@[k])@.len() <= 16
                    && n_outcomes <= vstd::arithmetic::power2::pow2(bit_map_images@[k]@.len()),
            forall|k: int, o: int|
                0 <= k < j && 0 <= o < n_outcomes ==> base_scale(
                    (#[trigger] share_pads@[k]@[o])@,
                ) == point_sum(
                    pad_image_sum(bit_map_images@[k]@, o as nat),
                    point_poly_eval(full@[o]@, (k + 1) as nat),
                ),
        decreases share_pads@.len() - j,
    {
        let pad_images = compute_pad_images(bit_map_images[j].as_slice());
        proof {
            assert forall|bit_pads: Seq<Vec<[ChainScalar; 2]>>, polys: Seq<Seq<nat>>| #[trigger]
                shares_are_honest(
                    share_pads@,
                    bit_map_images@,
                    full@,
                    bit_pads,
                    polys,
                ) implies forall|o: int|
                0 <= o < full@.len() ==> share_is_honest(
                    (#[trigger] share_pads@[j as int]@[o])@,
                    pad_images@[o]@,
                    full@[o]@,
                    (j + 1) as nat,
                ) by {
                assert(images_of_pads(bit_map_images@[j as int]@, bit_pads[j as int]@));
                assert forall|o: int| 0 <= o < full@.len() implies share_is_honest(
                    (#[trigger] share_pads@[j as int]@[o])@,
                    pad_images@[o]@,
                    full@[o]@,
                    (j + 1) as nat,
                ) by {
                    let pad = pad_sum(bit_pads[j as int]@, o as nat);
                    assert(pad_images@[o]@ == base_scale(pad));
                    assert(is_image_of(full@[o]@, polys[o]));
                    assert(share_pads@[j as int]@[o]@ == fadd(
                        pad,
                        poly_eval(polys[o], (j + 1) as nat),
                    ));
                }
            }
        }
        if !check_oracle_share_pads(&share_pads[j], &pad_images, full, j) {
            let ghost o = choose|o: int|
                0 <= o < full@.len() && base_scale((#[trigger] share_pads@[j as int]@[o])@)
                    != point_sum(
                    pad_images@[o]@,
                    point_poly_eval(full@[o]@, (j + 1) as nat),
                );
            assert(base_scale(share_pads@[j as int]@[o]@) != point_sum(
                pad_image_sum(bit_map_images@[j as int]@, o as nat),
                point_poly_eval(full@[o]@, (j + 1) as nat),
            ));
            return false;
        }
        assert forall|o: int| 0 <= o < n_outcomes implies base_scale(
            (#[trigger] share_pads@[j as int]@[o])@,
        ) == point_sum(
            pad_image_sum(bit_map_images@[j as int]@, o as nat),
            point_poly_eval(full@[o]@, (j + 1) as nat),
        ) by {
            assert(pad_images@[o]@ == pad_image_sum(bit_map_images@[j as int]@, o as nat));
        }
        j += 1;
    }
    true
}

/// What the receiver keeps of the encryptions: for each bucket position the
/// `G1` half and the pad of the commitment that is mapped to it, with the
/// ciphertext and the padded scalar that came for it.
#[verifier::loop_isolation(false)]
pub fn collect_entries(
    encryptions: Vec<(Proof, GtPoint, ChainScalar)>,
    commits: &Vec<Commit>,
    kept: &Vec<usize>,
    bucket_mapping: &Vec<usize>,
) -> (r: Vec<BucketEntry>)
    requires
        encryptions@.len() == bucket_mapping@.len(),
        forall|i: int| 0 <= i < bucket_mapping@.len() ==> bucket_mapping@[i] < kept@.len(),
        forall|k: int| 0 <= k < kept@.len() ==> kept@[k] < commits@.len(),
    ensures
        r@.len() == encryptions@.len(),
        forall|i: int|
            0 <= i < r@.len() ==> {
                let commit = commits@[kept@[bucket_mapping@[i] as int] as int];
                &&& (#[trigger] r@[i]).c0 == commit.C.0
                &&& r@[i].pad == commit.pad
                &&& r@[i].ciphertext == encryptions@[i].1
                &&& r@[i].padded@ == encryptions@[i].2@
            },
{
    let mut entries: Vec<BucketEntry> = Vec::new();
    let mut i: usize = 0;
    while i < encryptions.len()
        invariant
            i <= encryptions@.len(),
            entries@.len() == i,
            forall|k: int|
                0 <= k < i ==> {
                    let commit = commits@[kept@[bucket_mapping@[k] as int] as int];
                    &&& (#[trigger] entries@[k]).c0 == commit.C.0
                    &&& entries@[k].pad == commit.pad
                    &&& entries@[k].ciphertext == encryptions@[k].1
                    &&& entries@[k].padded@ == encryptions@[k].2@
                },
        decreases encryptions@.len() - i,
    {
        let commit = &commits[kept[bucket_mapping[i]]];
        entries.push(
            BucketEntry {
                c0: commit.C.0,
                ciphertext: encryptions[i].1,
                padded: encryptions[i].2.clone(),
                pad: commit.pad,
            },
        );
        i += 1;
    }
    entries
}

/// In the dealer's answer, what is sent for a bucket position is an honest
/// encryption of the commitment that is mapped to the position.
pub proof fn lemma_honest_entry(
    message3: &Message3,
    commits: Seq<Commit>,
    commit_secrets: Seq<CommitSecret>,
    message2: &Message2,
    secrets: Seq<ChainScalar>,
    params: &Params,
    rnd: &Round3Randomness,
    i: nat,
)
    requires
        params.wf(),
        i < params.spec_nb(),
        commits.len() == params.spec_m(),
        commit_secrets.len() == params.spec_m(),
        forall|k: int|
            0 <= k < commits.len() ==> (#[trigger] commits[k]).opens_to(
                params.elgamal_base@,
                commit_secrets[k].r@,
                commit_secrets[k].r_prime@,
                commit_secrets[k].m@,
            ),
        message2.fits(params),
        rnd.fits(params),
        forall|k: int|
            0 <= k < rnd.announce_secrets@.len() ==> (#[trigger] rnd.announce_secrets@[k])@
                < bls_order(),
        is_answer(message3, commits, commit_secrets, message2, secrets, params, rnd),
    ensures
        entry_is_honest(
            message3,
            commits,
            kept_indices(params.spec_m(), message2.openings@),
            message2.bucket_mapping@,
            params,
            i,
        ),
{
    let bits = params.spec_n_outcome_bits();
    let size = params.bucket_size as nat;
    let n_oracles = params.oracle_keys@.len();
    let per_bit = params.spec_n_anticipations_per_bit();
    lemma_sizes(params);
    assert(size >= 1 && bits >= 1 && i < 2 * size * bits * n_oracles) by (nonlinear_arith)
        requires
            i < params.spec_nb(),
            params.spec_nb() == size * (bits * per_bit) * n_oracles,
            1 <= per_bit <= 2,
    ;
    lemma_slot_oracle_bound(i, bits, size, n_oracles);
    lemma_slot_bounds(i, bits, size);
    lemma_kept_indices(params.spec_m(), message2.openings@);
    lemma_opened_indices(params.spec_m(), message2.openings@);
    let kept = kept_indices(params.spec_m(), message2.openings@);
    let from = kept[message2.bucket_mapping@[i as int] as int] as int;
    let j = slot_oracle(i, bits, size) as int;
    let b = slot_bit(i, bits, size) as int;
    let v = slot_value(i, size) as int;
    let pad = rnd.bit_pads@[j]@[b]@[v]@;
    let anticipated = params.spec_anticipation(j, b as u32, v == 1);
    assert(encryption_view(message3.encryptions@[i as int]) == encryption_of(
        commits[from],
        commit_secrets[from],
        anticipated,
        params.elgamal_base@,
        pad,
        rnd.announce_secrets@[i as int]@,
    ));
    assert(commits[from].opens_to(
        params.elgamal_base@,
        commit_secrets[from].r@,
        commit_secrets[from].r_prime@,
        commit_secrets[from].m@,
    ));
    assert(message3.bit_map_images@[j]@[b]@[v]@ == base_scale(pad));
    assert(encryption_is_honest(
        commits[from],
        message3.encryptions@[i as int],
        anticipated,
        params.elgamal_base@,
        message3.bit_map_images@[j]@[b]@[v]@,
    ));
}

} // verus!
