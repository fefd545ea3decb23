//! The three messages of a session, and the reasons a party refuses one.

use crate::bls::{
    g1_generator_repr, g1_scale, gt_scale, gt_sum, BlsScalar, G1Point, GtPoint,
};
use crate::chain::{base_scale, ChainPoint, ChainScalar};
use crate::common::{pad_for, Params};
use crate::dleq::Proof;
use crate::layout::{opened_indices, split_by_openings};
use crate::poly::PointPoly;
use std::collections::BTreeSet;
use vstd::prelude::*;

verus! {

/// Why a party refuses a message or cannot recover the secret.
#[derive(Clone, Copy, Debug, PartialEq, Eq, Structural)]
pub enum Error {
    /// The peer's message does not have the shape that the parameters ask for.
    BadMessage,
    /// An opened commitment does not fit the randomness that was sent for it.
    OpeningMismatch,
    /// A padded secret share does not fit the images of pads and polynomial.
    PadInconsistent,
    /// A ciphertext came with a proof of equality that is not accepted.
    DLEQInvalid,
    /// A ciphertext came with a padded scalar that does not fit its commitment.
    PaddedShareInvalid,
    /// No ciphertext of a bucket decrypted to the expected pad.
    AllCiphertextsMalicious,
    /// Fewer oracles than the threshold gave a share.
    InsufficientShares,
    /// The secret put together from the shares does not have the expected image.
    ReconstructionMismatch,
}

/// A commitment of the dealer: an ElGamal commitment `C` in `(G1, GT)` to an
/// element `m` of `GT`, the image `R` of a chain scalar `r`, and the pad
/// that ties `m` to `r`.
#[allow(non_snake_case)]
#[derive(Clone, Copy)]
pub struct Commit {
    pub C: (G1Point, GtPoint),
    pub R: ChainPoint,
    pub pad: [u8; 32],
}

/// What the dealer keeps of a commitment: the chain scalar `r`, the
/// randomness `r_prime` of the ElGamal commitment, and the element `m`.
#[derive(Clone)]
pub struct CommitSecret {
    pub r: ChainScalar,
    pub r_prime: BlsScalar,
    pub m: GtPoint,
}

/// The dealer's first message: all commitments.
#[derive(Clone)]
pub struct Message1 {
    pub commits: Vec<Commit>,
}

/// The receiver's challenge: which commitments to open, and which bucket
/// position gets which of the others.
#[derive(Clone)]
pub struct Message2 {
    pub bucket_mapping: Vec<usize>,
    pub openings: BTreeSet<usize>,
}

/// The dealer's answer: the openings, and for each bucket position a
/// ciphertext with its proof and padded scalar; the images of the outcome
/// polynomials and of the bit pads; and the padded secret shares.
#[derive(Clone)]
pub struct Message3 {
    pub encryptions: Vec<(Proof, GtPoint, ChainScalar)>,
    pub polys: Vec<PointPoly>,
    pub openings: Vec<BlsScalar>,
    pub bit_map_images: Vec<Vec<[ChainPoint; 2]>>,
    pub secret_share_pads_by_oracle: Vec<Vec<ChainScalar>>,
}

impl Commit {
    /// Whether the commitment is the one that `r`, `r_prime` and `m` give
    /// under the ElGamal base `base`.
    pub open spec fn opens_to(&self, base: Seq<u8>, r: nat, r_prime: nat, m: Seq<u8>) -> bool {
        &&& self.C.0@ == g1_scale(g1_generator_repr(), r_prime)
        &&& self.C.1@ == gt_sum(gt_scale(base, r_prime), m)
        &&& self.R@ == base_scale(r)
        &&& self.pad@ == pad_for(m, r)
    }

    /// The commitment to `m` and to the chain scalar `ri` that `pad` ties to
    /// it, with the randomness `ri_prime`.
    pub fn create(
        params: &Params,
        ri: &ChainScalar,
        ri_prime: &BlsScalar,
        ri_mapped: &GtPoint,
        pad: [u8; 32],
    ) -> (r: Self)
        ensures
            r.C.0@ == g1_scale(g1_generator_repr(), ri_prime@),
            r.C.1@ == gt_sum(gt_scale(params.elgamal_base@, ri_prime@), ri_mapped@),
            r.R@ == base_scale(ri@),
            r.pad == pad,
    {
        Commit {
            C: (
                G1Point::generator().mul(ri_prime),
                params.elgamal_base.mul(ri_prime).add(ri_mapped),
            ),
            R: ChainPoint::from_scalar(ri),
            pad,
        }
    }
}

impl Message2 {
    /// Whether the challenge has the shape that the parameters ask for: a
    /// bucket mapping of `nb` entries below `nb`, and `m - nb` openings, each
    /// of them the index of a commitment.
    pub open spec fn fits(&self, params: &Params) -> bool {
        &&& self.bucket_mapping@.len() == params.spec_nb()
        &&& forall|i: int|
            0 <= i < self.bucket_mapping@.len() ==> self.bucket_mapping@[i] < params.spec_nb()
        &&& self.openings@.len() == params.spec_num_openings()
        &&& opened_indices(params.spec_m(), self.openings@).len() == params.spec_num_openings()
    }

    /// Whether the challenge has the shape that the parameters ask for.
    pub fn check(&self, params: &Params) -> (r: bool)
        requires
            params.wf(),
        ensures
            r == self.fits(params),
    {
        let nb = params.NB();
        if self.bucket_mapping.len() != nb {
            return false;
        }
        let mut i: usize = 0;
        while i < self.bucket_mapping.len()
            invariant
                i <= self.bucket_mapping@.len(),
                nb == params.spec_nb(),
                forall|k: int| 0 <= k < i ==> self.bucket_mapping@[k] < nb,
            decreases self.bucket_mapping@.len() - i,
        {
            if self.bucket_mapping[i] >= nb {
                return false;
            }
            i += 1;
        }
        if self.openings.len() != params.num_openings() {
            return false;
        }
        let (_, opened) = split_by_openings(params.M(), &self.openings);
        opened.len() == params.num_openings()
    }
}

} // verus!
