//! An oracle: attests to an outcome by signing, for each bit of the outcome,
//! the event message of the bit's value.

use crate::bls::{g1_generator_repr, g1_scale, g2_scale, hash_to_g2, BlsScalar, G1Point, G2Point};
use crate::common::{bit_of, dst_tag, event_message, message_for_event_index, to_bits};
use vstd::prelude::*;

verus! {

/// An oracle's key pair.
pub struct Oracle {
    sk: BlsScalar,
    pk: G1Point,
}

impl Oracle {
    /// The secret key.
    pub closed spec fn secret_key(&self) -> nat {
        self.sk@
    }

    /// The encoding of the public key.
    pub closed spec fn spec_public_key(&self) -> Seq<u8> {
        self.pk@
    }

    /// Whether the public key is the image of the secret key.
    pub open spec fn wf(&self) -> bool {
        self.spec_public_key() == g1_scale(g1_generator_repr(), self.secret_key())
    }

    /// An oracle with a secret key drawn at random.
    pub fn random() -> (r: Self)
        ensures
            r.wf(),
    {
        Self::new(BlsScalar::random())
    }

    /// The oracle with the secret key `scalar`: its public key is
    /// `scalar * g1`.
    pub fn new(scalar: BlsScalar) -> (r: Self)
        ensures
            r.secret_key() == scalar@,
            r.wf(),
    {
        Self { sk: scalar, pk: G1Point::generator().mul(&scalar) }
    }

    /// The public key.
    pub fn public_key(&self) -> (r: G1Point)
        ensures
            r@ == self.spec_public_key(),
    {
        self.pk
    }

    /// Attests to the outcome `outcome_index` of the event: for each of the
    /// `n_outcome_bits` low bits of the outcome, the secret key times the
    /// element of `G2` that stands for the bit's value.
    pub fn attest(&self, event_id: &str, n_outcome_bits: usize, outcome_index: u32) -> (r: Vec<
        G2Point,
    >)
        requires
            n_outcome_bits <= u32::MAX,
        ensures
            r@.len() == n_outcome_bits,
            forall|b: int|
                0 <= b < n_outcome_bits ==> (#[trigger] r@[b])@ == g2_scale(
                    hash_to_g2(
                        event_message(event_id@, b as u32, bit_of(outcome_index as nat, b as nat)),
                        dst_tag(),
                    ),
                    self.secret_key(),
                ),
    {
        let bits = to_bits(outcome_index, n_outcome_bits);
        let mut signatures: Vec<G2Point> = Vec::new();
        let mut bit_index: usize = 0;
        while bit_index < n_outcome_bits
            invariant
                bit_index <= n_outcome_bits <= u32::MAX,
                bits@.len() == n_outcome_bits,
                forall|b: int|
                    0 <= b < n_outcome_bits ==> bits@[b] == bit_of(outcome_index as nat, b as nat),
                signatures@.len() == bit_index,
                forall|b: int|
                    0 <= b < bit_index ==> (#[trigger] signatures@[b])@ == g2_scale(
                        hash_to_g2(
                            event_message(
                                event_id@,
                                b as u32,
                                bit_of(outcome_index as nat, b as nat),
                            ),
                            dst_tag(),
                        ),
                        self.secret_key(),
                    ),
            decreases n_outcome_bits - bit_index,
        {
            let message = message_for_event_index(event_id, bit_index as u32, bits[bit_index]);
            signatures.push(message.mul(&self.sk));
            bit_index += 1;
        }
        signatures
    }
}

} // verus!
