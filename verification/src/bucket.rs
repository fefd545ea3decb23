//! What the receiver keeps of a ciphertext, and how a signature of an oracle
//! decrypts it to the pad of its bucket.

use crate::bls::{
    g1_generator_repr, g1_is_multiple, g1_scale, gt_diff, gt_is_sum, gt_scale, gt_sum, pairing_of,
    G1Point, G2Point, GtPoint,
};
use crate::chain::{base_scale, chain_order, fadd, fsub, ChainPoint, ChainScalar};
use crate::common::{lemma_unmask_pad, map_Gt_to_Zq, pad_for, unmask};
use crate::layout::bucket_start;
use crate::messages::Error;
use crate::pads::lemma_pad_comes_off;
use vstd::prelude::*;

verus! {

/// What the receiver keeps of a ciphertext: the `G1` half of its commitment,
/// the ciphertext, the padded scalar and the commitment's pad.
#[derive(Clone)]
pub struct BucketEntry {
    pub c0: G1Point,
    pub ciphertext: GtPoint,
    pub padded: ChainScalar,
    pub pad: [u8; 32],
}

/// Whether what is kept of a ciphertext is what an honest dealer gives for
/// a commitment to the scalar `r` and the element `m` with the randomness
/// `r_prime`, encrypted under `anticipated` and padded with `pad`.
pub open spec fn honest_entry(
    entry: BucketEntry,
    anticipated: Seq<u8>,
    r: nat,
    r_prime: nat,
    m: Seq<u8>,
    pad: nat,
) -> bool {
    &&& r < chain_order()
    &&& pad < chain_order()
    &&& entry.c0@ == g1_scale(g1_generator_repr(), r_prime)
    &&& entry.ciphertext@ == gt_sum(gt_scale(anticipated, r_prime), m)
    &&& entry.padded@ == fadd(r, pad)
    &&& entry.pad@ == pad_for(m, r)
}

/// The pad that a ciphertext gives under the signature `sig`: the padded
/// scalar less the scalar that the pad ties to the decrypted element.
pub open spec fn decrypted_pad(entry: BucketEntry, sig: Seq<u8>) -> nat {
    fsub(
        entry.padded@,
        unmask(gt_diff(entry.ciphertext@, pairing_of(entry.c0@, sig)), entry.pad@),
    )
}

/// The pad of the first ciphertext at the positions from `from` up to `to`
/// that gives a pad with the image `image`, if there is one.
pub open spec fn first_pad(
    entries: Seq<BucketEntry>,
    from: int,
    to: int,
    sig: Seq<u8>,
    image: Option<Seq<u8>>,
) -> Option<nat>
    decreases to - from,
{
    if from >= to {
        None
    } else if base_scale(decrypted_pad(entries[from], sig)) == image {
        Some(decrypted_pad(entries[from], sig))
    } else {
        first_pad(entries, from + 1, to, sig, image)
    }
}

/// The first position of the bucket of an oracle, a bit and a bit value, or
/// `len` if the bucket lies beyond the `len` positions.
pub open spec fn bucket_from(oracle: nat, bit: nat, value: nat, bits: nat, size: nat, len: nat) -> nat {
    let start = bucket_start(oracle, bit, value, bits, size);
    if start <= len {
        start
    } else {
        len
    }
}

/// The position after the last of the bucket of an oracle, a bit and a bit
/// value, among `len` positions.
pub open spec fn bucket_to(oracle: nat, bit: nat, value: nat, bits: nat, size: nat, len: nat) -> nat {
    let end = bucket_start(oracle, bit, value, bits, size) + size;
    if end <= len {
        end
    } else {
        len
    }
}

/// The pad that a ciphertext gives under the signature `sig`. An honest
/// dealer's ciphertext gives the pad that it was padded with, under a
/// signature that pairs to the attestation that it was encrypted under.
#[verifier::rlimit(50)]
pub fn decrypt_pad(entry: &BucketEntry, sig: &G2Point) -> (r: ChainScalar)
    ensures
        r@ == decrypted_pad(*entry, sig@),
        forall|ri: nat, ri_prime: nat, m: Seq<u8>, pad: nat| #[trigger]
            honest_entry(*entry, pairing_of(g1_generator_repr(), sig@), ri, ri_prime, m, pad)
                ==> r@ == pad,
{
    let paired = GtPoint::pairing(&entry.c0, sig);
    let ri_mapped = entry.ciphertext.sub(&paired);
    let ri = map_Gt_to_Zq(&ri_mapped, entry.pad);
    let bit_map_secret = entry.padded.sub(&ri);
    proof {
        assert forall|r: nat, r_prime: nat, m: Seq<u8>, pad: nat| #[trigger]
            honest_entry(
                *entry,
                pairing_of(g1_generator_repr(), sig@),
                r,
                r_prime,
                m,
                pad,
            ) implies bit_map_secret@ == pad by {
            assert(g1_is_multiple(entry.c0@, g1_generator_repr(), r_prime));
            assert(paired@ == gt_scale(pairing_of(g1_generator_repr(), sig@), r_prime));
            assert(gt_is_sum(entry.ciphertext@, paired@, m));
            assert(ri_mapped@ == m);
            lemma_unmask_pad(m, r);
            lemma_pad_comes_off(r, pad);
        }
    }
    bit_map_secret
}

/// The pad of the first ciphertext at the positions from `from` up to `to`
/// that gives a pad with the image `image`.
#[verifier::rlimit(50)]
pub fn find_bit_pad(
    entries: &Vec<BucketEntry>,
    from: usize,
    to: usize,
    sig: &G2Point,
    image: &ChainPoint,
) -> (r: Result<ChainScalar, Error>)
    requires
        from <= to <= entries@.len(),
    ensures
        match r {
            Ok(pad) => first_pad(entries@, from as int, to as int, sig@, image@) == Some(pad@),
            Err(e) => e == Error::AllCiphertextsMalicious && first_pad(
                entries@,
                from as int,
                to as int,
                sig@,
                image@,
            ) is None,
        },
        forall|ri: nat, ri_prime: nat, m: Seq<u8>, pad: nat|
            from < to && #[trigger] honest_entry(
                entries@[from as int],
                pairing_of(g1_generator_repr(), sig@),
                ri,
                ri_prime,
                m,
                pad,
            ) && image@ == base_scale(pad) ==> (r matches Ok(found) && found@ == pad),
{
    let mut k: usize = from;
    while k < to
        invariant
            from <= k <= to <= entries@.len(),
            first_pad(entries@, from as int, to as int, sig@, image@) == first_pad(
                entries@,
                k as int,
                to as int,
                sig@,
                image@,
            ),
            k > from ==> forall|ri: nat, ri_prime: nat, m: Seq<u8>, pad: nat|
                !(#[trigger] honest_entry(
                    entries@[from as int],
                    pairing_of(g1_generator_repr(), sig@),
                    ri,
                    ri_prime,
                    m,
                    pad,
                ) && image@ == base_scale(pad)),
        decreases to - k,
    {
        let bit_map_secret = decrypt_pad(&entries[k], sig);
        if ChainPoint::from_scalar(&bit_map_secret).eq(image) {
            return Ok(bit_map_secret);
        }
        k += 1;
    }
    Err(Error::AllCiphertextsMalicious)
}

} // verus!
