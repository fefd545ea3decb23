//! SHA-256, as `sha2` computes it, and helpers on byte strings.

use sha2::Digest;
use vstd::prelude::*;

verus! {

/// The SHA-256 digest of `data`: 32 bytes.
pub uninterp spec fn sha256_of(data: Seq<u8>) -> Seq<u8>;

/// `Sha256::digest`.
#[verifier::external_body]
pub(crate) fn sha256_digest(data: &[u8]) -> (r: [u8; 32])
    ensures
        r@ == sha256_of(data@),
{
    sha2::Sha256::digest(data).into()
}

/// The SHA-256 digest of `data`.
pub fn sha256(data: &[u8]) -> (r: [u8; 32])
    ensures
        r@ == sha256_of(data@),
{
    sha256_digest(data)
}

/// `block` with each byte changed by the byte of `mask` at its place
/// (exclusive or).
pub open spec fn xor_bytes(mask: Seq<u8>, block: Seq<u8>) -> Seq<u8> {
    Seq::new(block.len(), |i: int| mask[i] ^ block[i])
}

/// The byte-wise exclusive or of two blocks of 32 bytes.
pub fn xor32(a: &[u8; 32], b: &[u8; 32]) -> (r: [u8; 32])
    ensures
        r@ == xor_bytes(a@, b@),
{
    let mut out: [u8; 32] = [0u8; 32];
    let mut i: usize = 0;
    while i < 32
        invariant
            i <= 32,
            forall|k: int| 0 <= k < i ==> out@[k] == a@[k] ^ b@[k],
        decreases 32 - i,
    {
        out[i] = a[i] ^ b[i];
        i += 1;
    }
    assert(out@ =~= xor_bytes(a@, b@));
    out
}

/// Appends `data` to `buf`.
pub fn append_bytes(buf: &mut Vec<u8>, data: &[u8])
    ensures
        final(buf)@ == old(buf)@ + data@,
{
    let mut i: usize = 0;
    while i < data.len()
        invariant
            i <= data@.len(),
            buf@ == old(buf)@ + data@.take(i as int),
        decreases data@.len() - i,
    {
        buf.push(data[i]);
        assert(data@.take(i as int + 1) =~= data@.take(i as int).push(data@[i as int]));
        i += 1;
    }
    assert(data@.take(i as int) =~= data@);
}

/// Whether two byte strings are the same.
pub fn bytes_eq(a: &[u8], b: &[u8]) -> (r: bool)
    ensures
        r == (a@ == b@),
{
    if a.len() != b.len() {
        return false;
    }
    let mut i: usize = 0;
    while i < a.len()
        invariant
            i <= a@.len(),
            a@.len() == b@.len(),
            forall|k: int| 0 <= k < i ==> a@[k] == b@[k],
        decreases a@.len() - i,
    {
        if a[i] != b[i] {
            return false;
        }
        i += 1;
    }
    assert(a@ =~= b@);
    true
}

/// Applying the same mask twice gives the block back.
pub proof fn lemma_xor_twice(mask: Seq<u8>, block: Seq<u8>)
    ensures
        xor_bytes(mask, xor_bytes(mask, block)) == block,
{
    assert forall|i: int| 0 <= i < block.len() implies (mask[i] ^ (mask[i] ^ block[i])) == block[i] by {
        let m = mask[i];
        let x = block[i];
        assert((m ^ (m ^ x)) == x) by (bit_vector);
    }
    assert(xor_bytes(mask, xor_bytes(mask, block)) =~= block);
}

} // verus!
