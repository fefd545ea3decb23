//! Byte strings as numbers: big-endian, as the chain curve's scalars are
//! encoded, and little-endian, as the pairing curve's are.

use vstd::prelude::*;

verus! {

/// The number that a byte string denotes, most significant byte first.
pub open spec fn be_nat(s: Seq<u8>) -> nat
    decreases s.len(),
{
    if s.len() == 0 {
        0
    } else {
        be_nat(s.drop_last()) * 256 + s.last() as nat
    }
}

/// The number that a byte string denotes, least significant byte first.
pub open spec fn le_nat(s: Seq<u8>) -> nat
    decreases s.len(),
{
    if s.len() == 0 {
        0
    } else {
        le_nat(s.drop_last()) + s.last() as nat * pow256((s.len() - 1) as nat)
    }
}

/// `256` to the power `n`.
pub open spec fn pow256(n: nat) -> nat
    decreases n,
{
    if n == 0 {
        1
    } else {
        256 * pow256((n - 1) as nat)
    }
}

/// The `len` low base-256 digits of `n`, most significant first.
pub open spec fn be_bytes(n: nat, len: nat) -> Seq<u8>
    decreases len,
{
    if len == 0 {
        Seq::empty()
    } else {
        be_bytes(n / 256, (len - 1) as nat).push((n % 256) as u8)
    }
}

/// A little-endian number of `len` bytes is below `256^len`.
pub proof fn lemma_le_nat_bound(s: Seq<u8>)
    ensures
        le_nat(s) < pow256(s.len()),
    decreases s.len(),
{
    if s.len() > 0 {
        lemma_le_nat_bound(s.drop_last());
        let p = pow256((s.len() - 1) as nat);
        assert(s.last() as nat * p <= 255 * p) by (nonlinear_arith)
            requires
                s.last() as nat <= 255,
        ;
    }
}

/// A number below `256^len` is the number that its `len` digits denote.
pub proof fn lemma_be_nat_of_be_bytes(n: nat, len: nat)
    requires
        n < pow256(len),
    ensures
        be_nat(be_bytes(n, len)) == n,
    decreases len,
{
    if len > 0 {
        lemma_be_nat_of_be_bytes(n / 256, (len - 1) as nat);
        assert(be_bytes(n, len).drop_last() =~= be_bytes(n / 256, (len - 1) as nat));
    }
}

/// A byte string is the digits of the number it denotes.
pub proof fn lemma_be_bytes_of_be_nat(b: Seq<u8>)
    ensures
        be_bytes(be_nat(b), b.len()) == b,
    decreases b.len(),
{
    if b.len() > 0 {
        lemma_be_bytes_of_be_nat(b.drop_last());
        assert(be_nat(b) / 256 == be_nat(b.drop_last()));
        assert(be_nat(b) % 256 == b.last() as nat);
        assert(be_bytes(be_nat(b), b.len()) =~= b);
    } else {
        assert(be_bytes(be_nat(b), b.len()) =~= b);
    }
}

} // verus!
