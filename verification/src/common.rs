//! The parameters of a session and what both parties derive from them: the
//! sizes of the cut-and-choose, the messages that oracles sign, the
//! attestations that can be anticipated, and the mask that ties an element of
//! `GT` to a chain scalar.

use crate::bls::{
    g1_generator_repr, g1_is_multiple, g2_generator_repr, g2_is_multiple, g2_scale, gt_scale,
    hash_to_g2, pairing_of, G1Point, G2Point, GtPoint,
};
use crate::chain::{chain_order, ChainScalar};
use crate::encoding::{
    be_bytes, be_nat, lemma_be_bytes_of_be_nat, lemma_be_nat_of_be_bytes, pow256,
};
use crate::hash::{append_bytes, lemma_xor_twice, sha256, sha256_of, xor32, xor_bytes};
use vstd::arithmetic::power2::{lemma_pow2_strictly_increases, lemma_pow2_unfold, pow2};
use vstd::prelude::*;
use vstd::utf8::encode_utf8;

verus! {

/// What dealer and receiver agree on before a session.
#[derive(Clone)]
pub struct Params {
    /// The public keys of the oracles.
    pub oracle_keys: Vec<G1Point>,
    /// The name of the event whose outcome the oracles attest to.
    pub event_id: String,
    /// The proportion of commitments that stay closed, in thousandths.
    pub closed_per_mille: u16,
    /// The number of commitments in each bucket.
    pub bucket_size: u8,
    /// The number of outcomes.
    pub n_outcomes: u32,
    /// The number of oracles whose attestations reveal the secret.
    pub threshold: u16,
    /// The base of the ElGamal commitments in `GT`.
    pub elgamal_base: GtPoint,
    /// Whether outcomes form a chain in which one secret gives access to all later ones.
    pub monotone: bool,
}

/// The least `k >= from` with `2^k >= n`, and at most 32.
pub open spec fn ceil_log2_from(n: nat, from: nat) -> nat
    decreases 32 - from,
{
    if from >= 32 || pow2(from) >= n {
        from
    } else {
        ceil_log2_from(n, from + 1)
    }
}

/// The number of bits that tell `n` outcomes apart: the least `k` with
/// `2^k >= n`.
pub open spec fn ceil_log2(n: nat) -> nat {
    ceil_log2_from(n, 0)
}

/// The decimal digits of `n` as ASCII.
pub open spec fn decimal(n: nat) -> Seq<u8>
    decreases n,
{
    if n < 10 {
        seq![(48 + n) as u8]
    } else {
        decimal(n / 10).push((48 + n % 10) as u8)
    }
}

/// The tag under which event messages are hashed to `G2`.
pub open spec fn dst_tag() -> Seq<u8> {
    encode_utf8("dlc-message"@)
}

/// The message an oracle signs to attest that bit `outcome_bit_index` of the
/// outcome has the value `outcome_bit_value`: the event's name, the index in
/// decimal and `true` or `false`, with `/` between them.
pub open spec fn event_message(
    event_id: Seq<char>,
    outcome_bit_index: u32,
    outcome_bit_value: bool,
) -> Seq<u8> {
    encode_utf8(event_id) + seq![47u8] + decimal(outcome_bit_index as nat) + seq![47u8] + (
    if outcome_bit_value {
        encode_utf8("true"@)
    } else {
        encode_utf8("false"@)
    })
}

/// The element of `GT` that an oracle's signature on an event message pairs
/// to, which can be computed from the oracle's public key before it signs.
pub open spec fn anticipation(
    oracle_key: Seq<u8>,
    event_id: Seq<char>,
    outcome_bit_index: u32,
    outcome_bit_value: bool,
) -> Seq<u8> {
    pairing_of(
        oracle_key,
        hash_to_g2(event_message(event_id, outcome_bit_index, outcome_bit_value), dst_tag()),
    )
}

/// Whether bit `i` of `num` is set.
pub open spec fn bit_of(num: nat, i: nat) -> bool {
    (num / pow2(i)) % 2 == 1
}

/// The pad that ties the element `m` of `GT` to the scalar `r`: the digest of
/// `m`, masked with the 32 bytes of `r`.
pub open spec fn pad_for(m: Seq<u8>, r: nat) -> Seq<u8> {
    xor_bytes(sha256_of(m), be_bytes(r, 32))
}

/// The scalar that `pad` ties to the element `m` of `GT`.
pub open spec fn unmask(m: Seq<u8>, pad: Seq<u8>) -> nat {
    be_nat(xor_bytes(sha256_of(m), pad)) % chain_order()
}

impl Params {
    /// What the functions of this crate ask of parameters: at most 65535
    /// oracles and 65536 outcomes, a closed proportion between one half and
    /// one, and a threshold of at least one.
    pub open spec fn wf(&self) -> bool {
        &&& self.oracle_keys@.len() <= 0xFFFF
        &&& 500 <= self.closed_per_mille <= 1000
        &&& self.n_outcomes <= 0x1_0000
        &&& self.threshold >= 1
    }

    /// The number of bits that tell the outcomes apart.
    pub open spec fn spec_n_outcome_bits(&self) -> nat {
        ceil_log2(self.n_outcomes as nat)
    }

    /// The number of buckets for each bit: one for each value, or one in
    /// monotone mode.
    pub open spec fn spec_n_anticipations_per_bit(&self) -> nat {
        if self.monotone {
            1
        } else {
            2
        }
    }

    /// The number of buckets for each oracle.
    pub open spec fn spec_n_anticipations_per_oracle(&self) -> nat {
        self.spec_n_outcome_bits() * self.spec_n_anticipations_per_bit()
    }

    /// The number of commitments that stay closed: one bucket for each
    /// anticipated attestation of each oracle.
    pub open spec fn spec_nb(&self) -> nat {
        self.bucket_size as nat * self.spec_n_anticipations_per_oracle()
            * self.oracle_keys@.len()
    }

    /// The number of commitments in all: the least `m` of which the closed
    /// ones are at most the proportion `closed_per_mille / 1000`.
    pub open spec fn spec_m(&self) -> nat {
        ((self.spec_nb() * 1000 + self.closed_per_mille - 1) / (self.closed_per_mille as int)) as nat
    }

    /// The number of commitments that are opened: all but the closed ones.
    pub open spec fn spec_num_openings(&self) -> nat {
        (self.spec_m() - self.spec_nb()) as nat
    }

    /// The anticipated attestation of oracle `oracle_index` to the given bit.
    pub open spec fn spec_anticipation(
        &self,
        oracle_index: int,
        outcome_bit_index: u32,
        outcome_bit_value: bool,
    ) -> Seq<u8> {
        anticipation(
            self.oracle_keys@[oracle_index]@,
            self.event_id@,
            outcome_bit_index,
            outcome_bit_value,
        )
    }

    /// Whether the parameters are ones that this crate works with.
    pub fn check(&self) -> (r: bool)
        ensures
            r == self.wf(),
    {
        self.oracle_keys.len() <= 0xFFFF && 500 <= self.closed_per_mille
            && self.closed_per_mille <= 1000 && self.n_outcomes <= 0x1_0000 && self.threshold
            >= 1
    }

    /// The number of bits that tell the outcomes apart: the least `k` with
    /// `2^k >= n_outcomes`.
    pub fn n_outcome_bits(&self) -> (r: u32)
        ensures
            r == self.spec_n_outcome_bits(),
            r <= 32,
            pow2(r as nat) >= self.n_outcomes,
            r == 0 || pow2((r - 1) as nat) < self.n_outcomes,
            self.n_outcomes <= 0x1_0000 ==> r <= 16,
    {
        let n = self.n_outcomes as u64;
        let mut k: u32 = 0;
        let mut p: u64 = 1;
        proof {
            vstd::arithmetic::power2::lemma2_to64();
        }
        while p < n
            invariant
                k <= 32,
                p == pow2(k as nat),
                n == self.n_outcomes,
                ceil_log2_from(n as nat, k as nat) == ceil_log2(n as nat),
                k == 0 || pow2((k - 1) as nat) < n,
            decreases 32 - k,
        {
            proof {
                lemma_pow2_unfold((k + 1) as nat);
                if k == 32 {
                    vstd::arithmetic::power2::lemma2_to64();
                }
            }
            p = p * 2;
            k = k + 1;
        }
        proof {
            if self.n_outcomes <= 0x1_0000 && k > 16 {
                vstd::arithmetic::power2::lemma2_to64();
                if k > 17 {
                    lemma_pow2_strictly_increases(16, (k - 1) as nat);
                }
            }
        }
        k
    }

    /// The number of buckets for each oracle.
    pub fn n_anticipations_per_oracle(&self) -> (r: u32)
        ensures
            r == self.spec_n_anticipations_per_oracle(),
            r <= 64,
            self.n_outcomes <= 0x1_0000 ==> r <= 32,
    {
        let bits = self.n_outcome_bits();
        let per_bit = self.n_anticipations_per_bit();
        assert(bits * per_bit <= 2 * bits) by (nonlinear_arith)
            requires
                per_bit <= 2,
        ;
        bits * per_bit
    }

    /// The number of buckets for each bit: one for each value, or one in
    /// monotone mode.
    pub fn n_anticipations_per_bit(&self) -> (r: u32)
        ensures
            r == self.spec_n_anticipations_per_bit(),
            1 <= r <= 2,
    {
        if self.monotone {
            1
        } else {
            2
        }
    }

    /// The number of commitments that stay closed.
    #[allow(non_snake_case)]
    pub fn NB(&self) -> (r: usize)
        requires
            self.wf(),
        ensures
            r == self.spec_nb(),
            r <= 255 * 32 * 0xFFFF,
    {
        let b = self.bucket_size as usize;
        let n = self.n_anticipations_per_oracle() as usize;
        let o = self.oracle_keys.len();
        assert(b * n <= 255 * 32) by (nonlinear_arith)
            requires
                b <= 255,
                n <= 32,
        ;
        assert(b * n * o <= 255 * 32 * 0xFFFF) by (nonlinear_arith)
            requires
                b * n <= 255 * 32,
                o <= 0xFFFF,
        ;
        b * n * o
    }

    /// The number of commitments in all.
    #[allow(non_snake_case)]
    pub fn M(&self) -> (r: usize)
        requires
            self.wf(),
        ensures
            r == self.spec_m(),
            r * self.closed_per_mille >= self.spec_nb() * 1000,
            r == 0 || (r - 1) * self.closed_per_mille < self.spec_nb() * 1000,
            self.spec_nb() <= r <= 2 * self.spec_nb(),
    {
        let nb = self.NB() as u64;
        let pm = self.closed_per_mille as u64;
        let m = (nb * 1000 + pm - 1) / pm;
        assert(nb <= m <= 2 * nb && m * pm >= nb * 1000 && (m == 0 || (m - 1) * pm < nb * 1000))
            by (nonlinear_arith)
            requires
                500 <= pm <= 1000,
                m == (nb * 1000 + pm - 1) / (pm as int),
        ;
        m as usize
    }

    /// The number of commitments that are opened.
    pub fn num_openings(&self) -> (r: usize)
        requires
            self.wf(),
        ensures
            r == self.spec_num_openings(),
            r + self.spec_nb() == self.spec_m(),
    {
        self.M() - self.NB()
    }

    /// Each bit's two anticipated attestations of one oracle: at `[b][0]` for
    /// the value `false`, at `[b][1]` for `true`.
    pub fn iter_anticipations(&self, oracle_index: usize) -> (r: Vec<[GtPoint; 2]>)
        requires
            oracle_index < self.oracle_keys@.len(),
        ensures
            r@.len() == self.spec_n_outcome_bits(),
            forall|b: int|
                0 <= b < r@.len() ==> (#[trigger] r@[b])@[0]@ == self.spec_anticipation(
                    oracle_index as int,
                    b as u32,
                    false,
                ) && r@[b]@[1]@ == self.spec_anticipation(oracle_index as int, b as u32, true),
    {
        let bits = self.n_outcome_bits();
        let mut out: Vec<[GtPoint; 2]> = Vec::new();
        let mut bit: u32 = 0;
        while bit < bits
            invariant
                bit <= bits,
                oracle_index < self.oracle_keys@.len(),
                out@.len() == bit,
                forall|b: int|
                    0 <= b < out@.len() ==> (#[trigger] out@[b])@[0]@ == self.spec_anticipation(
                        oracle_index as int,
                        b as u32,
                        false,
                    ) && out@[b]@[1]@ == self.spec_anticipation(
                        oracle_index as int,
                        b as u32,
                        true,
                    ),
            decreases bits - bit,
        {
            let pair = [
                self.anticipate_at_index(oracle_index, bit, false),
                self.anticipate_at_index(oracle_index, bit, true),
            ];
            out.push(pair);
            bit += 1;
        }
        out
    }

    /// The anticipated attestation of one oracle to one value of one bit.
    pub fn anticipate_at_index(
        &self,
        oracle_index: usize,
        outcome_bit_index: u32,
        outcome_bit_value: bool,
    ) -> (r: GtPoint)
        requires
            oracle_index < self.oracle_keys@.len(),
        ensures
            r@ == self.spec_anticipation(oracle_index as int, outcome_bit_index, outcome_bit_value),
            forall|secret_key: nat| #[trigger]
                g1_is_multiple(
                    self.oracle_keys@[oracle_index as int]@,
                    g1_generator_repr(),
                    secret_key,
                ) ==> r@ == gt_scale(
                    pairing_of(
                        g1_generator_repr(),
                        hash_to_g2(
                            event_message(self.event_id@, outcome_bit_index, outcome_bit_value),
                            dst_tag(),
                        ),
                    ),
                    secret_key,
                ),
    {
        let message = message_for_event_index(
            self.event_id.as_str(),
            outcome_bit_index,
            outcome_bit_value,
        );
        GtPoint::pairing(&self.oracle_keys[oracle_index], &message)
    }

    /// Whether `sig` is the oracle's signature on the event message for the
    /// given bit: its pairing with the generator of `G1` is the anticipated
    /// attestation. It is, where the oracle's key is the image of a secret
    /// key and `sig` is that key times the message's element of `G2`.
    pub fn verify_bls_sig(
        &self,
        oracle_index: usize,
        outcome_bit_index: u32,
        outcome_bit_value: bool,
        sig: G2Point,
    ) -> (r: bool)
        requires
            oracle_index < self.oracle_keys@.len(),
        ensures
            r == (pairing_of(g1_generator_repr(), sig@) == self.spec_anticipation(
                oracle_index as int,
                outcome_bit_index,
                outcome_bit_value,
            )),
            forall|secret_key: nat|
                #[trigger] g1_is_multiple(
                    self.oracle_keys@[oracle_index as int]@,
                    g1_generator_repr(),
                    secret_key,
                ) && sig@ == g2_scale(
                    hash_to_g2(
                        event_message(self.event_id@, outcome_bit_index, outcome_bit_value),
                        dst_tag(),
                    ),
                    secret_key,
                ) ==> r,
    {
        let gt = GtPoint::pairing(&G1Point::generator(), &sig);
        let expected = self.anticipate_at_index(oracle_index, outcome_bit_index, outcome_bit_value);
        proof {
            assert forall|secret_key: nat|
                #[trigger] g1_is_multiple(
                    self.oracle_keys@[oracle_index as int]@,
                    g1_generator_repr(),
                    secret_key,
                ) && sig@ == g2_scale(
                    hash_to_g2(
                        event_message(self.event_id@, outcome_bit_index, outcome_bit_value),
                        dst_tag(),
                    ),
                    secret_key,
                ) implies gt@ == expected@ by {
                assert(g2_is_multiple(
                    sig@,
                    hash_to_g2(
                        event_message(self.event_id@, outcome_bit_index, outcome_bit_value),
                        dst_tag(),
                    ),
                    secret_key,
                ));
            }
        }
        gt.eq(&expected)
    }

    /// Picks an element of `GT` at random and ties it to `ri`: returns the
    /// element and the pad.
    #[allow(non_snake_case)]
    pub fn map_Zq_to_Gt(&self, ri: &ChainScalar) -> (r: (GtPoint, [u8; 32]))
        ensures
            r.1@ == pad_for(r.0@, ri@),
            exists|g: Seq<u8>| r.0@ == #[trigger] pairing_of(g, g2_generator_repr()),
    {
        let gt_elem = GtPoint::pairing(&G1Point::random(), &G2Point::generator());
        let pad = pad_of(&gt_elem, ri);
        (gt_elem, pad)
    }
}

/// The pad that ties `m` to `ri`.
pub fn pad_of(m: &GtPoint, ri: &ChainScalar) -> (r: [u8; 32])
    ensures
        r@ == pad_for(m@, ri@),
{
    let encoded = m.to_bytes();
    let digest = sha256(encoded.as_slice());
    let ri_bytes = ri.to_bytes();
    proof {
        lemma_be_bytes_of_be_nat(ri_bytes@);
    }
    xor32(&digest, &ri_bytes)
}

/// The scalar that `pad` ties to `ri_mapped`.
#[allow(non_snake_case)]
pub fn map_Gt_to_Zq(ri_mapped: &GtPoint, pad: [u8; 32]) -> (r: ChainScalar)
    ensures
        r@ == unmask(ri_mapped@, pad@),
{
    let encoded = ri_mapped.to_bytes();
    let digest = sha256(encoded.as_slice());
    let ri_bytes = xor32(&digest, &pad);
    ChainScalar::from_bytes_mod_order(ri_bytes)
}

/// Appends the decimal digits of `n`.
fn push_decimal(buf: &mut Vec<u8>, n: u32)
    ensures
        final(buf)@ == old(buf)@ + decimal(n as nat),
    decreases n,
{
    if n < 10 {
        buf.push(48 + n as u8);
        assert(buf@ =~= old(buf)@ + decimal(n as nat));
    } else {
        push_decimal(buf, n / 10);
        buf.push(48 + (n % 10) as u8);
        assert(buf@ =~= old(buf)@ + decimal(n as nat));
    }
}

/// The element of `G2` that an oracle signs to attest to one value of one
/// bit of the outcome.
pub fn message_for_event_index(
    event_id: &str,
    outcome_bit_index: u32,
    outcome_bit_value: bool,
) -> (r: G2Point)
    ensures
        r@ == hash_to_g2(event_message(event_id@, outcome_bit_index, outcome_bit_value), dst_tag()),
{
    let mut message: Vec<u8> = Vec::new();
    append_bytes(&mut message, event_id.as_bytes());
    message.push(47u8);
    push_decimal(&mut message, outcome_bit_index);
    message.push(47u8);
    if outcome_bit_value {
        append_bytes(&mut message, "true".as_bytes());
    } else {
        append_bytes(&mut message, "false".as_bytes());
    }
    assert(message@ =~= event_message(event_id@, outcome_bit_index, outcome_bit_value));
    G2Point::hash_to_curve(message.as_slice(), "dlc-message".as_bytes())
}

/// The `bit_length` low bits of `num`, lowest first.
pub fn to_bits(num: u32, bit_length: usize) -> (r: Vec<bool>)
    ensures
        r@.len() == bit_length,
        forall|i: int| 0 <= i < bit_length ==> r@[i] == bit_of(num as nat, i as nat),
{
    let mut bits: Vec<bool> = Vec::new();
    let mut rest = num;
    let mut i: usize = 0;
    proof {
        vstd::arithmetic::power2::lemma2_to64();
    }
    while i < bit_length
        invariant
            i <= bit_length,
            bits@.len() == i,
            rest as nat == num as nat / pow2(i as nat),
            forall|k: int| 0 <= k < i ==> bits@[k] == bit_of(num as nat, k as nat),
        decreases bit_length - i,
    {
        bits.push(rest % 2 == 1);
        proof {
            lemma_pow2_unfold((i + 1) as nat);
            vstd::arithmetic::power2::lemma_pow2_pos(i as nat);
            vstd::arithmetic::div_mod::lemma_div_denominator(
                num as int,
                pow2(i as nat) as int,
                2,
            );
            assert(pow2(i as nat) * 2 == pow2((i + 1) as nat));
        }
        rest = rest / 2;
        i += 1;
    }
    bits
}

/// The sizes that parameters give stay within the machine's: at most
/// `255 * 32 * 65535` closed commitments, and at most twice as many in all.
pub proof fn lemma_sizes(params: &Params)
    requires
        params.wf(),
    ensures
        params.spec_n_outcome_bits() <= 16,
        params.n_outcomes <= pow2(params.spec_n_outcome_bits()),
        params.spec_nb() <= 255 * 32 * 0xFFFF,
        params.spec_nb() <= params.spec_m() <= 2 * params.spec_nb(),
        params.spec_m() <= usize::MAX,
        params.spec_num_openings() + params.spec_nb() == params.spec_m(),
{
    lemma_ceil_log2(params.n_outcomes as nat);
    let b = params.bucket_size as int;
    let n = params.spec_n_anticipations_per_oracle() as int;
    let o = params.oracle_keys@.len() as int;
    let bits = params.spec_n_outcome_bits() as int;
    let per_bit = params.spec_n_anticipations_per_bit() as int;
    assert(n <= 32) by (nonlinear_arith)
        requires
            n == bits * per_bit,
            0 <= bits <= 16,
            1 <= per_bit <= 2,
    ;
    assert(0 <= b * n <= 255 * 32) by (nonlinear_arith)
        requires
            0 <= b <= 255,
            0 <= n <= 32,
    ;
    assert(0 <= b * n * o <= 255 * 32 * 0xFFFF) by (nonlinear_arith)
        requires
            0 <= b * n <= 255 * 32,
            0 <= o <= 0xFFFF,
    ;
    let nb = params.spec_nb() as int;
    let pm = params.closed_per_mille as int;
    let m = (nb * 1000 + pm - 1) / pm;
    assert(nb <= m <= 2 * nb) by (nonlinear_arith)
        requires
            500 <= pm <= 1000,
            0 <= nb,
            m == (nb * 1000 + pm - 1) / pm,
    ;
}

/// For a number of at most 32 bits, `ceil_log2(n)` is the least `k` with
/// `2^k >= n`; for at most `2^16`, it is at most 16.
pub proof fn lemma_ceil_log2(n: nat)
    requires
        n <= 0xFFFF_FFFF,
    ensures
        pow2(ceil_log2(n)) >= n,
        ceil_log2(n) == 0 || pow2((ceil_log2(n) - 1) as nat) < n,
        ceil_log2(n) <= 32,
        n <= 0x1_0000 ==> ceil_log2(n) <= 16,
{
    vstd::arithmetic::power2::lemma2_to64();
    lemma_ceil_log2_from(n, 0);
    let k = ceil_log2(n);
    if n <= 0x1_0000 && k > 17 {
        lemma_pow2_strictly_increases(16, (k - 1) as nat);
    }
}

/// The search from `from` ends at the least `k` with `2^k >= n`, where no
/// smaller `k` than `from` has it.
proof fn lemma_ceil_log2_from(n: nat, from: nat)
    requires
        n <= 0xFFFF_FFFF,
        from <= 32,
        from == 0 || pow2((from - 1) as nat) < n,
    ensures
        from <= ceil_log2_from(n, from) <= 32,
        pow2(ceil_log2_from(n, from)) >= n,
        ceil_log2_from(n, from) == 0 || pow2((ceil_log2_from(n, from) - 1) as nat) < n,
    decreases 32 - from,
{
    vstd::arithmetic::power2::lemma2_to64();
    if from >= 32 || pow2(from) >= n {
    } else {
        lemma_ceil_log2_from(n, from + 1);
    }
}

/// The mask round trip: the scalar that a pad ties to `m` is the scalar that
/// the pad was made from.
pub proof fn lemma_unmask_pad(m: Seq<u8>, r: nat)
    requires
        r < chain_order(),
    ensures
        unmask(m, pad_for(m, r)) == r,
{
    lemma_xor_twice(sha256_of(m), be_bytes(r, 32));
    assert(chain_order() < pow256(32)) by {
        reveal_with_fuel(pow256, 33);
    }
    lemma_be_nat_of_be_bytes(r, 32);
}

} // verus!
