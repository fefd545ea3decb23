//! The pad tree: each oracle has, for each bit of the outcome, two pad
//! scalars, one for each value of the bit. The pad of an outcome is the sum
//! of the pads that its bits select. The leaves of the tree are the pads of
//! all outcomes, in the order of the outcomes.

use crate::chain::{
    base_scale, chain_order, fadd, fsub, is_multiple_of_base, point_sum, ChainPoint, ChainScalar,
};
use crate::common::bit_of;
use vstd::arithmetic::power2::{lemma_pow2_unfold, pow2};
use vstd::prelude::*;

verus! {

/// The pad of `outcome`: the sum over the bits `k` of the outcome of the pad
/// `pads[k][b]`, where `b` is the value of bit `k`.
pub open spec fn pad_sum(pads: Seq<[ChainScalar; 2]>, outcome: nat) -> nat
    decreases pads.len(),
{
    if pads.len() == 0 {
        0
    } else {
        fadd(pads[0]@[(outcome % 2) as int]@, pad_sum(pads.skip(1), outcome / 2))
    }
}

/// The image of the pad of `outcome`, from the images of the pads: the sum
/// over the bits `k` of the outcome of `images[k][b]`, where `b` is the value
/// of bit `k`.
pub open spec fn pad_image_sum(images: Seq<[ChainPoint; 2]>, outcome: nat) -> Option<Seq<u8>>
    decreases images.len(),
{
    if images.len() == 0 {
        None
    } else {
        point_sum(images[0]@[(outcome % 2) as int]@, pad_image_sum(images.skip(1), outcome / 2))
    }
}

/// Whether each pad image is the image of the pad at its place.
pub open spec fn images_of_pads(images: Seq<[ChainPoint; 2]>, pads: Seq<[ChainScalar; 2]>) -> bool {
    &&& images.len() == pads.len()
    &&& forall|b: int, v: int|
        0 <= b < images.len() && 0 <= v < 2 ==> (#[trigger] images[b]@[v])@ == base_scale(
            pads[b]@[v]@,
        )
}

/// The pads of all `2^k` outcomes that `k` bits can tell apart: the leaf at
/// index `outcome` is the sum of the pads that the bits of `outcome` select,
/// whether the bits are taken from the lowest up or the sum is split at the
/// lowest bit.
pub fn compute_pads(pads: &[[ChainScalar; 2]]) -> (r: Vec<ChainScalar>)
    requires
        pads@.len() <= 16,
    ensures
        r@.len() == pow2(pads@.len()),
        forall|outcome: int|
            0 <= outcome < r@.len() ==> (#[trigger] r@[outcome])@ == pad_sum(pads@, outcome as nat),
        forall|outcome: int|
            0 <= outcome < r@.len() ==> (#[trigger] r@[outcome])@ == selected_sum(
                pads@,
                outcome as nat,
                pads@.len(),
            ),
{
    let mut leaves: Vec<ChainScalar> = Vec::new();
    leaves.push(ChainScalar::zero());
    let mut j: usize = pads.len();
    proof {
        vstd::arithmetic::power2::lemma2_to64();
        assert(pads@.skip(j as int).len() == 0);
    }
    while j > 0
        invariant
            j <= pads@.len() <= 16,
            leaves@.len() == pow2((pads@.len() - j) as nat),
            leaves@.len() <= 0x1_0000,
            forall|outcome: int|
                0 <= outcome < leaves@.len() ==> (#[trigger] leaves@[outcome])@ == pad_sum(
                    pads@.skip(j as int),
                    outcome as nat,
                ),
        decreases j,
    {
        j -= 1;
        let ghost rest = pads@.skip(j as int + 1);
        let ghost here = pads@.skip(j as int);
        proof {
            assert(here.skip(1) =~= rest);
            lemma_pow2_unfold((pads@.len() - j) as nat);
            vstd::arithmetic::power2::lemma2_to64();
            if pads@.len() - j < 16 {
                vstd::arithmetic::power2::lemma_pow2_strictly_increases(
                    (pads@.len() - j) as nat,
                    16,
                );
            }
        }
        let mut next: Vec<ChainScalar> = Vec::new();
        let mut outcome: usize = 0;
        let n = 2 * leaves.len();
        while outcome < n
            invariant
                outcome <= n,
                n == 2 * leaves@.len(),
                j < pads@.len(),
                here == pads@.skip(j as int),
                rest == here.skip(1),
                next@.len() == outcome,
                forall|o: int|
                    0 <= o < leaves@.len() ==> (#[trigger] leaves@[o])@ == pad_sum(rest, o as nat),
                forall|o: int|
                    0 <= o < outcome ==> (#[trigger] next@[o])@ == pad_sum(here, o as nat),
            decreases n - outcome,
        {
            let leaf = pads[j][outcome % 2].add(&leaves[outcome / 2]);
            next.push(leaf);
            outcome += 1;
        }
        leaves = next;
    }
    proof {
        assert(pads@.skip(0) =~= pads@);
        assert forall|outcome: int| 0 <= outcome < leaves@.len() implies (
        #[trigger] leaves@[outcome])@ == selected_sum(pads@, outcome as nat, pads@.len()) by {
            lemma_pad_sum_is_selected_sum(pads@, outcome as nat);
        }
    }
    leaves
}

/// The leaves of a tree with one bit more, below the bit with the pad images
/// `pair`: the leaf at index `o` is the leaf at `o / 2` plus the image that
/// the lowest bit of `o` selects.
#[verifier::rlimit(50)]
fn extend_leaf_images(pair: &[ChainPoint; 2], leaves: &Vec<ChainPoint>) -> (r: Vec<ChainPoint>)
    requires
        leaves@.len() <= 0x8000,
    ensures
        r@.len() == 2 * leaves@.len(),
        forall|o: int|
            0 <= o < r@.len() ==> (#[trigger] r@[o])@ == point_sum(pair@[o % 2]@, leaves@[o / 2]@),
        forall|o: int, a: nat, b: nat|
            0 <= o < r@.len() && #[trigger] is_multiple_of_base(pair@[o % 2]@, a)
                && #[trigger] is_multiple_of_base(leaves@[o / 2]@, b) ==> r@[o]@ == base_scale(
                fadd(a, b),
            ),
{
    let mut next: Vec<ChainPoint> = Vec::new();
    let mut o: usize = 0;
    let n = 2 * leaves.len();
    while o < n
        invariant
            o <= n,
            n == 2 * leaves@.len(),
            next@.len() == o,
            forall|l: int|
                0 <= l < o ==> (#[trigger] next@[l])@ == point_sum(
                    pair@[l % 2]@,
                    leaves@[l / 2]@,
                ),
            forall|l: int, a: nat, b: nat|
                0 <= l < o && #[trigger] is_multiple_of_base(pair@[l % 2]@, a)
                    && #[trigger] is_multiple_of_base(leaves@[l / 2]@, b) ==> next@[l]@
                    == base_scale(fadd(a, b)),
        decreases n - o,
    {
        let leaf = pair[o % 2].add(&leaves[o / 2]);
        next.push(leaf);
        o += 1;
    }
    next
}

/// The images of the pads of all `2^k` outcomes that `k` bits can tell
/// apart, from the images of the pads: the leaf at index `outcome` is the sum
/// of the images that the bits of `outcome` select. Where the images are
/// those of pad scalars, each leaf is the image of the outcome's pad.
#[verifier::rlimit(50)]
pub fn compute_pad_images(pads: &[[ChainPoint; 2]]) -> (r: Vec<ChainPoint>)
    requires
        pads@.len() <= 16,
    ensures
        r@.len() == pow2(pads@.len()),
        forall|outcome: int|
            0 <= outcome < r@.len() ==> (#[trigger] r@[outcome])@ == pad_image_sum(
                pads@,
                outcome as nat,
            ),
        forall|scalars: Seq<[ChainScalar; 2]>, outcome: int|
            #[trigger] images_of_pads(pads@, scalars) && 0 <= outcome < r@.len() ==> (
            #[trigger] r@[outcome])@ == base_scale(pad_sum(scalars, outcome as nat)),
{
    let mut leaves: Vec<ChainPoint> = Vec::new();
    leaves.push(ChainPoint::zero());
    let mut j: usize = pads.len();
    proof {
        vstd::arithmetic::power2::lemma2_to64();
        assert(pads@.skip(j as int).len() == 0);
        assert forall|scalars: Seq<[ChainScalar; 2]>, outcome: int|
            #[trigger] images_of_pads(pads@, scalars) && 0 <= outcome < leaves@.len() implies (
        #[trigger] leaves@[outcome])@ == base_scale(
            pad_sum(scalars.skip(j as int), outcome as nat),
        ) by {
            assert(scalars.skip(j as int).len() == 0);
        }
    }
    while j > 0
        invariant
            j <= pads@.len() <= 16,
            leaves@.len() == pow2((pads@.len() - j) as nat),
            leaves@.len() <= 0x1_0000,
            forall|outcome: int|
                0 <= outcome < leaves@.len() ==> (#[trigger] leaves@[outcome])@ == pad_image_sum(
                    pads@.skip(j as int),
                    outcome as nat,
                ),
            forall|scalars: Seq<[ChainScalar; 2]>, outcome: int|
                #[trigger] images_of_pads(pads@, scalars) && 0 <= outcome < leaves@.len() ==> (
                #[trigger] leaves@[outcome])@ == base_scale(
                    pad_sum(scalars.skip(j as int), outcome as nat),
                ),
        decreases j,
    {
        j -= 1;
        proof {
            lemma_pow2_unfold((pads@.len() - j) as nat);
            vstd::arithmetic::power2::lemma2_to64();
            if pads@.len() - j < 16 {
                vstd::arithmetic::power2::lemma_pow2_strictly_increases(
                    (pads@.len() - j) as nat,
                    16,
                );
            }
        }
        let next = extend_leaf_images(&pads[j], &leaves);
        proof {
            let here = pads@.skip(j as int);
            assert(here.skip(1) =~= pads@.skip(j as int + 1));
            assert forall|outcome: int| 0 <= outcome < next@.len() implies (
            #[trigger] next@[outcome])@ == pad_image_sum(here, outcome as nat) by {
                assert(leaves@[outcome / 2]@ == pad_image_sum(
                    pads@.skip(j as int + 1),
                    (outcome / 2) as nat,
                ));
            }
            assert forall|scalars: Seq<[ChainScalar; 2]>, outcome: int|
                #[trigger] images_of_pads(pads@, scalars) && 0 <= outcome < next@.len() implies (
            #[trigger] next@[outcome])@ == base_scale(
                pad_sum(scalars.skip(j as int), outcome as nat),
            ) by {
                let below = pad_sum(scalars.skip(j as int + 1), (outcome / 2) as nat);
                let first = scalars[j as int]@[outcome % 2]@;
                assert(is_multiple_of_base(leaves@[outcome / 2]@, below));
                assert(is_multiple_of_base(pads@[j as int]@[outcome % 2]@, first));
                assert(scalars.skip(j as int).skip(1) =~= scalars.skip(j as int + 1));
                assert(scalars.skip(j as int)[0] == scalars[j as int]);
                assert(next@[outcome]@ == base_scale(fadd(first, below)));
            }
        }
        leaves = next;
    }
    proof {
        assert(pads@.skip(0) =~= pads@);
        assert forall|scalars: Seq<[ChainScalar; 2]>, outcome: int|
            #[trigger] images_of_pads(pads@, scalars) && 0 <= outcome < leaves@.len() implies (
        #[trigger] leaves@[outcome])@ == base_scale(pad_sum(scalars, outcome as nat)) by {
            assert(scalars.skip(0) =~= scalars);
        }
    }
    leaves
}

/// Taking a pad off again gives back what it was put on: for scalars
/// `pad` and `value`, `(pad + value) - pad` is `value`.
pub proof fn lemma_pad_comes_off(pad: nat, value: nat)
    requires
        pad < chain_order(),
        value < chain_order(),
    ensures
        fsub(fadd(pad, value), pad) == value,
        fsub(fadd(value, pad), pad) == value,
{
    let q = chain_order() as int;
    let sum = pad + value;
    if sum < q {
        assert(fadd(pad, value) == sum);
        assert(((sum + q) - pad) % q == value) by {
            vstd::arithmetic::div_mod::lemma_mod_add_multiples_vanish(value as int, q);
            assert(value as int % q == value);
        }
    } else {
        assert(fadd(pad, value) == sum - q) by {
            vstd::arithmetic::div_mod::lemma_mod_sub_multiples_vanish(sum as int, q);
            assert((sum - q) % q == sum - q);
        }
        assert((((sum - q) + q) - pad) % q == value);
    }
}

/// The place in a pair of pads that bit `bit` of `outcome` selects.
pub open spec fn selected(outcome: nat, bit: nat) -> int {
    if bit_of(outcome, bit) {
        1
    } else {
        0
    }
}

/// The sum of the pads that the bits below `upto` of `outcome` select, taken
/// bit by bit from the lowest.
pub open spec fn selected_sum(pads: Seq<[ChainScalar; 2]>, outcome: nat, upto: nat) -> nat
    decreases upto,
{
    if upto == 0 {
        0
    } else {
        fadd(
            selected_sum(pads, outcome, (upto - 1) as nat),
            pads[upto - 1]@[selected(outcome, (upto - 1) as nat)]@,
        )
    }
}

/// Addition in the scalar field is associative.
pub proof fn lemma_fadd_is_associative(a: nat, b: nat, c: nat)
    ensures
        fadd(fadd(a, b), c) == fadd(a, fadd(b, c)),
{
    let q = chain_order() as int;
    vstd::arithmetic::div_mod::lemma_add_mod_noop_right(c as int, (a + b) as int, q);
    vstd::arithmetic::div_mod::lemma_add_mod_noop_right(a as int, (b + c) as int, q);
}

/// Bit `bit + 1` of a number is bit `bit` of its half, and bit 0 is its
/// remainder by two.
pub proof fn lemma_bit_of_half(outcome: nat, bit: nat)
    ensures
        bit_of(outcome, bit + 1) == bit_of(outcome / 2, bit),
        selected(outcome, 0) == outcome % 2,
{
    vstd::arithmetic::power2::lemma2_to64();
    lemma_pow2_unfold(bit + 1);
    vstd::arithmetic::power2::lemma_pow2_pos(bit);
    vstd::arithmetic::div_mod::lemma_div_denominator(outcome as int, 2, pow2(bit) as int);
    assert(2 * pow2(bit) == pow2(bit + 1));
}

/// The sum over the bits below `upto`, with the lowest bit taken out in front.
proof fn lemma_selected_sum_front(pads: Seq<[ChainScalar; 2]>, outcome: nat, upto: nat)
    requires
        1 <= upto <= pads.len(),
    ensures
        selected_sum(pads, outcome, upto) == fadd(
            pads[0]@[(outcome % 2) as int]@,
            selected_sum(pads.skip(1), outcome / 2, (upto - 1) as nat),
        ),
    decreases upto,
{
    let first = pads[0]@[(outcome % 2) as int]@;
    lemma_bit_of_half(outcome, 0);
    if upto == 1 {
        assert(selected_sum(pads, outcome, 0) == 0);
        assert(selected_sum(pads.skip(1), outcome / 2, 0) == 0);
    } else {
        lemma_selected_sum_front(pads, outcome, (upto - 1) as nat);
        lemma_bit_of_half(outcome, (upto - 2) as nat);
        let rest = selected_sum(pads.skip(1), outcome / 2, (upto - 2) as nat);
        let last = pads[upto - 1]@[selected(outcome, (upto - 1) as nat)]@;
        assert(pads.skip(1)[upto - 2] == pads[upto - 1]);
        lemma_fadd_is_associative(first, rest, last);
    }
}

/// The pad of an outcome is the sum of the pads that its bits select, taken
/// bit by bit.
pub proof fn lemma_pad_sum_is_selected_sum(pads: Seq<[ChainScalar; 2]>, outcome: nat)
    ensures
        pad_sum(pads, outcome) == selected_sum(pads, outcome, pads.len()),
    decreases pads.len(),
{
    if pads.len() > 0 {
        lemma_pad_sum_is_selected_sum(pads.skip(1), outcome / 2);
        lemma_selected_sum_front(pads, outcome, pads.len());
    }
}

} // verus!
