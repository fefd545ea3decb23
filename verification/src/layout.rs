//! Where the commitments go: which of them are opened, which bucket position
//! each of the others fills, and which oracle, bit and bit value a bucket
//! position belongs to.
//!
//! Positions are laid out oracle by oracle; within an oracle bit by bit;
//! within a bit first the bucket for the value `false`, then the one for
//! `true`; within a bucket replica by replica.

use std::collections::BTreeSet;
use vstd::arithmetic::div_mod::lemma_multiply_divide_lt;
use vstd::prelude::*;

verus! {

/// Of the indices below `m`, those that are not in `openings`, in rising order.
pub open spec fn kept_indices(m: nat, openings: Set<usize>) -> Seq<usize>
    decreases m,
{
    if m == 0 {
        Seq::empty()
    } else {
        let rest = kept_indices((m - 1) as nat, openings);
        if openings.contains((m - 1) as usize) {
            rest
        } else {
            rest.push((m - 1) as usize)
        }
    }
}

/// Of the indices below `m`, those that are in `openings`, in rising order.
pub open spec fn opened_indices(m: nat, openings: Set<usize>) -> Seq<usize>
    decreases m,
{
    if m == 0 {
        Seq::empty()
    } else {
        let rest = opened_indices((m - 1) as nat, openings);
        if openings.contains((m - 1) as usize) {
            rest.push((m - 1) as usize)
        } else {
            rest
        }
    }
}

/// Whether `mapping` is a permutation of the numbers below `n`.
pub open spec fn is_permutation(mapping: Seq<usize>, n: nat) -> bool {
    &&& mapping.len() == n
    &&& forall|i: int| 0 <= i < mapping.len() ==> mapping[i] < n
    &&& mapping.no_duplicates()
}

/// The oracle that bucket position `i` belongs to.
pub open spec fn slot_oracle(i: nat, bits: nat, bucket_size: nat) -> nat {
    i / (2 * bucket_size * bits)
}

/// The bit of the outcome that bucket position `i` belongs to.
pub open spec fn slot_bit(i: nat, bits: nat, bucket_size: nat) -> nat {
    (i % (2 * bucket_size * bits)) / (2 * bucket_size)
}

/// The value of the bit that bucket position `i` belongs to: `0` or `1`.
pub open spec fn slot_value(i: nat, bucket_size: nat) -> nat {
    (i % (2 * bucket_size)) / bucket_size
}

/// The first position of the bucket of an oracle, a bit and a bit value.
pub open spec fn bucket_start(oracle: nat, bit: nat, value: nat, bits: nat, bucket_size: nat) -> nat {
    ((oracle * bits + bit) * 2 + value) * bucket_size
}

/// The indices below `m` that are in `openings`, and those that are not,
/// each in rising order.
pub fn split_by_openings(m: usize, openings: &BTreeSet<usize>) -> (r: (Vec<usize>, Vec<usize>))
    ensures
        r.0@ == kept_indices(m as nat, openings@),
        r.1@ == opened_indices(m as nat, openings@),
{
    let mut kept: Vec<usize> = Vec::new();
    let mut opened: Vec<usize> = Vec::new();
    let mut i: usize = 0;
    while i < m
        invariant
            i <= m,
            kept@ == kept_indices(i as nat, openings@),
            opened@ == opened_indices(i as nat, openings@),
        decreases m - i,
    {
        if openings.contains(&i) {
            opened.push(i);
        } else {
            kept.push(i);
        }
        i += 1;
    }
    (kept, opened)
}

/// The oracle, the bit and the bit value that bucket position `i` belongs to.
pub fn slot(i: usize, bits: u32, bucket_size: u8) -> (r: (usize, u32, usize))
    requires
        bits >= 1,
        bucket_size >= 1,
        bits <= 32,
    ensures
        r.0 == slot_oracle(i as nat, bits as nat, bucket_size as nat),
        r.1 == slot_bit(i as nat, bits as nat, bucket_size as nat),
        r.2 == slot_value(i as nat, bucket_size as nat),
        r.1 < bits,
        r.2 < 2,
{
    let b = bucket_size as usize;
    let pair = 2 * b;
    assert(pair * (bits as usize) <= 510 * 32 && pair * (bits as usize) >= 1) by (nonlinear_arith)
        requires
            1 <= pair <= 510,
            1 <= bits <= 32,
    ;
    let window = pair * (bits as usize);
    let within = i % window;
    proof {
        lemma_multiply_divide_lt(within as int, pair as int, bits as int);
        lemma_multiply_divide_lt((i % pair) as int, b as int, 2);
    }
    (i / window, (within / pair) as u32, (i % pair) / b)
}

/// A position below `2 * bucket_size * bits * n_oracles` belongs to an
/// oracle below `n_oracles`.
pub proof fn lemma_slot_oracle_bound(i: nat, bits: nat, bucket_size: nat, n_oracles: nat)
    requires
        bits >= 1,
        bucket_size >= 1,
        i < 2 * bucket_size * bits * n_oracles,
    ensures
        slot_oracle(i, bits, bucket_size) < n_oracles,
{
    let window = 2 * bucket_size * bits;
    assert(window >= 1) by (nonlinear_arith)
        requires
            window == 2 * bucket_size * bits,
            bits >= 1,
            bucket_size >= 1,
    ;
    lemma_multiply_divide_lt(i as int, window as int, n_oracles as int);
}

/// The kept indices are below `m`, are not in `openings`, and rise.
pub proof fn lemma_kept_indices(m: nat, openings: Set<usize>)
    requires
        m <= usize::MAX,
    ensures
        forall|k: int|
            0 <= k < kept_indices(m, openings).len() ==> (#[trigger] kept_indices(m, openings)[k])
                < m && !openings.contains(kept_indices(m, openings)[k]),
        forall|k: int, l: int|
            0 <= k < l < kept_indices(m, openings).len() ==> kept_indices(m, openings)[k]
                < kept_indices(m, openings)[l],
        kept_indices(m, openings).len() <= m,
    decreases m,
{
    if m > 0 {
        lemma_kept_indices((m - 1) as nat, openings);
    }
}

/// The opened indices are below `m`, are in `openings`, and rise.
pub proof fn lemma_opened_indices(m: nat, openings: Set<usize>)
    requires
        m <= usize::MAX,
    ensures
        forall|k: int|
            0 <= k < opened_indices(m, openings).len() ==> (#[trigger] opened_indices(
                m,
                openings,
            )[k]) < m && openings.contains(opened_indices(m, openings)[k]),
        forall|k: int, l: int|
            0 <= k < l < opened_indices(m, openings).len() ==> opened_indices(m, openings)[k]
                < opened_indices(m, openings)[l],
        opened_indices(m, openings).len() + kept_indices(m, openings).len() == m,
    decreases m,
{
    if m > 0 {
        lemma_opened_indices((m - 1) as nat, openings);
    }
}

/// Where the bucket mapping is a permutation of the kept commitments' places,
/// every bucket position gets a commitment that is not opened, and no two
/// positions get the same one.
pub proof fn lemma_bucket_assignment(m: nat, openings: Set<usize>, mapping: Seq<usize>)
    requires
        m <= usize::MAX,
        is_permutation(mapping, kept_indices(m, openings).len()),
    ensures
        forall|i: int|
            0 <= i < mapping.len() ==> kept_indices(m, openings)[#[trigger] mapping[i] as int] < m
                && !openings.contains(kept_indices(m, openings)[mapping[i] as int]),
        forall|i: int, j: int|
            0 <= i < j < mapping.len() ==> kept_indices(m, openings)[#[trigger] mapping[i] as int]
                != kept_indices(m, openings)[#[trigger] mapping[j] as int],
{
    let kept = kept_indices(m, openings);
    lemma_kept_indices(m, openings);
    assert forall|i: int, j: int| 0 <= i < j < mapping.len() implies kept[#[trigger] mapping[i] as int]
        != kept[#[trigger] mapping[j] as int] by {
        let a = mapping[i] as int;
        let b = mapping[j] as int;
        assert(a != b);
        if a < b {
            assert(kept[a] < kept[b]);
        } else {
            assert(kept[b] < kept[a]);
        }
    }
}

/// The positions of a bucket belong to the bucket's oracle, bit and value:
/// what the dealer puts at a position for an oracle, a bit and a value, the
/// receiver finds in the bucket of these.
pub proof fn lemma_slot_of_bucket(
    oracle: nat,
    bit: nat,
    value: nat,
    replica: nat,
    bits: nat,
    bucket_size: nat,
)
    requires
        bit < bits,
        value < 2,
        replica < bucket_size,
    ensures
        slot_oracle(bucket_start(oracle, bit, value, bits, bucket_size) + replica, bits, bucket_size)
            == oracle,
        slot_bit(bucket_start(oracle, bit, value, bits, bucket_size) + replica, bits, bucket_size)
            == bit,
        slot_value(bucket_start(oracle, bit, value, bits, bucket_size) + replica, bucket_size)
            == value,
{
    let i = (bucket_start(oracle, bit, value, bits, bucket_size) + replica) as int;
    let size = bucket_size as int;
    let pair = 2 * size;
    let window = 2 * size * (bits as int);
    let in_pair = value * size + replica;
    let in_window = bit * pair + in_pair;
    assert(0 <= in_pair < pair && i == (oracle * bits + bit) * pair + in_pair) by (nonlinear_arith)
        requires
            i == ((oracle * bits + bit) * 2 + value) * size + replica,
            pair == 2 * size,
            in_pair == value * size + replica,
            value < 2,
            replica < size,
    ;
    assert(0 <= in_window < window && i == oracle * window + in_window) by (nonlinear_arith)
        requires
            i == (oracle * bits + bit) * pair + in_pair,
            in_window == bit * pair + in_pair,
            window == 2 * size * (bits as int),
            pair == 2 * size,
            0 <= in_pair < pair,
            bit < bits,
    ;
    vstd::arithmetic::div_mod::lemma_fundamental_div_mod_converse(
        i,
        window,
        oracle as int,
        in_window,
    );
    vstd::arithmetic::div_mod::lemma_fundamental_div_mod_converse(
        in_window,
        pair,
        bit as int,
        in_pair,
    );
    vstd::arithmetic::div_mod::lemma_fundamental_div_mod_converse(
        i,
        pair,
        (oracle * bits + bit) as int,
        in_pair,
    );
    vstd::arithmetic::div_mod::lemma_fundamental_div_mod_converse(
        in_pair,
        size,
        value as int,
        replica as int,
    );
}

/// A position belongs to a bit below `bits` and to the value 0 or 1.
pub proof fn lemma_slot_bounds(i: nat, bits: nat, bucket_size: nat)
    requires
        bits >= 1,
        bucket_size >= 1,
    ensures
        slot_bit(i, bits, bucket_size) < bits,
        slot_value(i, bucket_size) < 2,
{
    let pair = 2 * bucket_size;
    let window = 2 * bucket_size * bits;
    assert(window == pair * bits && window >= 1) by (nonlinear_arith)
        requires
            window == 2 * bucket_size * bits,
            pair == 2 * bucket_size,
            bits >= 1,
            bucket_size >= 1,
    ;
    lemma_multiply_divide_lt((i % window) as int, pair as int, bits as int);
    lemma_multiply_divide_lt((i % pair) as int, bucket_size as int, 2);
}

/// Where every member of a finite set is below `m`, the opened indices are
/// as many as the set has members.
pub proof fn lemma_opened_all(m: nat, openings: Set<usize>)
    requires
        m <= usize::MAX,
        openings.finite(),
        forall|x: usize| openings.contains(x) ==> x < m,
    ensures
        opened_indices(m, openings).len() == openings.len(),
{
    let opened = opened_indices(m, openings);
    lemma_opened_indices(m, openings);
    assert(opened.no_duplicates());
    opened.unique_seq_to_set();
    assert(opened.to_set() =~= openings) by {
        assert forall|x: usize| openings.contains(x) implies opened.to_set().contains(x) by {
            lemma_opened_holds(m, openings, x);
        }
        assert forall|x: usize| opened.to_set().contains(x) implies openings.contains(x) by {
            let k = choose|k: int| 0 <= k < opened.len() && opened[k] == x;
            assert(openings.contains(opened[k]));
        }
    }
}

/// A member of `openings` below `m` is among the opened indices.
proof fn lemma_opened_holds(m: nat, openings: Set<usize>, x: usize)
    requires
        openings.contains(x),
        x < m,
    ensures
        opened_indices(m, openings).contains(x),
    decreases m,
{
    if m > 0 {
        let rest = opened_indices((m - 1) as nat, openings);
        if x == m - 1 {
            assert(opened_indices(m, openings) == rest.push(x));
            assert(rest.push(x)[rest.len() as int] == x);
        } else {
            lemma_opened_holds((m - 1) as nat, openings, x);
            let k = choose|k: int| 0 <= k < rest.len() && rest[k] == x;
            if openings.contains((m - 1) as usize) {
                assert(rest.push((m - 1) as usize)[k] == x);
            }
        }
    }
}

} // verus!
