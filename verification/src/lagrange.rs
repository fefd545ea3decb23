//! Lagrange's formula at zero, over the integers modulo a number `q`: the
//! nodes `xs` are integers, and `invs[j]` is an inverse modulo `q` of the
//! product of the differences between node `j` and the other nodes.

use vstd::arithmetic::div_mod::{
    lemma_add_mod_noop, lemma_mod_equivalence, lemma_mul_mod_noop_general, lemma_mul_mod_noop_right,
    lemma_sub_mod_noop,
};
use vstd::prelude::*;

verus! {

/// `x` to the power `k`.
pub open spec fn pow_int(x: int, k: nat) -> int
    decreases k,
{
    if k == 0 {
        1
    } else {
        pow_int(x, (k - 1) as nat) * x
    }
}

/// The product of the nodes below `upto` other than node `j`.
pub open spec fn num_int(xs: Seq<int>, j: int, upto: nat) -> int
    decreases upto,
{
    if upto == 0 {
        1
    } else if upto - 1 == j {
        num_int(xs, j, (upto - 1) as nat)
    } else {
        num_int(xs, j, (upto - 1) as nat) * xs[upto - 1]
    }
}

/// The product of the differences between the nodes below `upto` other than
/// node `j` and node `j`.
pub open spec fn den_int(xs: Seq<int>, j: int, upto: nat) -> int
    decreases upto,
{
    if upto == 0 {
        1
    } else if upto - 1 == j {
        den_int(xs, j, (upto - 1) as nat)
    } else {
        den_int(xs, j, (upto - 1) as nat) * (xs[upto - 1] - xs[j])
    }
}

/// Whether each `invs[j]` is an inverse modulo `q` of the product of the
/// differences for node `j`.
pub open spec fn valid_inverses(xs: Seq<int>, invs: Seq<int>, q: int) -> bool {
    &&& invs.len() == xs.len()
    &&& forall|j: int|
        0 <= j < xs.len() ==> (#[trigger] invs[j] * den_int(xs, j, xs.len())) % q == 1
}

/// The value at zero of the basis polynomial of node `j`, up to congruence
/// modulo `q`.
pub open spec fn basis(xs: Seq<int>, invs: Seq<int>, j: int) -> int {
    num_int(xs, j, xs.len()) * invs[j]
}

/// The sum over the nodes `j` below `upto` of `xs[j]^k` times the basis value
/// of node `j`.
pub open spec fn moment(xs: Seq<int>, invs: Seq<int>, k: nat, upto: nat) -> int
    decreases upto,
{
    if upto == 0 {
        0
    } else {
        moment(xs, invs, k, (upto - 1) as nat) + pow_int(xs[upto - 1], k) * basis(
            xs,
            invs,
            upto - 1,
        )
    }
}

/// The inverses for the nodes without the last: each is the inverse for the
/// node times the difference between the last node and the node.
pub open spec fn inverses_without_last(xs: Seq<int>, invs: Seq<int>) -> Seq<int> {
    Seq::new((xs.len() - 1) as nat, |j: int| invs[j] * (xs.last() - xs[j]))
}

/// The inverses for the nodes without the first.
pub open spec fn inverses_without_first(xs: Seq<int>, invs: Seq<int>) -> Seq<int> {
    Seq::new((xs.len() - 1) as nat, |j: int| invs[j + 1] * (xs[0] - xs[j + 1]))
}

/// The products over the nodes below `upto` are those over a prefix that
/// holds these nodes.
proof fn lemma_prefix(xs: Seq<int>, ys: Seq<int>, j: int, upto: nat)
    requires
        upto <= xs.len(),
        upto <= ys.len(),
        0 <= j < ys.len(),
        j < xs.len(),
        xs[j] == ys[j],
        forall|m: int| 0 <= m < upto ==> xs[m] == ys[m],
    ensures
        num_int(xs, j, upto) == num_int(ys, j, upto),
        den_int(xs, j, upto) == den_int(ys, j, upto),
    decreases upto,
{
    if upto > 0 {
        lemma_prefix(xs, ys, j, (upto - 1) as nat);
    }
}

/// With the last node left out, the products for another node lose the
/// factor that the last node gave.
pub proof fn lemma_products_without_last(xs: Seq<int>, j: int)
    requires
        xs.len() >= 1,
        0 <= j < xs.len() - 1,
    ensures
        num_int(xs, j, xs.len()) == num_int(xs.drop_last(), j, (xs.len() - 1) as nat) * xs.last(),
        den_int(xs, j, xs.len()) == den_int(xs.drop_last(), j, (xs.len() - 1) as nat) * (xs.last()
            - xs[j]),
{
    lemma_prefix(xs, xs.drop_last(), j, (xs.len() - 1) as nat);
}

/// With the first node left out, the products for another node lose the
/// factor that the first node gave.
pub proof fn lemma_products_without_first(xs: Seq<int>, j: int, upto: nat)
    requires
        1 <= upto <= xs.len(),
        1 <= j < xs.len(),
    ensures
        num_int(xs, j, upto) == xs[0] * num_int(xs.skip(1), j - 1, (upto - 1) as nat),
        den_int(xs, j, upto) == (xs[0] - xs[j]) * den_int(xs.skip(1), j - 1, (upto - 1) as nat),
    decreases upto,
{
    let rest = xs.skip(1);
    if upto == 1 {
        assert(num_int(xs, j, 0) == 1);
        assert(den_int(xs, j, 0) == 1);
        assert(num_int(rest, j - 1, 0) == 1);
        assert(den_int(rest, j - 1, 0) == 1);
    } else {
        lemma_products_without_first(xs, j, (upto - 1) as nat);
        assert(rest[upto - 2] == xs[upto - 1]);
        assert(rest[j - 1] == xs[j]);
        let n0 = num_int(rest, j - 1, (upto - 2) as nat);
        let d0 = den_int(rest, j - 1, (upto - 2) as nat);
        if upto - 1 != j {
            assert((xs[0] * n0) * xs[upto - 1] == xs[0] * (n0 * xs[upto - 1])) by (nonlinear_arith);
            assert(((xs[0] - xs[j]) * d0) * (xs[upto - 1] - xs[j]) == (xs[0] - xs[j]) * (d0 * (
            xs[upto - 1] - xs[j]))) by (nonlinear_arith);
        }
    }
}

/// The sum over the nodes `j` below `upto` of `xs[j]^k * (a - xs[j])` times
/// the basis value of node `j`.
pub open spec fn weighted(xs: Seq<int>, invs: Seq<int>, k: nat, a: int, upto: nat) -> int
    decreases upto,
{
    if upto == 0 {
        0
    } else {
        weighted(xs, invs, k, a, (upto - 1) as nat) + pow_int(xs[upto - 1], k) * (a - xs[upto
            - 1]) * basis(xs, invs, upto - 1)
    }
}

/// The weighted sum is `a` times the moment of degree `k` less the moment of
/// degree `k + 1`.
proof fn lemma_weighted_splits(xs: Seq<int>, invs: Seq<int>, k: nat, a: int, upto: nat)
    requires
        upto <= xs.len(),
    ensures
        weighted(xs, invs, k, a, upto) == a * moment(xs, invs, k, upto) - moment(
            xs,
            invs,
            k + 1,
            upto,
        ),
    decreases upto,
{
    if upto > 0 {
        lemma_weighted_splits(xs, invs, k, a, (upto - 1) as nat);
        let x = xs[upto - 1];
        let p = pow_int(x, k);
        let l = basis(xs, invs, upto - 1);
        let m0 = moment(xs, invs, k, (upto - 1) as nat);
        let m1 = moment(xs, invs, k + 1, (upto - 1) as nat);
        assert(pow_int(x, k + 1) == p * x);
        assert(p * (a - x) * l == a * (p * l) - (p * x) * l) by (nonlinear_arith);
        assert(a * (m0 + p * l) == a * m0 + a * (p * l)) by (nonlinear_arith);
    }
}

/// With the last node left out, the inverses are valid for the other nodes,
/// and the moments of the nodes are tied to those of the other nodes.
pub proof fn lemma_without_last(xs: Seq<int>, invs: Seq<int>, q: int, k: nat)
    requires
        xs.len() >= 1,
        q > 1,
        valid_inverses(xs, invs, q),
    ensures
        valid_inverses(xs.drop_last(), inverses_without_last(xs, invs), q),
        moment(xs, invs, k + 1, xs.len()) == xs.last() * (moment(xs, invs, k, xs.len()) - moment(
            xs.drop_last(),
            inverses_without_last(xs, invs),
            k,
            (xs.len() - 1) as nat,
        )),
{
    let n = xs.len();
    let rest = xs.drop_last();
    let invs_rest = inverses_without_last(xs, invs);
    let a = xs.last();
    assert forall|j: int| 0 <= j < rest.len() implies (#[trigger] invs_rest[j] * den_int(
        rest,
        j,
        rest.len(),
    )) % q == 1 by {
        lemma_products_without_last(xs, j);
        let d = den_int(rest, j, rest.len());
        assert((invs[j] * (a - xs[j])) * d == invs[j] * (d * (a - xs[j]))) by (nonlinear_arith);
        assert(invs_rest[j] * d == invs[j] * den_int(xs, j, n));
    }
    lemma_weighted_without_last(xs, invs, k, (n - 1) as nat);
    lemma_weighted_splits(xs, invs, k, a, n);
    let top = pow_int(xs[n - 1], k) * (a - xs[n - 1]) * basis(xs, invs, n - 1);
    assert(top == 0) by (nonlinear_arith)
        requires
            top == pow_int(xs[n - 1], k) * (a - xs[n - 1]) * basis(xs, invs, n - 1),
            a == xs[n - 1],
    ;
    let m0 = moment(xs, invs, k, n);
    let m1 = moment(rest, invs_rest, k, (n - 1) as nat);
    assert(a * m0 - a * m1 == a * (m0 - m1)) by (nonlinear_arith);
}

/// Below the last node, the weighted sum for the last node is the last node
/// times the moment of the other nodes.
proof fn lemma_weighted_without_last(xs: Seq<int>, invs: Seq<int>, k: nat, upto: nat)
    requires
        xs.len() >= 1,
        upto <= xs.len() - 1,
    ensures
        weighted(xs, invs, k, xs.last(), upto) == xs.last() * moment(
            xs.drop_last(),
            inverses_without_last(xs, invs),
            k,
            upto,
        ),
    decreases upto,
{
    if upto > 0 {
        lemma_weighted_without_last(xs, invs, k, (upto - 1) as nat);
        let j = upto - 1;
        let a = xs.last();
        let rest = xs.drop_last();
        let invs_rest = inverses_without_last(xs, invs);
        lemma_products_without_last(xs, j);
        let p = pow_int(xs[j], k);
        let n0 = num_int(rest, j, rest.len());
        assert(rest[j] == xs[j]);
        assert(basis(rest, invs_rest, j) == n0 * (invs[j] * (a - xs[j])));
        assert(basis(xs, invs, j) == (n0 * a) * invs[j]);
        assert(p * (a - xs[j]) * ((n0 * a) * invs[j]) == a * (p * (n0 * (invs[j] * (a - xs[j])))))
            by (nonlinear_arith);
        let m = moment(rest, invs_rest, k, (upto - 1) as nat);
        let t = p * basis(rest, invs_rest, j);
        assert(a * (m + t) == a * m + a * t) by (nonlinear_arith);
    }
}

/// With the first node left out, the inverses are valid for the other nodes,
/// and the moments of the nodes are tied to those of the other nodes.
pub proof fn lemma_without_first(xs: Seq<int>, invs: Seq<int>, q: int, k: nat)
    requires
        xs.len() >= 1,
        q > 1,
        valid_inverses(xs, invs, q),
    ensures
        valid_inverses(xs.skip(1), inverses_without_first(xs, invs), q),
        moment(xs, invs, k + 1, xs.len()) == xs[0] * (moment(xs, invs, k, xs.len()) - moment(
            xs.skip(1),
            inverses_without_first(xs, invs),
            k,
            (xs.len() - 1) as nat,
        )),
{
    let n = xs.len();
    let rest = xs.skip(1);
    let invs_rest = inverses_without_first(xs, invs);
    let a = xs[0];
    assert forall|j: int| 0 <= j < rest.len() implies (#[trigger] invs_rest[j] * den_int(
        rest,
        j,
        rest.len(),
    )) % q == 1 by {
        lemma_products_without_first(xs, j + 1, n);
        let d = den_int(rest, j, rest.len());
        assert((invs[j + 1] * (a - xs[j + 1])) * d == invs[j + 1] * ((a - xs[j + 1]) * d))
            by (nonlinear_arith);
        assert(invs_rest[j] * d == invs[j + 1] * den_int(xs, j + 1, n));
    }
    lemma_weighted_without_first(xs, invs, k, n);
    lemma_weighted_splits(xs, invs, k, a, n);
    let m0 = moment(xs, invs, k, n);
    let m1 = moment(rest, invs_rest, k, (n - 1) as nat);
    assert(a * m0 - a * m1 == a * (m0 - m1)) by (nonlinear_arith);
}

/// From the first node on, the weighted sum for the first node is the first
/// node times the moment of the other nodes.
proof fn lemma_weighted_without_first(xs: Seq<int>, invs: Seq<int>, k: nat, upto: nat)
    requires
        1 <= upto <= xs.len(),
    ensures
        weighted(xs, invs, k, xs[0], upto) == xs[0] * moment(
            xs.skip(1),
            inverses_without_first(xs, invs),
            k,
            (upto - 1) as nat,
        ),
    decreases upto,
{
    let a = xs[0];
    let rest = xs.skip(1);
    let invs_rest = inverses_without_first(xs, invs);
    if upto == 1 {
        assert(weighted(xs, invs, k, a, 0) == 0);
        let top = pow_int(xs[0], k) * (a - xs[0]) * basis(xs, invs, 0);
        assert(top == 0) by (nonlinear_arith)
            requires
                top == pow_int(xs[0], k) * (a - xs[0]) * basis(xs, invs, 0),
                a == xs[0],
        ;
        assert(moment(rest, invs_rest, k, 0) == 0);
    } else {
        lemma_weighted_without_first(xs, invs, k, (upto - 1) as nat);
        let j = upto - 1;
        lemma_products_without_first(xs, j, xs.len());
        let p = pow_int(xs[j], k);
        let n0 = num_int(rest, j - 1, rest.len());
        assert(rest[j - 1] == xs[j]);
        assert(basis(rest, invs_rest, j - 1) == n0 * (invs[j] * (a - xs[j])));
        assert(basis(xs, invs, j) == (a * n0) * invs[j]);
        assert(p * (a - xs[j]) * ((a * n0) * invs[j]) == a * (p * (n0 * (invs[j] * (a - xs[j])))))
            by (nonlinear_arith);
        let m = moment(rest, invs_rest, k, (upto - 2) as nat);
        let t = p * basis(rest, invs_rest, j - 1);
        assert(a * (m + t) == a * m + a * t) by (nonlinear_arith);
    }
}

/// A multiple of a number that is zero modulo `q` is zero modulo `q`.
proof fn lemma_multiple_of_zero(c: int, t: int, q: int)
    requires
        q > 1,
        t % q == 0,
    ensures
        (c * t) % q == 0,
{
    lemma_mul_mod_noop_right(c, t, q);
    assert(c * (t % q) == 0) by (nonlinear_arith)
        requires
            t % q == 0,
    ;
    vstd::arithmetic::div_mod::lemma_small_mod(0, q as nat);
}

/// The moment of degree zero is one and the moments of the degrees from one
/// up to the number of the nodes are zero, modulo `q`.
pub proof fn lemma_moments(xs: Seq<int>, invs: Seq<int>, q: int, k: nat)
    requires
        q > 1,
        xs.len() >= 1,
        k < xs.len(),
        valid_inverses(xs, invs, q),
    ensures
        moment(xs, invs, k, xs.len()) % q == if k == 0 {
            1int
        } else {
            0int
        },
    decreases xs.len(), k,
{
    let n = xs.len();
    if n == 1 {
        assert(moment(xs, invs, 0, 0) == 0);
        assert(num_int(xs, 0, 0) == 1);
        assert(den_int(xs, 0, 0) == 1);
        assert(num_int(xs, 0, 1) == 1);
        assert(den_int(xs, 0, 1) == 1);
        assert(pow_int(xs[0], 0) == 1);
        assert(basis(xs, invs, 0) == invs[0]) by (nonlinear_arith)
            requires
                basis(xs, invs, 0) == 1 * invs[0],
        ;
        assert(invs[0] * den_int(xs, 0, 1) == invs[0]) by (nonlinear_arith)
            requires
                den_int(xs, 0, 1) == 1,
        ;
        assert(moment(xs, invs, 0, 1) == invs[0]) by (nonlinear_arith)
            requires
                moment(xs, invs, 0, 1) == 0 + 1 * basis(xs, invs, 0),
                basis(xs, invs, 0) == invs[0],
        ;
    } else if k == 0 {
        let last = xs.last();
        let first = xs[0];
        let others = xs.drop_last();
        let invs_others = inverses_without_last(xs, invs);
        let tail = xs.skip(1);
        let invs_tail = inverses_without_first(xs, invs);
        lemma_without_last(xs, invs, q, 0);
        lemma_without_first(xs, invs, q, 0);
        lemma_moments(others, invs_others, q, 0);
        lemma_moments(tail, invs_tail, q, 0);
        let m0 = moment(xs, invs, 0, n);
        let a = moment(others, invs_others, 0, (n - 1) as nat);
        let b = moment(tail, invs_tail, 0, (n - 1) as nat);
        // last * (m0 - a) == first * (m0 - b)
        assert((last - first) * (m0 - 1) == last * (a - 1) - first * (b - 1)) by (nonlinear_arith)
            requires
                last * (m0 - a) == first * (m0 - b),
        ;
        lemma_mod_equivalence(a, 1, q);
        lemma_mod_equivalence(b, 1, q);
        vstd::arithmetic::div_mod::lemma_small_mod(1, q as nat);
        vstd::arithmetic::div_mod::lemma_small_mod(0, q as nat);
        lemma_multiple_of_zero(last, a - 1, q);
        lemma_multiple_of_zero(first, b - 1, q);
        lemma_sub_mod_noop(last * (a - 1), first * (b - 1), q);
        let z = (last - first) * (m0 - 1);
        assert(z % q == 0);
        // an inverse of (last - first)
        lemma_products_without_last(xs, 0);
        let e = invs[0] * den_int(others, 0, (n - 1) as nat);
        assert(e * (last - first) == invs[0] * den_int(xs, 0, n)) by (nonlinear_arith)
            requires
                e == invs[0] * den_int(others, 0, (n - 1) as nat),
                den_int(xs, 0, n) == den_int(others, 0, (n - 1) as nat) * (last - first),
        ;
        assert((e * (last - first)) % q == 1);
        lemma_multiple_of_zero(e, z, q);
        assert(e * z == (e * (last - first)) * (m0 - 1)) by (nonlinear_arith)
            requires
                z == (last - first) * (m0 - 1),
        ;
        lemma_mul_mod_noop_general(e * (last - first), m0 - 1, q);
        assert(((e * (last - first)) % q) * (m0 - 1) == m0 - 1) by (nonlinear_arith)
            requires
                (e * (last - first)) % q == 1,
        ;
        assert((m0 - 1) % q == 0);
        lemma_mod_equivalence(m0, 1, q);
    } else {
        let last = xs.last();
        let others = xs.drop_last();
        let invs_others = inverses_without_last(xs, invs);
        let below = (k - 1) as nat;
        lemma_without_last(xs, invs, q, below);
        lemma_moments(xs, invs, q, below);
        lemma_moments(others, invs_others, q, below);
        let m = moment(xs, invs, below, n);
        let a = moment(others, invs_others, below, (n - 1) as nat);
        lemma_mod_equivalence(m, a, q);
        lemma_multiple_of_zero(last, m - a, q);
    }
}

/// The value at `x` of the polynomial with the coefficients `f`, constant
/// term first.
pub open spec fn poly_int(f: Seq<int>, x: int) -> int
    decreases f.len(),
{
    if f.len() == 0 {
        0
    } else {
        poly_int(f.drop_last(), x) + f.last() * pow_int(x, (f.len() - 1) as nat)
    }
}

/// The sum over the nodes `j` below `upto` of the basis value of node `j`
/// times the value of the polynomial `f` at the node.
pub open spec fn combined(xs: Seq<int>, invs: Seq<int>, f: Seq<int>, upto: nat) -> int
    decreases upto,
{
    if upto == 0 {
        0
    } else {
        combined(xs, invs, f, (upto - 1) as nat) + basis(xs, invs, upto - 1) * poly_int(
            f,
            xs[upto - 1],
        )
    }
}

/// With one coefficient more, the combined sum grows by the coefficient times
/// the moment of its degree.
proof fn lemma_combined_grows(xs: Seq<int>, invs: Seq<int>, f: Seq<int>, upto: nat)
    requires
        f.len() >= 1,
        upto <= xs.len(),
    ensures
        combined(xs, invs, f, upto) == combined(xs, invs, f.drop_last(), upto) + f.last() * moment(
            xs,
            invs,
            (f.len() - 1) as nat,
            upto,
        ),
    decreases upto,
{
    if upto > 0 {
        lemma_combined_grows(xs, invs, f, (upto - 1) as nat);
        let k = (f.len() - 1) as nat;
        let x = xs[upto - 1];
        let l = basis(xs, invs, upto - 1);
        let c = f.last();
        let p = pow_int(x, k);
        let below = poly_int(f.drop_last(), x);
        let m = moment(xs, invs, k, (upto - 1) as nat);
        assert(l * (below + c * p) == l * below + c * (p * l)) by (nonlinear_arith);
        assert(c * (m + p * l) == c * m + c * (p * l)) by (nonlinear_arith);
    }
}

/// The combined sum of a polynomial with no more coefficients than there are
/// nodes is the polynomial's constant term, modulo `q`.
pub proof fn lemma_combined_is_constant_term(xs: Seq<int>, invs: Seq<int>, f: Seq<int>, q: int)
    requires
        q > 1,
        1 <= f.len() <= xs.len(),
        valid_inverses(xs, invs, q),
    ensures
        combined(xs, invs, f, xs.len()) % q == f[0] % q,
    decreases f.len(),
{
    let n = xs.len();
    let k = (f.len() - 1) as nat;
    lemma_combined_grows(xs, invs, f, n);
    lemma_moments(xs, invs, q, k);
    let m = moment(xs, invs, k, n);
    let c = f.last();
    if k == 0 {
        lemma_combined_of_none(xs, invs, f.drop_last(), n);
        lemma_mul_mod_noop_right(c, m, q);
        assert(c * 1 == c) by (nonlinear_arith);
    } else {
        lemma_combined_is_constant_term(xs, invs, f.drop_last(), q);
        lemma_multiple_of_zero(c, m, q);
        lemma_add_mod_noop(combined(xs, invs, f.drop_last(), n), c * m, q);
        vstd::arithmetic::div_mod::lemma_mod_twice(f[0], q);
        assert(f.drop_last()[0] == f[0]);
        let a = combined(xs, invs, f.drop_last(), n);
        assert((a % q + 0) % q == a % q) by {
            vstd::arithmetic::div_mod::lemma_mod_twice(a, q);
        }
    }
}

/// The combined sum of the polynomial without coefficients is zero.
proof fn lemma_combined_of_none(xs: Seq<int>, invs: Seq<int>, f: Seq<int>, upto: nat)
    requires
        f.len() == 0,
        upto <= xs.len(),
    ensures
        combined(xs, invs, f, upto) == 0,
    decreases upto,
{
    if upto > 0 {
        lemma_combined_of_none(xs, invs, f, (upto - 1) as nat);
        assert(basis(xs, invs, upto - 1) * 0 == 0) by (nonlinear_arith);
    }
}

} // verus!
