//! Putting a secret together from shares: the value at zero of the
//! polynomial of least degree through the shares, by Lagrange's formula in
//! the scalar field.

use crate::chain::{chain_order, fadd, finv, fmul, fsub, ChainScalar};
use crate::lagrange::{
    basis, combined, den_int, lemma_combined_is_constant_term, num_int, poly_int, pow_int,
};
use crate::poly::{poly_eval, pow_mod};
use vstd::arithmetic::div_mod::{
    lemma_add_mod_noop, lemma_fundamental_div_mod, lemma_mod_multiples_vanish, lemma_mod_twice,
    lemma_mul_mod_noop_general,
};
use vstd::prelude::*;

verus! {

/// The product of the `xs[m]` with `m < upto` that differ from `xs[j]`.
pub open spec fn lagrange_num(xs: Seq<nat>, j: int, upto: nat) -> nat
    decreases upto,
{
    if upto == 0 {
        1
    } else {
        let prev = lagrange_num(xs, j, (upto - 1) as nat);
        if xs[upto - 1] == xs[j] {
            prev
        } else {
            fmul(prev, xs[upto - 1])
        }
    }
}

/// The product of the `xs[m] - xs[j]` for the `m < upto` with `xs[m]` other
/// than `xs[j]`.
pub open spec fn lagrange_den(xs: Seq<nat>, j: int, upto: nat) -> nat
    decreases upto,
{
    if upto == 0 {
        1
    } else {
        let prev = lagrange_den(xs, j, (upto - 1) as nat);
        if xs[upto - 1] == xs[j] {
            prev
        } else {
            fmul(prev, fsub(xs[upto - 1], xs[j]))
        }
    }
}

/// The coefficient of share `j` in the value at zero: the product of
/// `xs[m] / (xs[m] - xs[j])` over the other shares `m`.
pub open spec fn lagrange_coeff(xs: Seq<nat>, j: int) -> nat {
    fmul(lagrange_num(xs, j, xs.len()), finv(lagrange_den(xs, j, xs.len())))
}

/// The sum over the shares `j < upto` of `lagrange_coeff(xs, j) * ys[j]`.
pub open spec fn interpolate_upto(xs: Seq<nat>, ys: Seq<nat>, upto: nat) -> nat
    decreases upto,
{
    if upto == 0 {
        0
    } else {
        fadd(
            interpolate_upto(xs, ys, (upto - 1) as nat),
            fmul(lagrange_coeff(xs, upto - 1), ys[upto - 1]),
        )
    }
}

/// The value at zero of the polynomial of least degree that takes the value
/// `ys[j]` at `xs[j]` for every `j`.
pub open spec fn interpolate_at_zero(xs: Seq<nat>, ys: Seq<nat>) -> nat {
    interpolate_upto(xs, ys, xs.len())
}

/// The places of the shares.
pub open spec fn share_xs(shares: Seq<(u32, ChainScalar)>) -> Seq<nat> {
    Seq::new(shares.len(), |i: int| shares[i].0 as nat)
}

/// The values of the shares.
pub open spec fn share_ys(shares: Seq<(u32, ChainScalar)>) -> Seq<nat> {
    Seq::new(shares.len(), |i: int| shares[i].1@)
}

/// The difference of two distinct numbers of 32 bits is not zero in the
/// scalar field.
pub proof fn lemma_small_difference(a: nat, b: nat)
    requires
        a != b,
        a <= 0xFFFF_FFFF,
        b <= 0xFFFF_FFFF,
    ensures
        fsub(a, b) != 0,
{
    let q = chain_order();
    assert(b % q == b);
    if a > b {
        assert(((a + q) - b) as nat % q == (a - b) as nat) by {
            vstd::arithmetic::div_mod::lemma_mod_add_multiples_vanish((a - b) as int, q as int);
            assert((a - b) as nat % q == (a - b) as nat);
        }
    } else {
        assert(((a + q) - b) as nat % q == ((a + q) - b) as nat);
    }
}

/// The coefficient of share `j` among the first `n` shares.
fn coefficient(shares: &Vec<(u32, ChainScalar)>, n: usize, j: usize) -> (r: ChainScalar)
    requires
        j < n <= shares@.len(),
    ensures
        r@ == lagrange_coeff(share_xs(shares@.take(n as int)), j as int),
        fmul(
            finv(lagrange_den(share_xs(shares@.take(n as int)), j as int, n as nat)),
            lagrange_den(share_xs(shares@.take(n as int)), j as int, n as nat),
        ) == 1,
{
    let ghost xs = share_xs(shares@.take(n as int));
    let x_j = ChainScalar::from_u32(shares[j].0);
    let mut num = ChainScalar::from_u32(1);
    let mut den = ChainScalar::from_u32(1);
    let mut m: usize = 0;
    while m < n
        invariant
            m <= n,
            j < n <= shares@.len(),
            xs == share_xs(shares@.take(n as int)),
            x_j@ == xs[j as int],
            num@ == lagrange_num(xs, j as int, m as nat),
            den@ == lagrange_den(xs, j as int, m as nat),
            den@ != 0,
        decreases n - m,
    {
        if shares[m].0 != shares[j].0 {
            let x_m = ChainScalar::from_u32(shares[m].0);
            num = num.mul(&x_m);
            let difference = x_m.sub(&x_j);
            proof {
                lemma_small_difference(x_m@, x_j@);
            }
            den = den.mul(&difference);
        }
        m += 1;
    }
    let inverse = den.invert().unwrap();
    num.mul(&inverse)
}

/// The secret that the first `n` shares give: the value at zero of the
/// polynomial through them. Where the shares are the values at distinct
/// places of a polynomial with no more coefficients than there are shares, the
/// secret is the polynomial's constant term.
pub fn interpolate(shares: &Vec<(u32, ChainScalar)>, n: usize) -> (r: ChainScalar)
    requires
        n <= shares@.len(),
    ensures
        r@ == interpolate_at_zero(
            share_xs(shares@.take(n as int)),
            share_ys(shares@.take(n as int)),
        ),
        forall|f: Seq<nat>| #[trigger]
            are_values_of(
                share_xs(shares@.take(n as int)),
                share_ys(shares@.take(n as int)),
                f,
            ) ==> r@ == f[0] % chain_order(),
{
    let ghost xs = share_xs(shares@.take(n as int));
    let ghost ys = share_ys(shares@.take(n as int));
    let mut secret = ChainScalar::zero();
    let mut j: usize = 0;
    while j < n
        invariant
            j <= n <= shares@.len(),
            xs == share_xs(shares@.take(n as int)),
            ys == share_ys(shares@.take(n as int)),
            secret@ == interpolate_upto(xs, ys, j as nat),
            forall|i: int|
                0 <= i < j ==> fmul(
                    finv(#[trigger] lagrange_den(xs, i, xs.len())),
                    lagrange_den(xs, i, xs.len()),
                ) == 1,
        decreases n - j,
    {
        let lagrange = coefficient(shares, n, j);
        secret = secret.add(&lagrange.mul(&shares[j].1));
        j += 1;
    }
    proof {
        assert forall|f: Seq<nat>| #[trigger] are_values_of(xs, ys, f) implies secret@ == f[0]
            % chain_order() by {
            lemma_interpolation(xs, ys, f);
        }
    }
    secret
}

/// Whether the `ys` are the values at the distinct places `xs` of the
/// polynomial with the coefficients `f`, which are no more than the places.
pub open spec fn are_values_of(xs: Seq<nat>, ys: Seq<nat>, f: Seq<nat>) -> bool {
    &&& xs.no_duplicates()
    &&& ys.len() == xs.len()
    &&& 1 <= f.len() <= xs.len()
    &&& forall|j: int| 0 <= j < xs.len() ==> ys[j] == poly_eval(f, #[trigger] xs[j])
}

/// The numbers of a sequence as integers.
pub open spec fn as_ints(s: Seq<nat>) -> Seq<int> {
    Seq::new(s.len(), |i: int| s[i] as int)
}

/// For each node, the inverse in the scalar field of the product of the
/// differences between the node and the other nodes.
pub open spec fn difference_inverses(xs: Seq<nat>) -> Seq<int> {
    Seq::new(xs.len(), |j: int| finv(lagrange_den(xs, j, xs.len())) as int)
}

/// Whether the inverses that the formula uses are inverses.
pub open spec fn inverses_hold(xs: Seq<nat>) -> bool {
    forall|j: int|
        0 <= j < xs.len() ==> fmul(
            finv(#[trigger] lagrange_den(xs, j, xs.len())),
            lagrange_den(xs, j, xs.len()),
        ) == 1
}

/// Products of congruent numbers are congruent.
proof fn lemma_congruent_products(a: int, b: int, c: int, d: int, q: int)
    requires
        q > 0,
        a % q == b % q,
        c % q == d % q,
    ensures
        (a * c) % q == (b * d) % q,
{
    lemma_mul_mod_noop_general(a, c, q);
    lemma_mul_mod_noop_general(b, d, q);
}

/// Sums of congruent numbers are congruent.
proof fn lemma_congruent_sums(a: int, b: int, c: int, d: int, q: int)
    requires
        q > 0,
        a % q == b % q,
        c % q == d % q,
    ensures
        (a + c) % q == (b + d) % q,
{
    lemma_add_mod_noop(a, c, q);
    lemma_add_mod_noop(b, d, q);
}

/// Subtraction in the scalar field is subtraction modulo the order.
proof fn lemma_fsub_is_difference(a: nat, b: nat)
    ensures
        (fsub(a, b) as int) % (chain_order() as int) == (a - b) % (chain_order() as int),
{
    let q = chain_order() as int;
    let s = (a + q) - (b as int) % q;
    lemma_fundamental_div_mod(b as int, q);
    assert(s == q * (1 + (b as int) / q) + (a - b)) by (nonlinear_arith)
        requires
            s == (a + q) - (b as int) % q,
            b as int == q * ((b as int) / q) + (b as int) % q,
    ;
    lemma_mod_multiples_vanish(1 + (b as int) / q, a - b, q);
    lemma_mod_twice(s, q);
}

/// The products of the formula are those over the integers, modulo the
/// order.
proof fn lemma_products_agree(xs: Seq<nat>, j: int, upto: nat)
    requires
        xs.no_duplicates(),
        0 <= j < xs.len(),
        upto <= xs.len(),
    ensures
        (lagrange_num(xs, j, upto) as int) % (chain_order() as int) == num_int(
            as_ints(xs),
            j,
            upto,
        ) % (chain_order() as int),
        (lagrange_den(xs, j, upto) as int) % (chain_order() as int) == den_int(
            as_ints(xs),
            j,
            upto,
        ) % (chain_order() as int),
    decreases upto,
{
    let q = chain_order() as int;
    let ints = as_ints(xs);
    if upto > 0 {
        lemma_products_agree(xs, j, (upto - 1) as nat);
        let m = upto - 1;
        if m != j {
            assert(xs[m] != xs[j]);
            let n0 = lagrange_num(xs, j, m as nat) as int;
            let d0 = lagrange_den(xs, j, m as nat) as int;
            let x = xs[m] as int;
            let diff = fsub(xs[m], xs[j]) as int;
            lemma_fsub_is_difference(xs[m], xs[j]);
            lemma_congruent_products(n0, num_int(ints, j, m as nat), x, x, q);
            lemma_congruent_products(d0, den_int(ints, j, m as nat), diff, x - xs[j], q);
            lemma_mod_twice(n0 * x, q);
            lemma_mod_twice(d0 * diff, q);
        }
    }
}

/// Powers in the scalar field are powers over the integers, modulo the order.
proof fn lemma_powers_agree(x: nat, k: nat)
    ensures
        (pow_mod(x, k) as int) % (chain_order() as int) == pow_int(x as int, k) % (
        chain_order() as int),
    decreases k,
{
    let q = chain_order() as int;
    if k > 0 {
        lemma_powers_agree(x, (k - 1) as nat);
        let p = pow_mod(x, (k - 1) as nat) as int;
        lemma_congruent_products(p, pow_int(x as int, (k - 1) as nat), x as int, x as int, q);
        lemma_mod_twice(p * x, q);
    }
}

/// The value of a polynomial in the scalar field is its value over the
/// integers, modulo the order.
proof fn lemma_values_agree(f: Seq<nat>, x: nat)
    ensures
        (poly_eval(f, x) as int) % (chain_order() as int) == poly_int(as_ints(f), x as int) % (
        chain_order() as int),
    decreases f.len(),
{
    let q = chain_order() as int;
    if f.len() > 0 {
        let k = (f.len() - 1) as nat;
        lemma_values_agree(f.drop_last(), x);
        lemma_powers_agree(x, k);
        assert(as_ints(f).drop_last() =~= as_ints(f.drop_last()));
        let p = pow_mod(x, k) as int;
        let c = f.last() as int;
        let below = poly_eval(f.drop_last(), x) as int;
        // the term: fmul(pow, c)
        lemma_congruent_products(p, pow_int(x as int, k), c, c, q);
        lemma_mod_twice(p * c, q);
        let term = fmul(pow_mod(x, k), f.last()) as int;
        assert(pow_int(x as int, k) * c == c * pow_int(x as int, k)) by (nonlinear_arith);
        lemma_congruent_sums(
            below,
            poly_int(as_ints(f.drop_last()), x as int),
            term,
            c * pow_int(x as int, k),
            q,
        );
        lemma_mod_twice(below + term, q);
    }
}

/// The sum of the formula is the combined sum over the integers, modulo the
/// order, where the values are those of the polynomial `f` at the nodes.
proof fn lemma_sums_agree(xs: Seq<nat>, ys: Seq<nat>, f: Seq<nat>, upto: nat)
    requires
        xs.no_duplicates(),
        ys.len() == xs.len(),
        upto <= xs.len(),
        forall|j: int| 0 <= j < xs.len() ==> ys[j] == poly_eval(f, #[trigger] xs[j]),
    ensures
        (interpolate_upto(xs, ys, upto) as int) % (chain_order() as int) == combined(
            as_ints(xs),
            difference_inverses(xs),
            as_ints(f),
            upto,
        ) % (chain_order() as int),
    decreases upto,
{
    let q = chain_order() as int;
    let ints = as_ints(xs);
    let invs = difference_inverses(xs);
    if upto > 0 {
        let j = upto - 1;
        lemma_sums_agree(xs, ys, f, j as nat);
        lemma_products_agree(xs, j, xs.len());
        lemma_values_agree(f, xs[j]);
        let num = lagrange_num(xs, j, xs.len()) as int;
        let inv = invs[j];
        let coeff = lagrange_coeff(xs, j) as int;
        let y = ys[j] as int;
        let value = poly_int(as_ints(f), xs[j] as int);
        // coeff = (num * inv) % q, congruent to the basis value
        lemma_congruent_products(num, num_int(ints, j, xs.len()), inv, inv, q);
        lemma_mod_twice(num * inv, q);
        assert(coeff % q == basis(ints, invs, j) % q);
        // term = (coeff * y) % q
        lemma_congruent_products(coeff, basis(ints, invs, j), y, value, q);
        lemma_mod_twice(coeff * y, q);
        let term = fmul(lagrange_coeff(xs, j), ys[j]) as int;
        let below = interpolate_upto(xs, ys, j as nat) as int;
        lemma_congruent_sums(
            below,
            combined(ints, invs, as_ints(f), j as nat),
            term,
            basis(ints, invs, j) * value,
            q,
        );
        lemma_mod_twice(below + term, q);
    }
}

/// Lagrange's formula at zero: from the values at distinct nodes of a
/// polynomial with no more coefficients than there are nodes, it gives the
/// polynomial's constant term.
pub proof fn lemma_interpolation(xs: Seq<nat>, ys: Seq<nat>, f: Seq<nat>)
    requires
        xs.no_duplicates(),
        ys.len() == xs.len(),
        1 <= f.len() <= xs.len(),
        forall|j: int| 0 <= j < xs.len() ==> ys[j] == poly_eval(f, #[trigger] xs[j]),
        inverses_hold(xs),
    ensures
        interpolate_at_zero(xs, ys) == f[0] % chain_order(),
{
    let q = chain_order() as int;
    let ints = as_ints(xs);
    let invs = difference_inverses(xs);
    assert forall|j: int| 0 <= j < ints.len() implies (#[trigger] invs[j] * den_int(
        ints,
        j,
        ints.len(),
    )) % q == 1 by {
        lemma_products_agree(xs, j, xs.len());
        let d = lagrange_den(xs, j, xs.len()) as int;
        assert(fmul(finv(lagrange_den(xs, j, xs.len())), lagrange_den(xs, j, xs.len())) == 1);
        lemma_congruent_products(invs[j], invs[j], d, den_int(ints, j, ints.len()), q);
    }
    lemma_combined_is_constant_term(ints, invs, as_ints(f), q);
    lemma_sums_agree(xs, ys, f, xs.len());
    if xs.len() > 0 {
        lemma_mod_twice(
            (interpolate_upto(xs, ys, (xs.len() - 1) as nat) + fmul(
                lagrange_coeff(xs, xs.len() - 1),
                ys[xs.len() - 1],
            )) as int,
            q,
        );
    }
}

} // verus!
