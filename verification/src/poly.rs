//! Polynomials over the chain curve's scalar field, by their coefficients:
//! with scalar coefficients, and with the images `a * G` of such coefficients.

use crate::chain::{
    base_scale, chain_order, fadd, fmul, is_multiple_of_base, point_reprs, point_scale, point_sum,
    scalar_values, ChainPoint, ChainScalar,
};
use vstd::prelude::*;

verus! {

/// `x` to the power `e` in the scalar field.
pub open spec fn pow_mod(x: nat, e: nat) -> nat
    decreases e,
{
    if e == 0 {
        1
    } else {
        fmul(pow_mod(x, (e - 1) as nat), x)
    }
}

/// The value at `x` of the polynomial with coefficients `c`, constant term
/// first: the sum of `c[i] * x^i` in the scalar field.
pub open spec fn poly_eval(c: Seq<nat>, x: nat) -> nat
    decreases c.len(),
{
    if c.len() == 0 {
        0
    } else {
        fadd(poly_eval(c.drop_last(), x), fmul(pow_mod(x, (c.len() - 1) as nat), c.last()))
    }
}

/// The value at `x` of the polynomial whose coefficients are the points `p`:
/// the sum of `x^i * p[i]` in the group.
pub open spec fn point_poly_eval(p: Seq<Option<Seq<u8>>>, x: nat) -> Option<Seq<u8>>
    decreases p.len(),
{
    if p.len() == 0 {
        None
    } else {
        point_sum(
            point_poly_eval(p.drop_last(), x),
            point_scale(pow_mod(x, (p.len() - 1) as nat), p.last()),
        )
    }
}

/// Whether each point of `p` is the image `c[i] * G` of the coefficient at
/// its place.
pub open spec fn is_image_of(p: Seq<Option<Seq<u8>>>, c: Seq<nat>) -> bool {
    &&& p.len() == c.len()
    &&& forall|i: int| 0 <= i < c.len() ==> p[i] == base_scale(#[trigger] c[i])
}

/// A polynomial with scalar coefficients, constant term first.
pub struct ScalarPoly(Vec<ChainScalar>);

impl View for ScalarPoly {
    type V = Seq<nat>;

    closed spec fn view(&self) -> Seq<nat> {
        scalar_values(self.0@)
    }
}

impl ScalarPoly {
    /// The value of the polynomial at `x`, which is not zero.
    pub fn eval(&self, x: u32) -> (r: ChainScalar)
        requires
            x != 0,
        ensures
            r@ == poly_eval(self@, x as nat),
    {
        let x_scalar = ChainScalar::from_u32(x);
        let mut xpow = ChainScalar::from_u32(1);
        let mut sum = ChainScalar::zero();
        let mut i: usize = 0;
        while i < self.0.len()
            invariant
                i <= self.0@.len(),
                x_scalar@ == x as nat,
                xpow@ == pow_mod(x as nat, i as nat),
                sum@ == poly_eval(self@.take(i as int), x as nat),
            decreases self.0@.len() - i,
        {
            let term = xpow.mul(&self.0[i]);
            sum = sum.add(&term);
            xpow = xpow.mul(&x_scalar);
            proof {
                assert(self@.take(i as int + 1).drop_last() =~= self@.take(i as int));
            }
            i += 1;
        }
        assert(self@.take(i as int) =~= self@);
        sum
    }

    /// The polynomial of the images `a * G` of the coefficients.
    pub fn to_point_poly(&self) -> (r: PointPoly)
        ensures
            is_image_of(r@, self@),
    {
        let mut points: Vec<ChainPoint> = Vec::new();
        let mut i: usize = 0;
        while i < self.0.len()
            invariant
                i <= self.0@.len(),
                points@.len() == i,
                forall|k: int| 0 <= k < i ==> points@[k]@ == base_scale(self.0@[k]@),
            decreases self.0@.len() - i,
        {
            points.push(ChainPoint::from_scalar(&self.0[i]));
            i += 1;
        }
        PointPoly(points)
    }

    /// A polynomial with `n_coefficients` coefficients other than zero, drawn
    /// at random.
    pub fn random(n_coefficients: usize) -> (r: Self)
        ensures
            r@.len() == n_coefficients,
            forall|i: int| 0 <= i < r@.len() ==> 0 < #[trigger] r@[i] < chain_order(),
    {
        let mut coefficients: Vec<ChainScalar> = Vec::new();
        let mut i: usize = 0;
        while i < n_coefficients
            invariant
                i <= n_coefficients,
                coefficients@.len() == i,
                forall|k: int| 0 <= k < i ==> 0 < (#[trigger] coefficients@[k])@ < chain_order(),
            decreases n_coefficients - i,
        {
            coefficients.push(ChainScalar::random());
            i += 1;
        }
        ScalarPoly(coefficients)
    }

    /// The number of coefficients.
    pub fn poly_len(&self) -> (r: usize)
        ensures
            r == self@.len(),
    {
        self.0.len()
    }

    /// The polynomial with the coefficients `x`, constant term first.
    pub fn new(x: Vec<ChainScalar>) -> (r: Self)
        ensures
            r@ == scalar_values(x@),
    {
        Self(x)
    }

    /// Removes the constant term: the other coefficients move down one place.
    pub fn pop_front(&mut self)
        requires
            old(self)@.len() > 0,
        ensures
            final(self)@ == old(self)@.skip(1),
    {
        self.0.remove(0);
        assert(self@ =~= old(self)@.skip(1));
    }

    /// Puts `scalar` in front as the new constant term.
    pub fn push_front(&mut self, scalar: ChainScalar)
        ensures
            final(self)@ == seq![scalar@] + old(self)@,
    {
        self.0.insert(0, scalar);
        assert(self@ =~= seq![scalar@] + old(self)@);
    }
}

/// A polynomial whose coefficients are points, constant term first.
#[derive(Clone)]
pub struct PointPoly(Vec<ChainPoint>);

impl View for PointPoly {
    type V = Seq<Option<Seq<u8>>>;

    closed spec fn view(&self) -> Seq<Option<Seq<u8>>> {
        point_reprs(self.0@)
    }
}

impl PointPoly {
    /// The value of the polynomial at `x`, which is not zero. Where the
    /// coefficients are the images of scalar coefficients `c`, the value is the
    /// image of the value at `x` of the polynomial `c`.
    pub fn eval(&self, x: u32) -> (r: ChainPoint)
        requires
            x != 0,
        ensures
            r@ == point_poly_eval(self@, x as nat),
            forall|c: Seq<nat>| #[trigger]
                is_image_of(self@, c) ==> r@ == base_scale(poly_eval(c, x as nat)),
    {
        let x_scalar = ChainScalar::from_u32(x);
        let mut xpow = ChainScalar::from_u32(1);
        let mut sum = ChainPoint::zero();
        let mut i: usize = 0;
        while i < self.0.len()
            invariant
                i <= self.0@.len(),
                x_scalar@ == x as nat,
                xpow@ == pow_mod(x as nat, i as nat),
                sum@ == point_poly_eval(self@.take(i as int), x as nat),
                forall|c: Seq<nat>| #[trigger]
                    is_image_of(self@, c) ==> sum@ == base_scale(
                        poly_eval(c.take(i as int), x as nat),
                    ),
            decreases self.0@.len() - i,
        {
            let term = self.0[i].mul(&xpow);
            let next = sum.add(&term);
            proof {
                assert(self@.take(i as int + 1).drop_last() =~= self@.take(i as int));
                assert forall|c: Seq<nat>| #[trigger] is_image_of(self@, c) implies next@
                    == base_scale(poly_eval(c.take(i as int + 1), x as nat)) by {
                    assert(c.take(i as int + 1).drop_last() =~= c.take(i as int));
                    assert(is_multiple_of_base(self@[i as int], c[i as int]));
                    assert(is_multiple_of_base(term@, fmul(xpow@, c[i as int])));
                    assert(is_multiple_of_base(sum@, poly_eval(c.take(i as int), x as nat)));
                }
            }
            sum = next;
            xpow = xpow.mul(&x_scalar);
            i += 1;
        }
        proof {
            assert(self@.take(i as int) =~= self@);
            assert forall|c: Seq<nat>| #[trigger] is_image_of(self@, c) implies sum@ == base_scale(
                poly_eval(c, x as nat),
            ) by {
                assert(c.take(i as int) =~= c);
            }
        }
        sum
    }

    /// The number of coefficients.
    pub fn poly_len(&self) -> (r: usize)
        ensures
            r == self@.len(),
    {
        self.0.len()
    }

    /// The coefficients, constant term first.
    pub fn points(&self) -> (r: &[ChainPoint])
        ensures
            point_reprs(r@) == self@,
    {
        self.0.as_slice()
    }

    /// The polynomial with the coefficients `points`, constant term first.
    pub fn new(points: Vec<ChainPoint>) -> (r: Self)
        ensures
            r@ == point_reprs(points@),
    {
        Self(points)
    }

    /// Removes the constant term: the other coefficients move down one place.
    pub fn pop_front(&mut self)
        requires
            old(self)@.len() > 0,
        ensures
            final(self)@ == old(self)@.skip(1),
    {
        self.0.remove(0);
        assert(self@ =~= old(self)@.skip(1));
    }

    /// Puts `point` in front as the new constant term.
    pub fn push_front(&mut self, point: ChainPoint)
        ensures
            final(self)@ == seq![point@] + old(self)@,
    {
        self.0.insert(0, point);
        assert(self@ =~= seq![point@] + old(self)@);
    }
}

} // verus!
