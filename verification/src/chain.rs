//! The chain curve (secp256k1): its scalar field and its group of points.
//!
//! Arithmetic is done by `secp256kfun`. A scalar is seen as the integer it
//! stands for, a point as its compressed encoding.
//!
//! What an operation on points gives has a name. Beside it stands the law
//! that this crate builds on: the multiples of the base point add and
//! multiply as their factors do.

use crate::encoding::be_nat;
use secp256kfun::marker::{Mark, NonZero, Normal, Public, Secret, Zero};
use secp256kfun::{Point, Scalar};
use vstd::prelude::*;

verus! {

/// `secp256kfun::Scalar`: a scalar, marked with its secrecy and with whether it can be zero.
#[verifier::external_type_specification]
#[verifier::external_body]
#[verifier::reject_recursive_types(S)]
#[verifier::reject_recursive_types(Z)]
pub struct ExScalar<S, Z>(Scalar<S, Z>);

/// `secp256kfun::Point`: a point, marked with its form, its secrecy and whether it can be the
/// point at infinity.
#[verifier::external_type_specification]
#[verifier::external_body]
#[verifier::reject_recursive_types(T)]
#[verifier::reject_recursive_types(S)]
#[verifier::reject_recursive_types(Z)]
pub struct ExPoint<T, S, Z>(Point<T, S, Z>);

/// `secp256kfun::marker::Normal`: marks a point in affine form.
#[verifier::external_type_specification]
#[verifier::external_body]
pub struct ExNormal(Normal);

/// `secp256kfun::marker::Public`: marks a value that need not be hidden from timing.
#[verifier::external_type_specification]
#[verifier::external_body]
pub struct ExPublic(Public);

/// `secp256kfun::marker::Secret`: marks a value that is worked on in constant time.
#[verifier::external_type_specification]
#[verifier::external_body]
pub struct ExSecret(Secret);

/// `secp256kfun::marker::Zero`: marks a value that can be zero.
#[verifier::external_type_specification]
#[verifier::external_body]
pub struct ExZero(Zero);

/// The order `q` of the chain curve's group, and so the size of its scalar field.
pub open spec fn chain_order() -> nat {
    0xFFFFFFFFFFFFFFFFFFFFFFFFFFFFFFFEBAAEDCE6AF48A03BBFD25E8CD0364141nat
}

/// Addition in the scalar field.
pub open spec fn fadd(a: nat, b: nat) -> nat {
    (a + b) % chain_order()
}

/// Subtraction in the scalar field.
pub open spec fn fsub(a: nat, b: nat) -> nat {
    ((a + chain_order()) - b % chain_order()) as nat % chain_order()
}

/// Multiplication in the scalar field.
pub open spec fn fmul(a: nat, b: nat) -> nat {
    (a * b) % chain_order()
}

/// The integer in `[0, q)` that a scalar stands for.
pub uninterp spec fn scalar_value(s: Scalar<Secret, Zero>) -> nat;

/// The multiplicative inverse of `a` modulo `q`.
pub uninterp spec fn finv(a: nat) -> nat;

/// The compressed encoding of a point: 33 bytes, or `None` for the point at infinity.
pub uninterp spec fn point_repr(p: Point<Normal, Public, Zero>) -> Option<Seq<u8>>;

/// The encoding of `k * P`.
pub uninterp spec fn point_scale(k: nat, p: Option<Seq<u8>>) -> Option<Seq<u8>>;

/// The compressed encoding of the curve's base point `G`.
pub open spec fn generator_repr() -> Seq<u8> {
    seq![
        0x02u8, 0x79u8, 0xbeu8, 0x66u8, 0x7eu8, 0xf9u8, 0xdcu8, 0xbbu8, 0xacu8, 0x55u8, 0xa0u8,
        0x62u8, 0x95u8, 0xceu8, 0x87u8, 0x0bu8, 0x07u8, 0x02u8, 0x9bu8, 0xfcu8, 0xdbu8, 0x2du8,
        0xceu8, 0x28u8, 0xd9u8, 0x59u8, 0xf2u8, 0x81u8, 0x5bu8, 0x16u8, 0xf8u8, 0x17u8, 0x98u8,
    ]
}

/// The encoding of `k * G`.
pub open spec fn base_scale(k: nat) -> Option<Seq<u8>> {
    point_scale(k, Some(generator_repr()))
}

/// Whether `p` is the encoding of `k * G`.
pub open spec fn is_multiple_of_base(p: Option<Seq<u8>>, k: nat) -> bool {
    p == base_scale(k)
}

/// The encoding of `P + Q`.
pub uninterp spec fn point_sum(p: Option<Seq<u8>>, q: Option<Seq<u8>>) -> Option<Seq<u8>>;

/// `Scalar::from_bytes_mod_order`: the scalar is the big-endian number in
/// `bytes`, reduced modulo `q`.
#[verifier::external_body]
fn scalar_from_bytes_mod_order(bytes: [u8; 32]) -> (r: Scalar<Secret, Zero>)
    ensures
        scalar_value(r) == be_nat(bytes@) % chain_order(),
{
    Scalar::from_bytes_mod_order(bytes)
}

/// `Scalar::to_bytes`: the 32 bytes are the scalar's integer, big-endian,
/// and that integer is below `q`.
#[verifier::external_body]
fn scalar_to_bytes(s: &Scalar<Secret, Zero>) -> (r: [u8; 32])
    ensures
        be_nat(r@) == scalar_value(*s),
        be_nat(r@) < chain_order(),
{
    s.to_bytes()
}

/// `From<u32> for Scalar`: the scalar stands for `x`.
#[verifier::external_body]
fn scalar_from_u32(x: u32) -> (r: Scalar<Secret, Zero>)
    ensures
        scalar_value(r) == x,
{
    Scalar::from(x)
}

/// `Clone for Scalar`: the copy stands for the same integer.
#[verifier::external_body]
fn scalar_clone(s: &Scalar<Secret, Zero>) -> (r: Scalar<Secret, Zero>)
    ensures
        scalar_value(r) == scalar_value(*s),
{
    s.clone()
}

/// `op::scalar_add`: addition modulo `q`.
#[verifier::external_body]
fn scalar_add(a: &Scalar<Secret, Zero>, b: &Scalar<Secret, Zero>) -> (r: Scalar<Secret, Zero>)
    ensures
        scalar_value(r) == fadd(scalar_value(*a), scalar_value(*b)),
{
    secp256kfun::op::scalar_add(a, b)
}

/// `op::scalar_sub`: subtraction modulo `q`.
#[verifier::external_body]
fn scalar_sub(a: &Scalar<Secret, Zero>, b: &Scalar<Secret, Zero>) -> (r: Scalar<Secret, Zero>)
    ensures
        scalar_value(r) == fsub(scalar_value(*a), scalar_value(*b)),
{
    secp256kfun::op::scalar_sub(a, b)
}

/// `op::scalar_mul`: multiplication modulo `q`. As `q` is prime, and as the
/// crate's own signature records, a product of two non-zero scalars is not zero.
#[verifier::external_body]
fn scalar_mul(a: &Scalar<Secret, Zero>, b: &Scalar<Secret, Zero>) -> (r: Scalar<Secret, Zero>)
    ensures
        scalar_value(r) == fmul(scalar_value(*a), scalar_value(*b)),
        scalar_value(*a) != 0 && scalar_value(*b) != 0 ==> scalar_value(r) != 0,
{
    secp256kfun::op::scalar_mul(a, b)
}

/// `Scalar::is_zero`.
#[verifier::external_body]
fn scalar_is_zero(a: &Scalar<Secret, Zero>) -> (r: bool)
    ensures
        r == (scalar_value(*a) == 0),
{
    a.is_zero()
}

/// `Scalar::invert`, which the crate offers for non-zero scalars only: the
/// result times `a` is one modulo `q`.
#[verifier::external_body]
fn scalar_invert(a: &Scalar<Secret, Zero>) -> (r: Scalar<Secret, Zero>)
    requires
        scalar_value(*a) != 0,
    ensures
        scalar_value(r) == finv(scalar_value(*a)),
        fmul(scalar_value(r), scalar_value(*a)) == 1,
{
    a.clone().mark::<NonZero>().unwrap().invert().mark::<Zero>()
}

/// `Scalar::random` on the thread's generator: some scalar other than zero.
#[verifier::external_body]
fn scalar_random() -> (r: Scalar<Secret, Zero>)
    ensures
        0 < scalar_value(r) < chain_order(),
{
    Scalar::random(&mut rand::thread_rng()).mark::<Zero>()
}

/// `Point::zero`: the point at infinity, which is `0 * G`.
#[verifier::external_body]
fn point_zero() -> (r: Point<Normal, Public, Zero>)
    ensures
        point_repr(r) is None,
        point_repr(r) == base_scale(0),
{
    Point::zero()
}

/// `op::scalar_mul_point` on the base point `G`, normalized: `k * G`.
#[verifier::external_body]
fn point_from_scalar(k: &Scalar<Secret, Zero>) -> (r: Point<Normal, Public, Zero>)
    ensures
        point_repr(r) == point_scale(scalar_value(*k), Some(generator_repr())),
{
    secp256kfun::op::scalar_mul_point(k, secp256kfun::G).normalize()
}

/// `op::scalar_mul_point`, normalized: `k * P`. Where `P` is `j * G`, the
/// product is `(k * j mod q) * G`.
#[verifier::external_body]
fn point_mul(k: &Scalar<Secret, Zero>, p: &Point<Normal, Public, Zero>) -> (r: Point<
    Normal,
    Public,
    Zero,
>)
    ensures
        point_repr(r) == point_scale(scalar_value(*k), point_repr(*p)),
        forall|j: nat| #[trigger]
            is_multiple_of_base(point_repr(*p), j) ==> point_repr(r) == base_scale(
                fmul(scalar_value(*k), j),
            ),
{
    secp256kfun::op::scalar_mul_point(k, p).normalize()
}

/// `op::point_add`, normalized: `P + Q`. Where `P` is `i * G` and `Q` is
/// `j * G`, the sum is `(i + j mod q) * G`.
#[verifier::external_body]
fn point_add(p: &Point<Normal, Public, Zero>, q: &Point<Normal, Public, Zero>) -> (r: Point<
    Normal,
    Public,
    Zero,
>)
    ensures
        point_repr(r) == point_sum(point_repr(*p), point_repr(*q)),
        forall|i: nat, j: nat|
            #[trigger] is_multiple_of_base(point_repr(*p), i) && #[trigger] is_multiple_of_base(
                point_repr(*q),
                j,
            ) ==> point_repr(r) == base_scale(fadd(i, j)),
{
    secp256kfun::op::point_add(p, q).normalize()
}

/// `PartialEq for Point`: two points are equal exactly when their encodings are.
#[verifier::external_body]
fn point_eq(p: &Point<Normal, Public, Zero>, q: &Point<Normal, Public, Zero>) -> (r: bool)
    ensures
        r == (point_repr(*p) == point_repr(*q)),
{
    p == q
}

/// `Point::to_bytes`, which the crate offers for points other than the point
/// at infinity.
#[verifier::external_body]
fn point_to_bytes(p: &Point<Normal, Public, Zero>) -> (r: Option<[u8; 33]>)
    ensures
        match r {
            Some(b) => point_repr(*p) == Some(b@),
            None => point_repr(*p) is None,
        },
{
    (*p).mark::<NonZero>().map(|q| q.to_bytes())
}

/// A scalar of the chain curve: an integer modulo `q`.
pub struct ChainScalar {
    s: Scalar<Secret, Zero>,
}

impl View for ChainScalar {
    type V = nat;

    closed spec fn view(&self) -> nat {
        scalar_value(self.s)
    }
}

impl Clone for ChainScalar {
    fn clone(&self) -> (r: Self)
        ensures
            r@ == self@,
    {
        ChainScalar { s: scalar_clone(&self.s) }
    }
}

impl ChainScalar {
    /// The scalar that 32 big-endian bytes denote, reduced modulo `q`.
    pub fn from_bytes_mod_order(bytes: [u8; 32]) -> (r: Self)
        ensures
            r@ == be_nat(bytes@) % chain_order(),
    {
        ChainScalar { s: scalar_from_bytes_mod_order(bytes) }
    }

    /// The scalar's integer as 32 big-endian bytes.
    pub fn to_bytes(&self) -> (r: [u8; 32])
        ensures
            be_nat(r@) == self@,
            self@ < chain_order(),
    {
        scalar_to_bytes(&self.s)
    }

    /// The scalar that stands for `x`.
    pub fn from_u32(x: u32) -> (r: Self)
        ensures
            r@ == x,
    {
        ChainScalar { s: scalar_from_u32(x) }
    }

    /// The scalar zero.
    pub fn zero() -> (r: Self)
        ensures
            r@ == 0,
    {
        ChainScalar { s: scalar_from_u32(0) }
    }

    /// A scalar other than zero, drawn from the thread's random number
    /// generator.
    pub fn random() -> (r: Self)
        ensures
            0 < r@ < chain_order(),
    {
        ChainScalar { s: scalar_random() }
    }

    /// Whether the scalar is zero.
    pub fn is_zero(&self) -> (r: bool)
        ensures
            r == (self@ == 0),
    {
        scalar_is_zero(&self.s)
    }

    /// `self + other` in the scalar field.
    pub fn add(&self, other: &ChainScalar) -> (r: Self)
        ensures
            r@ == fadd(self@, other@),
    {
        ChainScalar { s: scalar_add(&self.s, &other.s) }
    }

    /// `self - other` in the scalar field.
    pub fn sub(&self, other: &ChainScalar) -> (r: Self)
        ensures
            r@ == fsub(self@, other@),
    {
        ChainScalar { s: scalar_sub(&self.s, &other.s) }
    }

    /// `self * other` in the scalar field.
    pub fn mul(&self, other: &ChainScalar) -> (r: Self)
        ensures
            r@ == fmul(self@, other@),
            self@ != 0 && other@ != 0 ==> r@ != 0,
    {
        ChainScalar { s: scalar_mul(&self.s, &other.s) }
    }

    /// The inverse of a non-zero scalar; `None` for zero.
    pub fn invert(&self) -> (r: Option<Self>)
        ensures
            (r is None) == (self@ == 0),
            r matches Some(i) ==> i@ == finv(self@) && fmul(i@, self@) == 1,
    {
        if scalar_is_zero(&self.s) {
            None
        } else {
            Some(ChainScalar { s: scalar_invert(&self.s) })
        }
    }
}

/// A point of the chain curve, the point at infinity included.
#[derive(Clone, Copy)]
pub struct ChainPoint {
    p: Point<Normal, Public, Zero>,
}

impl View for ChainPoint {
    type V = Option<Seq<u8>>;

    closed spec fn view(&self) -> Option<Seq<u8>> {
        point_repr(self.p)
    }
}

impl ChainPoint {
    /// The point at infinity, which is `0 * G`.
    pub fn zero() -> (r: Self)
        ensures
            r@ == base_scale(0),
            r@ is None,
    {
        ChainPoint { p: point_zero() }
    }

    /// `k * G`.
    pub fn from_scalar(k: &ChainScalar) -> (r: Self)
        ensures
            r@ == base_scale(k@),
    {
        ChainPoint { p: point_from_scalar(&k.s) }
    }

    /// `k * self`.
    pub fn mul(&self, k: &ChainScalar) -> (r: Self)
        ensures
            r@ == point_scale(k@, self@),
            forall|j: nat| #[trigger]
                is_multiple_of_base(self@, j) ==> r@ == base_scale(fmul(k@, j)),
    {
        ChainPoint { p: point_mul(&k.s, &self.p) }
    }

    /// `self + other`.
    pub fn add(&self, other: &ChainPoint) -> (r: Self)
        ensures
            r@ == point_sum(self@, other@),
            forall|i: nat, j: nat|
                #[trigger] is_multiple_of_base(self@, i) && #[trigger] is_multiple_of_base(
                    other@,
                    j,
                ) ==> r@ == base_scale(fadd(i, j)),
    {
        ChainPoint { p: point_add(&self.p, &other.p) }
    }

    /// Whether two points are the same.
    pub fn eq(&self, other: &ChainPoint) -> (r: bool)
        ensures
            r == (self@ == other@),
    {
        point_eq(&self.p, &other.p)
    }

    /// The compressed encoding; `None` for the point at infinity.
    pub fn to_bytes(&self) -> (r: Option<[u8; 33]>)
        ensures
            match r {
                Some(b) => self@ == Some(b@),
                None => self@ is None,
            },
    {
        point_to_bytes(&self.p)
    }
}

} // verus!

verus! {

/// The integers that a sequence of scalars stands for.
pub open spec fn scalar_values(s: Seq<ChainScalar>) -> Seq<nat> {
    Seq::new(s.len(), |i: int| s[i]@)
}

/// The encodings of a sequence of points.
pub open spec fn point_reprs(s: Seq<ChainPoint>) -> Seq<Option<Seq<u8>>> {
    Seq::new(s.len(), |i: int| s[i]@)
}

} // verus!
