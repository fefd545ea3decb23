//! The pairing curve (BLS12-381): its scalar field and the groups `G1`, `G2`
//! and `GT`, with the pairing between them.
//!
//! Arithmetic is done by `bls12_381`. A scalar is seen as the integer it
//! stands for, a group element as its canonical encoding. All three groups are
//! written additively.
//!
//! What an operation gives has a name. Beside it stand the laws of the groups
//! that this crate builds on: that the multiples of one element multiply and
//! subtract as their factors do, that the pairing is linear in each argument,
//! and that what was added to an element of `GT` is what is left when the
//! element is taken away.

use bls12_381::hash_to_curve::{ExpandMsgXmd, HashToCurve};
use bls12_381::{G1Affine, G1Projective, G2Affine, G2Projective, Gt, Scalar};
use crate::encoding::le_nat;
use vstd::prelude::*;

verus! {

/// `bls12_381::Scalar`: an element of the scalar field.
#[verifier::external_type_specification]
#[verifier::external_body]
pub struct ExBlsScalar(Scalar);

/// `bls12_381::G1Affine`: an element of `G1` in affine form.
#[verifier::external_type_specification]
#[verifier::external_body]
pub struct ExG1Affine(G1Affine);

/// `bls12_381::G2Affine`: an element of `G2` in affine form.
#[verifier::external_type_specification]
#[verifier::external_body]
pub struct ExG2Affine(G2Affine);

/// `bls12_381::Gt`: an element of `GT`.
#[verifier::external_type_specification]
#[verifier::external_body]
pub struct ExGt(Gt);

/// The order `r` of the three groups, and so the size of the scalar field.
pub open spec fn bls_order() -> nat {
    0x73eda753299d7d483339d80809a1d80553bda402fffe5bfeffffffff00000001nat
}

/// The sum of two scalars: `a + b` modulo `r`.
pub open spec fn scalar_sum(a: nat, b: nat) -> nat {
    (a + b) % bls_order()
}

/// The difference of two scalars: `a - b` modulo `r`.
pub open spec fn scalar_difference(a: nat, b: nat) -> nat {
    ((a + bls_order()) - b % bls_order()) as nat % bls_order()
}

/// The product of two scalars: `a * b` modulo `r`.
pub open spec fn scalar_product(a: nat, b: nat) -> nat {
    (a * b) % bls_order()
}

/// Whether `p` is the encoding of `k * B` in `G1`, where `base` encodes `B`.
pub open spec fn g1_is_multiple(p: Seq<u8>, base: Seq<u8>, k: nat) -> bool {
    p == g1_scale(base, k)
}

/// Whether `p` is the encoding of `k * B` in `G2`, where `base` encodes `B`.
pub open spec fn g2_is_multiple(p: Seq<u8>, base: Seq<u8>, k: nat) -> bool {
    p == g2_scale(base, k)
}

/// Whether `p` is the encoding of `k * B` in `GT`, where `base` encodes `B`.
pub open spec fn gt_is_multiple(p: Seq<u8>, base: Seq<u8>, k: nat) -> bool {
    p == gt_scale(base, k)
}

/// Whether `p` is the encoding of `Q + M` in `GT`, where `q` and `m` encode
/// `Q` and `M`.
pub open spec fn gt_is_sum(p: Seq<u8>, q: Seq<u8>, m: Seq<u8>) -> bool {
    p == gt_sum(q, m)
}

/// The compressed encoding of the fixed generator of `G1`.
pub open spec fn g1_generator_repr() -> Seq<u8> {
    seq![
        0x97u8, 0xf1u8, 0xd3u8, 0xa7u8, 0x31u8, 0x97u8, 0xd7u8, 0x94u8, 0x26u8, 0x95u8, 0x63u8, 0x8cu8,
        0x4fu8, 0xa9u8, 0xacu8, 0x0fu8, 0xc3u8, 0x68u8, 0x8cu8, 0x4fu8, 0x97u8, 0x74u8, 0xb9u8, 0x05u8,
        0xa1u8, 0x4eu8, 0x3au8, 0x3fu8, 0x17u8, 0x1bu8, 0xacu8, 0x58u8, 0x6cu8, 0x55u8, 0xe8u8, 0x3fu8,
        0xf9u8, 0x7au8, 0x1au8, 0xefu8, 0xfbu8, 0x3au8, 0xf0u8, 0x0au8, 0xdbu8, 0x22u8, 0xc6u8, 0xbbu8,
    ]
}

/// The compressed encoding of the identity of `G1`, the point at infinity:
/// the marks of a compressed encoding and of infinity, and no coordinate.
pub open spec fn g1_identity_repr() -> Seq<u8> {
    Seq::new(
        48,
        |i: int|
            if i == 0 {
                0xc0u8
            } else {
                0u8
            },
    )
}

/// The compressed encoding of the fixed generator of `G2`.
pub open spec fn g2_generator_repr() -> Seq<u8> {
    seq![
        0x93u8, 0xe0u8, 0x2bu8, 0x60u8, 0x52u8, 0x71u8, 0x9fu8, 0x60u8, 0x7du8, 0xacu8, 0xd3u8, 0xa0u8,
        0x88u8, 0x27u8, 0x4fu8, 0x65u8, 0x59u8, 0x6bu8, 0xd0u8, 0xd0u8, 0x99u8, 0x20u8, 0xb6u8, 0x1au8,
        0xb5u8, 0xdau8, 0x61u8, 0xbbu8, 0xdcu8, 0x7fu8, 0x50u8, 0x49u8, 0x33u8, 0x4cu8, 0xf1u8, 0x12u8,
        0x13u8, 0x94u8, 0x5du8, 0x57u8, 0xe5u8, 0xacu8, 0x7du8, 0x05u8, 0x5du8, 0x04u8, 0x2bu8, 0x7eu8,
        0x02u8, 0x4au8, 0xa2u8, 0xb2u8, 0xf0u8, 0x8fu8, 0x0au8, 0x91u8, 0x26u8, 0x08u8, 0x05u8, 0x27u8,
        0x2du8, 0xc5u8, 0x10u8, 0x51u8, 0xc6u8, 0xe4u8, 0x7au8, 0xd4u8, 0xfau8, 0x40u8, 0x3bu8, 0x02u8,
        0xb4u8, 0x51u8, 0x0bu8, 0x64u8, 0x7au8, 0xe3u8, 0xd1u8, 0x77u8, 0x0bu8, 0xacu8, 0x03u8, 0x26u8,
        0xa8u8, 0x05u8, 0xbbu8, 0xefu8, 0xd4u8, 0x80u8, 0x56u8, 0xc8u8, 0xc1u8, 0x21u8, 0xbdu8, 0xb8u8,
    ]
}

/// The integer in `[0, r)` that a scalar stands for.
pub uninterp spec fn bls_scalar_value(s: Scalar) -> nat;

/// The compressed encoding of an element of `G1`: 48 bytes.
pub uninterp spec fn g1_repr(p: G1Affine) -> Seq<u8>;

/// The compressed encoding of an element of `G2`: 96 bytes.
pub uninterp spec fn g2_repr(p: G2Affine) -> Seq<u8>;

/// The encoding of an element of `GT`: its twelve base-field coefficients as
/// the crate prints them.
pub uninterp spec fn gt_repr(p: Gt) -> Seq<u8>;

/// In `G1`: the encoding of `k * P`.
pub uninterp spec fn g1_scale(p: Seq<u8>, k: nat) -> Seq<u8>;

/// In `G1`: the encoding of `P - Q`.
pub uninterp spec fn g1_diff(p: Seq<u8>, q: Seq<u8>) -> Seq<u8>;

/// In `G2`: the encoding of `k * P`.
pub uninterp spec fn g2_scale(p: Seq<u8>, k: nat) -> Seq<u8>;

/// In `GT`: the encoding of `k * P`.
pub uninterp spec fn gt_scale(p: Seq<u8>, k: nat) -> Seq<u8>;

/// In `GT`: the encoding of `P + Q`.
pub uninterp spec fn gt_sum(p: Seq<u8>, q: Seq<u8>) -> Seq<u8>;

/// In `GT`: the encoding of `P - Q`.
pub uninterp spec fn gt_diff(p: Seq<u8>, q: Seq<u8>) -> Seq<u8>;

/// The encoding of the element of `G1` that `message` hashes to under the
/// domain separation tag `dst`.
pub uninterp spec fn hash_to_g1(message: Seq<u8>, dst: Seq<u8>) -> Seq<u8>;

/// The encoding of the pairing `e(P, Q)` of `P` in `G1` and `Q` in `G2`.
pub uninterp spec fn pairing_of(p: Seq<u8>, q: Seq<u8>) -> Seq<u8>;

/// The encoding of the element of `G2` that `message` hashes to under the
/// domain separation tag `dst`.
pub uninterp spec fn hash_to_g2(message: Seq<u8>, dst: Seq<u8>) -> Seq<u8>;

/// `Scalar::from_bytes`: the scalar is the little-endian number in `bytes`,
/// and there is one exactly when that number is below `r`.
#[verifier::external_body]
fn bls_scalar_from_bytes(bytes: &[u8; 32]) -> (r: Option<Scalar>)
    ensures
        (r is Some) == (le_nat(bytes@) < bls_order()),
        r matches Some(s) ==> bls_scalar_value(s) == le_nat(bytes@),
{
    Scalar::from_bytes(bytes).into()
}

/// `Scalar::to_bytes`: the 32 bytes are the scalar's integer, little-endian,
/// and that integer is below `r`.
#[verifier::external_body]
fn bls_scalar_to_bytes(s: &Scalar) -> (r: [u8; 32])
    ensures
        le_nat(r@) == bls_scalar_value(*s),
        le_nat(r@) < bls_order(),
{
    s.to_bytes()
}

/// `Add for Scalar`: addition modulo `r`.
#[verifier::external_body]
fn bls_scalar_add(a: &Scalar, b: &Scalar) -> (r: Scalar)
    ensures
        bls_scalar_value(r) == scalar_sum(bls_scalar_value(*a), bls_scalar_value(*b)),
{
    a + b
}

/// `Mul for Scalar`: multiplication modulo `r`.
#[verifier::external_body]
fn bls_scalar_mul(a: &Scalar, b: &Scalar) -> (r: Scalar)
    ensures
        bls_scalar_value(r) == scalar_product(bls_scalar_value(*a), bls_scalar_value(*b)),
{
    a * b
}

/// `Field::random for Scalar` on the thread's generator: some scalar.
#[verifier::external_body]
fn bls_scalar_random() -> (r: Scalar)
    ensures
        bls_scalar_value(r) < bls_order(),
{
    <Scalar as ff::Field>::random(rand::thread_rng())
}

/// `G1Affine::generator`.
#[verifier::external_body]
fn g1_generator() -> (r: G1Affine)
    ensures
        g1_repr(r) == g1_generator_repr(),
{
    G1Affine::generator()
}

/// `Group::random for G1Projective` on the thread's generator, in affine
/// form: some element other than the identity.
#[verifier::external_body]
fn g1_random() -> (r: G1Affine)
    ensures
        g1_repr(r) != g1_identity_repr(),
{
    G1Affine::from(<G1Projective as group::Group>::random(rand::thread_rng()))
}

/// `Mul<&Scalar> for &G1Affine`, in affine form: `k * P`. Where `P` is
/// `a * B`, the product is `(a * k mod r) * B`.
#[verifier::external_body]
fn g1_mul(p: &G1Affine, k: &Scalar) -> (r: G1Affine)
    ensures
        g1_repr(r) == g1_scale(g1_repr(*p), bls_scalar_value(*k)),
        forall|b: Seq<u8>, a: nat| #[trigger]
            g1_is_multiple(g1_repr(*p), b, a) ==> g1_repr(r) == g1_scale(
                b,
                scalar_product(a, bls_scalar_value(*k)),
            ),
{
    G1Affine::from(p * k)
}

/// `Sub<&G1Projective> for &G1Affine`, in affine form: `P - Q`. Where `P` is
/// `a * B` and `Q` is `c * B`, the difference is `(a - c mod r) * B`.
#[verifier::external_body]
fn g1_sub(p: &G1Affine, q: &G1Affine) -> (r: G1Affine)
    ensures
        g1_repr(r) == g1_diff(g1_repr(*p), g1_repr(*q)),
        forall|b: Seq<u8>, a: nat, c: nat|
            #[trigger] g1_is_multiple(g1_repr(*p), b, a) && #[trigger] g1_is_multiple(
                g1_repr(*q),
                b,
                c,
            ) ==> g1_repr(r) == g1_scale(b, scalar_difference(a, c)),
{
    G1Affine::from(p - G1Projective::from(q))
}

/// `PartialEq for G1Affine`: two elements are equal exactly when their
/// encodings are.
#[verifier::external_body]
fn g1_eq(p: &G1Affine, q: &G1Affine) -> (r: bool)
    ensures
        r == (g1_repr(*p) == g1_repr(*q)),
{
    p == q
}

/// `G1Affine::to_compressed`.
#[verifier::external_body]
fn g1_to_compressed(p: &G1Affine) -> (r: [u8; 48])
    ensures
        r@ == g1_repr(*p),
{
    p.to_compressed()
}

/// `HashToCurve::hash_to_curve` for `G1Projective` with `ExpandMsgXmd` over
/// SHA-256, in affine form.
#[verifier::external_body]
fn g1_hash_to_curve(message: &[u8], dst: &[u8]) -> (r: G1Affine)
    ensures
        g1_repr(r) == hash_to_g1(message@, dst@),
{
    G1Affine::from(<G1Projective as HashToCurve<ExpandMsgXmd<sha2::Sha256>>>::hash_to_curve(message, dst))
}

/// `G2Affine::generator`.
#[verifier::external_body]
fn g2_generator() -> (r: G2Affine)
    ensures
        g2_repr(r) == g2_generator_repr(),
{
    G2Affine::generator()
}

/// `Mul<&Scalar> for &G2Affine`, in affine form: `k * P`.
#[verifier::external_body]
fn g2_mul(p: &G2Affine, k: &Scalar) -> (r: G2Affine)
    ensures
        g2_repr(r) == g2_scale(g2_repr(*p), bls_scalar_value(*k)),
{
    G2Affine::from(p * k)
}

/// `G2Affine::to_compressed`.
#[verifier::external_body]
fn g2_to_compressed(p: &G2Affine) -> (r: [u8; 96])
    ensures
        r@ == g2_repr(*p),
{
    p.to_compressed()
}

/// `HashToCurve::hash_to_curve` for `G2Projective` with `ExpandMsgXmd` over
/// SHA-256, in affine form.
#[verifier::external_body]
fn g2_hash_to_curve(message: &[u8], dst: &[u8]) -> (r: G2Affine)
    ensures
        g2_repr(r) == hash_to_g2(message@, dst@),
{
    G2Affine::from(<G2Projective as HashToCurve<ExpandMsgXmd<sha2::Sha256>>>::hash_to_curve(message, dst))
}

/// `pairing`: `e(P, Q)`. It is linear in each argument: where `P` is
/// `k * B`, the pairing is `k * e(B, Q)`, and where `Q` is `k * B`, it is
/// `k * e(P, B)`.
#[verifier::external_body]
fn gt_pairing(p: &G1Affine, q: &G2Affine) -> (r: Gt)
    ensures
        gt_repr(r) == pairing_of(g1_repr(*p), g2_repr(*q)),
        forall|b: Seq<u8>, k: nat| #[trigger]
            g1_is_multiple(g1_repr(*p), b, k) ==> gt_repr(r) == gt_scale(
                pairing_of(b, g2_repr(*q)),
                k,
            ),
        forall|b: Seq<u8>, k: nat| #[trigger]
            g2_is_multiple(g2_repr(*q), b, k) ==> gt_repr(r) == gt_scale(
                pairing_of(g1_repr(*p), b),
                k,
            ),
{
    bls12_381::pairing(p, q)
}

/// `Group::generator for Gt`, which the crate defines as the pairing of the
/// two fixed generators.
#[verifier::external_body]
fn gt_generator() -> (r: Gt)
    ensures
        gt_repr(r) == pairing_of(g1_generator_repr(), g2_generator_repr()),
{
    <Gt as group::Group>::generator()
}

/// `Add for &Gt`: `P + Q`.
#[verifier::external_body]
fn gt_add(p: &Gt, q: &Gt) -> (r: Gt)
    ensures
        gt_repr(r) == gt_sum(gt_repr(*p), gt_repr(*q)),
{
    p + q
}

/// `Sub for &Gt`: `P - Q`. Where `P` is `a * B` and `Q` is `c * B`, the
/// difference is `(a - c mod r) * B`; where `P` is `Q + M`, it is `M`; and
/// where `P` is `k * X + M` and `Q` is `k * Y + M`, it is `k * (X - Y)`.
#[verifier::external_body]
fn gt_sub(p: &Gt, q: &Gt) -> (r: Gt)
    ensures
        gt_repr(r) == gt_diff(gt_repr(*p), gt_repr(*q)),
        forall|b: Seq<u8>, a: nat, c: nat|
            #[trigger] gt_is_multiple(gt_repr(*p), b, a) && #[trigger] gt_is_multiple(
                gt_repr(*q),
                b,
                c,
            ) ==> gt_repr(r) == gt_scale(b, scalar_difference(a, c)),
        forall|m: Seq<u8>| #[trigger] gt_is_sum(gt_repr(*p), gt_repr(*q), m) ==> gt_repr(r) == m,
        forall|x: Seq<u8>, y: Seq<u8>, k: nat, m: Seq<u8>|
            #[trigger] gt_is_sum(gt_repr(*p), gt_scale(x, k), m) && #[trigger] gt_is_sum(
                gt_repr(*q),
                gt_scale(y, k),
                m,
            ) ==> gt_repr(r) == gt_scale(gt_diff(x, y), k),
{
    p - q
}

/// `Mul<&Scalar> for &Gt`: `k * P`. Where `P` is `a * B`, the product is
/// `(a * k mod r) * B`.
#[verifier::external_body]
fn gt_mul(p: &Gt, k: &Scalar) -> (r: Gt)
    ensures
        gt_repr(r) == gt_scale(gt_repr(*p), bls_scalar_value(*k)),
        forall|b: Seq<u8>, a: nat| #[trigger]
            gt_is_multiple(gt_repr(*p), b, a) ==> gt_repr(r) == gt_scale(
                b,
                scalar_product(a, bls_scalar_value(*k)),
            ),
{
    p * k
}

/// `PartialEq for Gt`: two elements are equal exactly when their encodings
/// are.
#[verifier::external_body]
fn gt_eq(p: &Gt, q: &Gt) -> (r: bool)
    ensures
        r == (gt_repr(*p) == gt_repr(*q)),
{
    p == q
}

/// `Display for Gt`, as bytes.
#[verifier::external_body]
fn gt_to_bytes(p: &Gt) -> (r: Vec<u8>)
    ensures
        r@ == gt_repr(*p),
{
    format!("{}", p).into_bytes()
}

/// A scalar of the pairing curve: an integer modulo `r`.
#[derive(Clone, Copy)]
pub struct BlsScalar {
    s: Scalar,
}

impl View for BlsScalar {
    type V = nat;

    closed spec fn view(&self) -> nat {
        bls_scalar_value(self.s)
    }
}

impl BlsScalar {
    /// The scalar that 32 little-endian bytes denote; `None` where the number
    /// is not below `r`.
    pub fn from_bytes(bytes: &[u8; 32]) -> (r: Option<Self>)
        ensures
            (r is Some) == (le_nat(bytes@) < bls_order()),
            r matches Some(s) ==> s@ == le_nat(bytes@),
    {
        match bls_scalar_from_bytes(bytes) {
            Some(s) => Some(BlsScalar { s }),
            None => None,
        }
    }

    /// The scalar's integer as 32 little-endian bytes.
    pub fn to_bytes(&self) -> (r: [u8; 32])
        ensures
            le_nat(r@) == self@,
            self@ < bls_order(),
    {
        bls_scalar_to_bytes(&self.s)
    }

    /// A scalar drawn from the thread's random number generator.
    pub fn random() -> (r: Self)
        ensures
            r@ < bls_order(),
    {
        BlsScalar { s: bls_scalar_random() }
    }

    /// `self + other` modulo `r`.
    pub fn add(&self, other: &BlsScalar) -> (r: Self)
        ensures
            r@ == scalar_sum(self@, other@),
    {
        BlsScalar { s: bls_scalar_add(&self.s, &other.s) }
    }

    /// `self * other` modulo `r`.
    pub fn mul(&self, other: &BlsScalar) -> (r: Self)
        ensures
            r@ == scalar_product(self@, other@),
    {
        BlsScalar { s: bls_scalar_mul(&self.s, &other.s) }
    }
}

/// An element of `G1`.
#[derive(Clone, Copy)]
pub struct G1Point {
    p: G1Affine,
}

impl View for G1Point {
    type V = Seq<u8>;

    closed spec fn view(&self) -> Seq<u8> {
        g1_repr(self.p)
    }
}

impl G1Point {
    /// The fixed generator of `G1`.
    pub fn generator() -> (r: Self)
        ensures
            r@ == g1_generator_repr(),
    {
        G1Point { p: g1_generator() }
    }

    /// An element other than the identity, drawn from the thread's random
    /// number generator.
    pub fn random() -> (r: Self)
        ensures
            r@ != g1_identity_repr(),
    {
        G1Point { p: g1_random() }
    }

    /// The element that `message` hashes to under the tag `dst`.
    pub fn hash_to_curve(message: &[u8], dst: &[u8]) -> (r: Self)
        ensures
            r@ == hash_to_g1(message@, dst@),
    {
        G1Point { p: g1_hash_to_curve(message, dst) }
    }

    /// `k * self`. Where `self` is `a * B`, the product is `(a * k) * B`.
    pub fn mul(&self, k: &BlsScalar) -> (r: Self)
        ensures
            r@ == g1_scale(self@, k@),
            forall|b: Seq<u8>, a: nat| #[trigger]
                g1_is_multiple(self@, b, a) ==> r@ == g1_scale(b, scalar_product(a, k@)),
    {
        G1Point { p: g1_mul(&self.p, &k.s) }
    }

    /// `self - other`. Where `self` is `a * B` and `other` is `c * B`, the
    /// difference is `(a - c) * B`.
    pub fn sub(&self, other: &G1Point) -> (r: Self)
        ensures
            r@ == g1_diff(self@, other@),
            forall|b: Seq<u8>, a: nat, c: nat|
                #[trigger] g1_is_multiple(self@, b, a) && #[trigger] g1_is_multiple(other@, b, c)
                    ==> r@ == g1_scale(b, scalar_difference(a, c)),
    {
        G1Point { p: g1_sub(&self.p, &other.p) }
    }

    /// Whether two elements are the same.
    pub fn eq(&self, other: &G1Point) -> (r: bool)
        ensures
            r == (self@ == other@),
    {
        g1_eq(&self.p, &other.p)
    }

    /// The compressed encoding.
    pub fn to_bytes(&self) -> (r: [u8; 48])
        ensures
            r@ == self@,
    {
        g1_to_compressed(&self.p)
    }
}

/// An element of `G2`.
#[derive(Clone, Copy)]
pub struct G2Point {
    p: G2Affine,
}

impl View for G2Point {
    type V = Seq<u8>;

    closed spec fn view(&self) -> Seq<u8> {
        g2_repr(self.p)
    }
}

impl G2Point {
    /// The fixed generator of `G2`.
    pub fn generator() -> (r: Self)
        ensures
            r@ == g2_generator_repr(),
    {
        G2Point { p: g2_generator() }
    }

    /// The element that `message` hashes to under the tag `dst`.
    pub fn hash_to_curve(message: &[u8], dst: &[u8]) -> (r: Self)
        ensures
            r@ == hash_to_g2(message@, dst@),
    {
        G2Point { p: g2_hash_to_curve(message, dst) }
    }

    /// `k * self`.
    pub fn mul(&self, k: &BlsScalar) -> (r: Self)
        ensures
            r@ == g2_scale(self@, k@),
    {
        G2Point { p: g2_mul(&self.p, &k.s) }
    }

    /// The compressed encoding.
    pub fn to_bytes(&self) -> (r: [u8; 96])
        ensures
            r@ == self@,
    {
        g2_to_compressed(&self.p)
    }
}

/// An element of `GT`.
#[derive(Clone, Copy)]
pub struct GtPoint {
    p: Gt,
}

impl View for GtPoint {
    type V = Seq<u8>;

    closed spec fn view(&self) -> Seq<u8> {
        gt_repr(self.p)
    }
}

impl GtPoint {
    /// The pairing `e(p, q)`, which is linear in each argument.
    pub fn pairing(p: &G1Point, q: &G2Point) -> (r: Self)
        ensures
            r@ == pairing_of(p@, q@),
            forall|b: Seq<u8>, k: nat| #[trigger]
                g1_is_multiple(p@, b, k) ==> r@ == gt_scale(pairing_of(b, q@), k),
            forall|b: Seq<u8>, k: nat| #[trigger]
                g2_is_multiple(q@, b, k) ==> r@ == gt_scale(pairing_of(p@, b), k),
    {
        GtPoint { p: gt_pairing(&p.p, &q.p) }
    }

    /// The fixed generator of `GT`: the pairing of the generators of `G1` and `G2`.
    pub fn generator() -> (r: Self)
        ensures
            r@ == pairing_of(g1_generator_repr(), g2_generator_repr()),
    {
        GtPoint { p: gt_generator() }
    }

    /// `self + other`.
    pub fn add(&self, other: &GtPoint) -> (r: Self)
        ensures
            r@ == gt_sum(self@, other@),
    {
        GtPoint { p: gt_add(&self.p, &other.p) }
    }

    /// `self - other`. Where `self` is `a * B` and `other` is `c * B`, the
    /// difference is `(a - c) * B`; where `self` is `other + M`, it is `M`;
    /// and where `self` is `k * X + M` and `other` is `k * Y + M`, it is
    /// `k * (X - Y)`.
    pub fn sub(&self, other: &GtPoint) -> (r: Self)
        ensures
            r@ == gt_diff(self@, other@),
            forall|b: Seq<u8>, a: nat, c: nat|
                #[trigger] gt_is_multiple(self@, b, a) && #[trigger] gt_is_multiple(other@, b, c)
                    ==> r@ == gt_scale(b, scalar_difference(a, c)),
            forall|m: Seq<u8>| #[trigger] gt_is_sum(self@, other@, m) ==> r@ == m,
            forall|x: Seq<u8>, y: Seq<u8>, k: nat, m: Seq<u8>|
                #[trigger] gt_is_sum(self@, gt_scale(x, k), m) && #[trigger] gt_is_sum(
                    other@,
                    gt_scale(y, k),
                    m,
                ) ==> r@ == gt_scale(gt_diff(x, y), k),
    {
        GtPoint { p: gt_sub(&self.p, &other.p) }
    }

    /// `k * self`. Where `self` is `a * B`, the product is `(a * k) * B`.
    pub fn mul(&self, k: &BlsScalar) -> (r: Self)
        ensures
            r@ == gt_scale(self@, k@),
            forall|b: Seq<u8>, a: nat| #[trigger]
                gt_is_multiple(self@, b, a) ==> r@ == gt_scale(b, scalar_product(a, k@)),
    {
        GtPoint { p: gt_mul(&self.p, &k.s) }
    }

    /// Whether two elements are the same.
    pub fn eq(&self, other: &GtPoint) -> (r: bool)
        ensures
            r == (self@ == other@),
    {
        gt_eq(&self.p, &other.p)
    }

    /// The encoding.
    pub fn to_bytes(&self) -> (r: Vec<u8>)
        ensures
            r@ == self@,
    {
        gt_to_bytes(&self.p)
    }
}

} // verus!
