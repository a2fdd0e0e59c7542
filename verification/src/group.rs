//! Elements of the two BN254 curve groups and their pairing.
//!
//! The curve and pairing arithmetic is supplied by the external algebra
//! library; this module wraps its group element types. Contracts speak of a
//! group element through its canonical serialization ([`g1_repr`],
//! [`g2_repr`], [`gt_repr`]), which is the same for equal group elements, and
//! of the group operations through uninterpreted functions over those bytes:
//! what the operations compute is the external library's business, the
//! commitment logic only needs that they are functions of their operands.

use crate::field::{fr_value, Scalar};
use vstd::prelude::*;

verus! {

/// One element of the first pairing group, held as the external library's
/// projective point type. The field is public so that callers outside the
/// library can wrap points they produced themselves (generators, random
/// points) and unwrap ours.
#[verifier::external_body]
pub struct G1Point {
    pub inner: ark_bn254::G1Projective,
}

/// One element of the second pairing group.
#[verifier::external_body]
pub struct G2Point {
    pub inner: ark_bn254::G2Projective,
}

/// One element of the pairing's target group.
#[verifier::external_body]
pub struct GtPoint {
    pub inner: ark_ec::pairing::PairingOutput<ark_bn254::Bn254>,
}

/// The canonical byte serialization of a first-group element (what
/// `ark_serialize::CanonicalSerialize::serialize_compressed` yields): equal
/// group elements have equal bytes and the other way round.
pub uninterp spec fn g1_repr(p: G1Point) -> Seq<u8>;

/// The canonical byte serialization of a second-group element.
pub uninterp spec fn g2_repr(p: G2Point) -> Seq<u8>;

/// The canonical byte serialization of a target-group element.
pub uninterp spec fn gt_repr(p: GtPoint) -> Seq<u8>;

/// The serialization of the sum of the two first-group elements with these
/// serializations (what `Add for Projective` computes).
pub uninterp spec fn g1_add_of(a: Seq<u8>, b: Seq<u8>) -> Seq<u8>;

/// The serialization of the difference of the two first-group elements with
/// these serializations (what `Sub for Projective` computes).
pub uninterp spec fn g1_sub_of(a: Seq<u8>, b: Seq<u8>) -> Seq<u8>;

/// The serialization of the first-group element with serialization `p`
/// multiplied by the scalar with canonical integer `s` (what
/// `Mul<Fr> for Projective` computes).
pub uninterp spec fn g1_scale_of(p: Seq<u8>, s: nat) -> Seq<u8>;

/// The serialization of the sum of the two second-group elements with these
/// serializations.
pub uninterp spec fn g2_add_of(a: Seq<u8>, b: Seq<u8>) -> Seq<u8>;

/// The serialization of the difference of the two second-group elements with
/// these serializations.
pub uninterp spec fn g2_sub_of(a: Seq<u8>, b: Seq<u8>) -> Seq<u8>;

/// The serialization of the second-group element with serialization `p`
/// multiplied by the scalar with canonical integer `s`.
pub uninterp spec fn g2_scale_of(p: Seq<u8>, s: nat) -> Seq<u8>;

/// The serialization of the pairing of the two elements with these
/// serializations (what `Pairing::pairing` for BN254 computes).
pub uninterp spec fn pairing_of(a: Seq<u8>, b: Seq<u8>) -> Seq<u8>;

impl G1Point {
    /// Relies on `Add for ark_ec::short_weierstrass::Projective`: the group
    /// sum, a function of the two operands alone.
    #[verifier::external_body]
    pub(crate) fn add(&self, rhs: &G1Point) -> (r: G1Point)
        ensures
            g1_repr(r) == g1_add_of(g1_repr(*self), g1_repr(*rhs)),
    {
        G1Point { inner: self.inner + rhs.inner }
    }

    /// Relies on `Sub for ark_ec::short_weierstrass::Projective`: the group
    /// difference, a function of the two operands alone.
    #[verifier::external_body]
    pub(crate) fn sub(&self, rhs: &G1Point) -> (r: G1Point)
        ensures
            g1_repr(r) == g1_sub_of(g1_repr(*self), g1_repr(*rhs)),
    {
        G1Point { inner: self.inner - rhs.inner }
    }

    /// Relies on `Mul<Fr> for ark_ec::short_weierstrass::Projective`: scalar
    /// multiplication, a function of the point and the scalar alone.
    #[verifier::external_body]
    pub(crate) fn scale(&self, s: &Scalar) -> (r: G1Point)
        ensures
            g1_repr(r) == g1_scale_of(g1_repr(*self), fr_value(*s)),
    {
        G1Point { inner: self.inner * s.inner }
    }

    /// Relies on the point type being `Copy`: the copy is the same group
    /// element.
    #[verifier::external_body]
    pub(crate) fn dup(&self) -> (r: G1Point)
        ensures
            g1_repr(r) == g1_repr(*self),
    {
        G1Point { inner: self.inner }
    }
}

impl G2Point {
    /// Relies on `Add for ark_ec::short_weierstrass::Projective`: the group
    /// sum, a function of the two operands alone.
    #[verifier::external_body]
    pub(crate) fn add(&self, rhs: &G2Point) -> (r: G2Point)
        ensures
            g2_repr(r) == g2_add_of(g2_repr(*self), g2_repr(*rhs)),
    {
        G2Point { inner: self.inner + rhs.inner }
    }

    /// Relies on `Sub for ark_ec::short_weierstrass::Projective`: the group
    /// difference, a function of the two operands alone.
    #[verifier::external_body]
    pub(crate) fn sub(&self, rhs: &G2Point) -> (r: G2Point)
        ensures
            g2_repr(r) == g2_sub_of(g2_repr(*self), g2_repr(*rhs)),
    {
        G2Point { inner: self.inner - rhs.inner }
    }

    /// Relies on `Mul<Fr> for ark_ec::short_weierstrass::Projective`: scalar
    /// multiplication, a function of the point and the scalar alone.
    #[verifier::external_body]
    pub(crate) fn scale(&self, s: &Scalar) -> (r: G2Point)
        ensures
            g2_repr(r) == g2_scale_of(g2_repr(*self), fr_value(*s)),
    {
        G2Point { inner: self.inner * s.inner }
    }

    /// Relies on the point type being `Copy`: the copy is the same group
    /// element.
    #[verifier::external_body]
    pub(crate) fn dup(&self) -> (r: G2Point)
        ensures
            g2_repr(r) == g2_repr(*self),
    {
        G2Point { inner: self.inner }
    }
}

/// Relies on `ark_ec::pairing::Pairing::pairing` for BN254: the bilinear map
/// into the target group, a function of the two points alone.
#[verifier::external_body]
pub(crate) fn pairing(a: &G1Point, b: &G2Point) -> (r: GtPoint)
    ensures
        gt_repr(r) == pairing_of(g1_repr(*a), g2_repr(*b)),
{
    GtPoint { inner: <ark_bn254::Bn254 as ark_ec::pairing::Pairing>::pairing(a.inner, b.inner) }
}

/// Relies on `PartialEq for ark_ec::pairing::PairingOutput` and on the
/// canonical serialization being unique: two target-group elements are equal
/// exactly when their serializations are.
#[verifier::external_body]
pub(crate) fn gt_equals(a: &GtPoint, b: &GtPoint) -> (r: bool)
    ensures
        r == (gt_repr(*a) == gt_repr(*b)),
{
    a.inner == b.inner
}

} // verus!
