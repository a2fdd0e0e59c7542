//! Scalar-field arithmetic of the BN254 pairing curve.
//!
//! The prime field itself is supplied by the external algebra library; a
//! [`Scalar`] carries one of its elements. Every contract in the crate speaks
//! of a scalar through [`fr_value`], the canonical integer it stands for, so
//! that the polynomial and witness logic can be stated and proved as
//! arithmetic modulo [`fr_order`].

use vstd::prelude::*;

verus! {

/// One element of the BN254 scalar field, held as the external library's
/// element type. The field is public so that callers outside the library can
/// wrap elements they produced themselves (for example randomly drawn ones)
/// and unwrap ours.
#[verifier::external_body]
pub struct Scalar {
    pub inner: ark_bn254::Fr,
}

/// The order r of the BN254 scalar field: every `Scalar` stands for an
/// integer in `[0, fr_order())`, and all field arithmetic is modulo this
/// prime.
pub open spec fn fr_order() -> nat {
    21888242871839275222246405745257275088548364400416034343698204186575808495617nat
}

/// The canonical integer representative of a scalar: the integer in
/// `[0, fr_order())` that `ark_ff::PrimeField::into_bigint` yields for its
/// element. Equal integers mean equal field elements and the other way round.
pub uninterp spec fn fr_value(x: Scalar) -> nat;

/// Addition of canonical representatives, modulo r.
pub open spec fn add_mod(a: nat, b: nat) -> nat {
    (((a + b) as int) % (fr_order() as int)) as nat
}

/// Subtraction of canonical representatives, modulo r.
pub open spec fn sub_mod(a: nat, b: nat) -> nat {
    ((a + fr_order() - (b % fr_order())) % (fr_order() as int)) as nat
}

/// Multiplication of canonical representatives, modulo r.
pub open spec fn mul_mod(a: nat, b: nat) -> nat {
    (((a * b) as int) % (fr_order() as int)) as nat
}

/// The additive inverse of a canonical representative, modulo r.
pub open spec fn neg_mod(a: nat) -> nat {
    ((fr_order() - (a % fr_order())) % (fr_order() as int)) as nat
}

/// The `e`-th power of a canonical representative, modulo r.
pub open spec fn pow_mod(b: nat, e: nat) -> nat
    decreases e,
{
    if e == 0 {
        1
    } else {
        mul_mod(b, pow_mod(b, (e - 1) as nat))
    }
}

impl Scalar {
    /// Relies on `From<u64> for ark_ff::Fp`: the integer reduced modulo r.
    /// Every `u64` is below r, so the reduction is the identity.
    #[verifier::external_body]
    pub(crate) fn from_u64(n: u64) -> (r: Scalar)
        ensures
            fr_value(r) == n as nat,
    {
        Scalar { inner: ark_bn254::Fr::from(n) }
    }

    /// Relies on `ark_std::Zero::zero` for `ark_ff::Fp`: the additive
    /// identity, canonical representative 0.
    #[verifier::external_body]
    pub(crate) fn zero() -> (r: Scalar)
        ensures
            fr_value(r) == 0,
    {
        Scalar { inner: <ark_bn254::Fr as ark_std::Zero>::zero() }
    }

    /// Relies on `ark_std::One::one` for `ark_ff::Fp`: the multiplicative
    /// identity, canonical representative 1.
    #[verifier::external_body]
    pub(crate) fn one() -> (r: Scalar)
        ensures
            fr_value(r) == 1,
    {
        Scalar { inner: <ark_bn254::Fr as ark_std::One>::one() }
    }

    /// Relies on `Add for ark_ff::Fp`: addition modulo r.
    #[verifier::external_body]
    pub(crate) fn add(&self, rhs: &Scalar) -> (r: Scalar)
        ensures
            fr_value(r) == add_mod(fr_value(*self), fr_value(*rhs)),
    {
        Scalar { inner: self.inner + rhs.inner }
    }

    /// Relies on `Sub for ark_ff::Fp`: subtraction modulo r.
    #[verifier::external_body]
    pub(crate) fn sub(&self, rhs: &Scalar) -> (r: Scalar)
        ensures
            fr_value(r) == sub_mod(fr_value(*self), fr_value(*rhs)),
    {
        Scalar { inner: self.inner - rhs.inner }
    }

    /// Relies on `Mul for ark_ff::Fp`: multiplication modulo r.
    #[verifier::external_body]
    pub(crate) fn mul(&self, rhs: &Scalar) -> (r: Scalar)
        ensures
            fr_value(r) == mul_mod(fr_value(*self), fr_value(*rhs)),
    {
        Scalar { inner: self.inner * rhs.inner }
    }

    /// Relies on `Neg for ark_ff::Fp`: the additive inverse modulo r.
    #[verifier::external_body]
    pub(crate) fn neg(&self) -> (r: Scalar)
        ensures
            fr_value(r) == neg_mod(fr_value(*self)),
    {
        Scalar { inner: -self.inner }
    }

    /// Relies on `PartialEq for ark_ff::Fp` and on the canonical
    /// representative being unique: two elements are equal exactly when
    /// their integers are.
    #[verifier::external_body]
    pub(crate) fn equals(&self, rhs: &Scalar) -> (r: bool)
        ensures
            r == (fr_value(*self) == fr_value(*rhs)),
    {
        self.inner == rhs.inner
    }

    /// Relies on the element type being `Copy`: the copy stands for the same
    /// integer.
    #[verifier::external_body]
    pub(crate) fn dup(&self) -> (r: Scalar)
        ensures
            fr_value(r) == fr_value(*self),
    {
        Scalar { inner: self.inner }
    }
}

} // verus!
