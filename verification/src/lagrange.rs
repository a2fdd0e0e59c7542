//! Lagrange interpolation over a power-of-two evaluation domain.
//!
//! The interpolation itself is the external algebra library's inverse FFT;
//! its defining property — the returned polynomial takes each input value at
//! the corresponding domain element — is what the contract states.

use crate::field::{fr_order, fr_value, pow_mod, Scalar};
use crate::poly::{poly_eval, values, Polynomial};
use crate::utils::{domain_gen, pow2_size};
use vstd::prelude::*;

verus! {

/// Relies on `ark_poly::Evaluations::interpolate` over a
/// `GeneralEvaluationDomain` of the same power-of-two size (at most 2^28,
/// the two-adicity of the BN254 scalar field): the unique polynomial with
/// fewer coefficients than the domain size whose value at the `i`-th domain
/// element (the `i`-th power of the domain's generator) is the `i`-th input.
#[verifier::external_body]
fn interpolate_on_domain(evals: &Vec<Scalar>) -> (r: Vec<Scalar>)
    requires
        pow2_size(evals@.len()),
        evals@.len() <= 0x10000000,
    ensures
        r@.len() <= evals@.len(),
        forall|i: int|
            0 <= i < evals@.len() ==> poly_eval(
                values(r@),
                pow_mod(domain_gen(evals@.len()), i as nat),
            ) == fr_value(evals@[i]) % fr_order(),
{
    let domain = <ark_poly::GeneralEvaluationDomain<ark_bn254::Fr> as ark_poly::EvaluationDomain<
        ark_bn254::Fr,
    >>::new(evals.len()).unwrap();
    let inner: Vec<ark_bn254::Fr> = evals.iter().map(|s| s.inner).collect();
    let interpolated = ark_poly::Evaluations::from_vec_and_domain(inner, domain).interpolate();
    interpolated.coeffs.into_iter().map(|c| Scalar { inner: c }).collect()
}

/// The unique polynomial of degree below `n` whose value at the `i`-th
/// element of the evaluation domain of size `n` is `evals[i]`. The number
/// of evaluations must be a power of two no larger than 2^28, the largest
/// power-of-two subgroup of the scalar field.
pub fn lagrange_interpolate(evals: &Vec<Scalar>) -> (r: Polynomial)
    requires
        pow2_size(evals@.len()),
        evals@.len() <= 0x10000000,
    ensures
        r@.len() <= evals@.len(),
        forall|i: int|
            0 <= i < evals@.len() ==> poly_eval(r@, pow_mod(domain_gen(evals@.len()), i as nat))
                == fr_value(evals@[i]) % fr_order(),
{
    Polynomial { coeffs: interpolate_on_domain(evals) }
}

} // verus!
