//! Evaluation domains and the vanishing polynomial.
//!
//! The multiplicative subgroup (the domain of roots of unity) is supplied by
//! the external algebra library; its generator for a given size is named by
//! [`domain_gen`]. The vanishing polynomial and the aligned evaluation
//! vector are this library's own, verified logic.

use crate::field::{fr_value, neg_mod, pow_mod, Scalar};
use crate::poly::{
    lemma_eval_mul, linear_root_poly, poly_add, poly_eval, poly_mul, poly_scale, poly_shift,
    values, Polynomial,
};
use crate::KzgError;
use vstd::arithmetic::div_mod::{lemma_mod_bound, lemma_small_mod};
use vstd::prelude::*;

verus! {

use crate::field::{add_mod, fr_order, mul_mod};

/// The vanishing polynomial of a point set: the product of `X - p` over all
/// its points, and the constant 1 for the empty set.
pub open spec fn zero_poly(pts: Seq<nat>) -> Seq<nat>
    decreases pts.len(),
{
    if pts.len() == 0 {
        seq![1nat]
    } else {
        poly_mul(zero_poly(pts.drop_last()), linear_root_poly(pts.last()))
    }
}

/// The product of two nonempty polynomials has one coefficient fewer than
/// the lengths of its factors added, and its top coefficient is the product
/// of theirs.
proof fn lemma_mul_shape(a: Seq<nat>, b: Seq<nat>)
    requires
        a.len() >= 1,
        b.len() >= 1,
    ensures
        poly_mul(a, b).len() == a.len() + b.len() - 1,
        poly_mul(a, b).last() == mul_mod(a.last(), b.last()),
    decreases a.len(),
{
    let r = fr_order() as int;
    let top = poly_shift(poly_scale(a.last(), b), (a.len() - 1) as nat);
    let low = poly_mul(a.drop_last(), b);
    if a.len() == 1 {
    } else {
        lemma_mul_shape(a.drop_last(), b);
    }
    assert(poly_mul(a, b) == poly_add(low, top));
    assert(top.len() == a.len() + b.len() - 1);
    assert(low.len() < top.len());
    let last = (a.len() + b.len() - 2) as int;
    assert(poly_mul(a, b).last() == add_mod(0, mul_mod(a.last(), b.last())));
    lemma_mod_bound((a.last() * b.last()) as int, r);
    lemma_small_mod(mul_mod(a.last(), b.last()), fr_order());
}

/// The vanishing polynomial of `n` points is monic of degree `n`.
pub proof fn lemma_zero_poly_shape(pts: Seq<nat>)
    ensures
        zero_poly(pts).len() == pts.len() + 1,
        zero_poly(pts).last() == 1,
    decreases pts.len(),
{
    if pts.len() == 0 {
    } else {
        lemma_zero_poly_shape(pts.drop_last());
        lemma_mul_shape(zero_poly(pts.drop_last()), linear_root_poly(pts.last()));
        assert(1nat * 1nat == 1nat) by (nonlinear_arith);
        lemma_small_mod(1nat, fr_order());
    }
}

/// `X - z` evaluates to the additive identity at `z`.
proof fn lemma_linear_root(z: nat)
    ensures
        poly_eval(linear_root_poly(z), z) == 0,
{
    let r = fr_order() as int;
    let lin = linear_root_poly(z);
    let tail = lin.subrange(1, 2);
    assert(tail =~= seq![1nat]);
    assert(tail.subrange(1, 1) =~= Seq::<nat>::empty());
    assert(poly_eval(tail.subrange(1, 1), z) == 0);
    assert(z * 0 == 0) by (nonlinear_arith);
    assert(mul_mod(z, 0) == 0);
    lemma_small_mod(1nat, fr_order());
    assert(poly_eval(tail, z) == add_mod(1, 0));
    assert(add_mod(1, 0) == 1);
    assert(z * 1 == z) by (nonlinear_arith);
    assert(mul_mod(z, 1) == z % fr_order());
    lemma_mod_bound(z as int, r);
    let u = z % fr_order();
    if u == 0 {
        assert(neg_mod(z) == 0);
        assert(poly_eval(lin, z) == add_mod(0, 0));
    } else {
        lemma_small_mod((fr_order() - u) as nat, fr_order());
        assert(neg_mod(z) == fr_order() - u);
        assert(poly_eval(lin, z) == add_mod((fr_order() - u) as nat, u));
    }
}

/// Law: the vanishing polynomial evaluates to the additive identity at
/// every point of its point set.
pub proof fn lemma_zero_poly_vanishes(pts: Seq<nat>, j: int)
    requires
        0 <= j < pts.len(),
    ensures
        poly_eval(zero_poly(pts), pts[j]) == 0,
    decreases pts.len(),
{
    let zp0 = zero_poly(pts.drop_last());
    let lin = linear_root_poly(pts.last());
    let t = pts[j];
    lemma_eval_mul(zp0, lin, t);
    if j == pts.len() - 1 {
        lemma_linear_root(t);
        assert(poly_eval(zp0, t) * 0 == 0) by (nonlinear_arith);
        assert(mul_mod(poly_eval(zp0, t), 0) == 0);
    } else {
        lemma_zero_poly_vanishes(pts.drop_last(), j);
        assert(pts.drop_last()[j] == t);
        assert(0 * poly_eval(lin, t) == 0) by (nonlinear_arith);
        assert(mul_mod(0, poly_eval(lin, t)) == 0);
    }
}

/// The vanishing polynomial `(X - roots[0]) * ... * (X - roots[n-1])` of a
/// nonempty root list: monic, of degree `n`, and the additive identity at
/// every root. An empty root list is rejected.
pub fn build_zero_polynomial(roots: &Vec<Scalar>) -> (r: Result<Polynomial, KzgError>)
    ensures
        r is Ok <==> roots@.len() > 0,
        roots@.len() == 0 ==> r == Err::<Polynomial, KzgError>(KzgError::EmptyInput),
        r matches Ok(p) ==> {
            &&& p@ == zero_poly(values(roots@))
            &&& p@.len() == roots@.len() + 1
            &&& p@.last() == 1
            &&& forall|j: int|
                0 <= j < roots@.len() ==> poly_eval(p@, fr_value(roots@[j])) == 0
        },
{
    if roots.len() == 0 {
        return Err(KzgError::EmptyInput);
    }
    let mut start: Vec<Scalar> = Vec::new();
    start.push(Scalar::one());
    let mut acc = Polynomial { coeffs: start };
    proof {
        assert(acc@ =~= zero_poly(values(roots@).subrange(0, 0)));
    }
    let n = roots.len();
    for i in 0..n
        invariant
            n == roots@.len(),
            acc@ == zero_poly(values(roots@).subrange(0, i as int)),
    {
        let mut lc: Vec<Scalar> = Vec::new();
        lc.push(roots[i].neg());
        lc.push(Scalar::one());
        let lin = Polynomial { coeffs: lc };
        proof {
            assert(lin@ =~= linear_root_poly(fr_value(roots@[i as int])));
        }
        acc = acc.mul(&lin);
        proof {
            let s = values(roots@).subrange(0, i + 1);
            assert(s.drop_last() =~= values(roots@).subrange(0, i as int));
            assert(s.last() == fr_value(roots@[i as int]));
        }
    }
    proof {
        assert(values(roots@).subrange(0, n as int) =~= values(roots@));
        lemma_zero_poly_shape(values(roots@));
        assert forall|j: int| 0 <= j < roots@.len() implies poly_eval(
            acc@,
            fr_value(roots@[j]),
        ) == 0 by {
            lemma_zero_poly_vanishes(values(roots@), j);
        }
    }
    Ok(acc)
}

/// Whether `x` occurs in the index list.
fn contains_index(v: &Vec<usize>, x: usize) -> (r: bool)
    ensures
        r == v@.contains(x),
{
    for i in 0..v.len()
        invariant
            forall|j: int| 0 <= j < i ==> v@[j] != x,
    {
        if v[i] == x {
            return true;
        }
    }
    false
}

/// The evaluation vector aligned to a domain that a multi-point opening
/// claims: at each selected index the polynomial's value at that domain
/// element, everywhere else the additive identity.
pub fn compute_evaluations_for_specific_omegas(
    omegas_indexes: Vec<usize>,
    omega_elements: &Vec<Scalar>,
    p: &Polynomial,
) -> (r: Vec<Scalar>)
    ensures
        r@.len() == omega_elements@.len(),
        forall|i: int|
            0 <= i < r@.len() ==> fr_value(r@[i]) == if omegas_indexes@.contains(i as usize) {
                poly_eval(p@, fr_value(omega_elements@[i]))
            } else {
                0
            },
{
    let mut evaluations: Vec<Scalar> = Vec::new();
    for i in 0..omega_elements.len()
        invariant
            evaluations@.len() == i,
            forall|j: int|
                0 <= j < i ==> fr_value(evaluations@[j]) == if omegas_indexes@.contains(
                    j as usize,
                ) {
                    poly_eval(p@, fr_value(omega_elements@[j]))
                } else {
                    0
                },
    {
        if contains_index(&omegas_indexes, i) {
            let eval = p.evaluate(&omega_elements[i]);
            evaluations.push(eval);
        } else {
            evaluations.push(Scalar::zero());
        }
    }
    evaluations
}

/// Whether `n` is a power of two.
pub open spec fn pow2_size(n: nat) -> bool
    decreases n,
{
    if n == 0 {
        false
    } else if n == 1 {
        true
    } else {
        n % 2 == 0 && pow2_size(n / 2)
    }
}

/// The executable power-of-two check: how a caller establishes the
/// interpolation size precondition at run time.
pub fn is_pow2_size(n: usize) -> (r: bool)
    ensures
        r == pow2_size(n as nat),
{
    if n == 0 {
        return false;
    }
    let mut m = n;
    while m > 1
        invariant
            m >= 1,
            pow2_size(n as nat) == pow2_size(m as nat),
        decreases m,
    {
        if m % 2 == 1 {
            return false;
        }
        m = m / 2;
    }
    true
}

/// The canonical integer of the generator that the external library's
/// evaluation domain of size `n` enumerates its elements by: a fixed
/// primitive root of unity for each constructible size.
pub uninterp spec fn domain_gen(n: nat) -> nat;

/// A multiplicative subgroup domain: its size and its generator, whose
/// powers are the domain's elements.
pub struct EvaluationDomain {
    pub size: usize,
    pub generator: Scalar,
}

/// Relies on `ark_poly::GeneralEvaluationDomain`: `new(n)` yields a domain
/// of some size at least `n` — equal to `n`, and never failing, for a power
/// of two up to 2^28, the two-adicity of the BN254 scalar field (above that
/// the library can fall back to a mixed-radix domain of another size) — and
/// `elements()` enumerates the successive powers of its
/// generator `group_gen()` — a primitive root of unity of the domain's
/// exact size, so the enumerated elements are pairwise distinct and the
/// generator's power at the size is the multiplicative identity.
#[verifier::external_body]
fn domain_elements_raw(n: usize) -> (r: Option<(Scalar, Vec<Scalar>)>)
    ensures
        r matches Some(t) ==> {
            &&& t.1@.len() >= n
            &&& fr_value(t.0) == domain_gen(t.1@.len())
            &&& forall|i: int|
                0 <= i < t.1@.len() ==> fr_value(t.1@[i]) == pow_mod(
                    domain_gen(t.1@.len()),
                    i as nat,
                )
            &&& forall|i: int, j: int|
                0 <= i < j < t.1@.len() ==> fr_value(t.1@[i]) != fr_value(t.1@[j])
            &&& pow_mod(domain_gen(t.1@.len()), t.1@.len()) == 1
        },
        pow2_size(n as nat) && n <= 0x10000000 ==> (r matches Some(t) ==> t.1@.len() == n),
        pow2_size(n as nat) && n <= 0x10000000 ==> r is Some,
{
    let domain = <ark_poly::GeneralEvaluationDomain<ark_bn254::Fr> as ark_poly::EvaluationDomain<
        ark_bn254::Fr,
    >>::new(n)?;
    let generator = Scalar {
        inner: <ark_poly::GeneralEvaluationDomain<ark_bn254::Fr> as ark_poly::EvaluationDomain<
            ark_bn254::Fr,
        >>::group_gen(&domain),
    };
    let elements: Vec<Scalar> = <ark_poly::GeneralEvaluationDomain<
        ark_bn254::Fr,
    > as ark_poly::EvaluationDomain<ark_bn254::Fr>>::elements(&domain).map(
        |e| Scalar { inner: e },
    ).collect();
    Some((generator, elements))
}

/// The evaluation domain of exactly size `n`: the enumerated powers
/// `[g^0, g^1, ..., g^(n-1)]` of a generator `g` of exact multiplicative
/// order `n`, in that fixed order, so the elements are pairwise distinct.
/// Fails with `DomainError` when the external library offers no subgroup of
/// exactly the requested size; a power of two up to 2^28 always succeeds.
pub fn get_omega_domain(n: usize) -> (r: Result<(EvaluationDomain, Vec<Scalar>), KzgError>)
    ensures
        r is Err ==> r == Err::<(EvaluationDomain, Vec<Scalar>), KzgError>(KzgError::DomainError),
        pow2_size(n as nat) && n <= 0x10000000 ==> r is Ok,
        r matches Ok(t) ==> {
            &&& t.1@.len() == n
            &&& t.0.size == n
            &&& fr_value(t.0.generator) == domain_gen(n as nat)
            &&& forall|i: int|
                0 <= i < n ==> fr_value(t.1@[i]) == pow_mod(domain_gen(n as nat), i as nat)
            &&& forall|i: int, j: int|
                0 <= i < j < n ==> fr_value(t.1@[i]) != fr_value(t.1@[j])
            &&& pow_mod(domain_gen(n as nat), n as nat) == 1
        },
{
    match domain_elements_raw(n) {
        Some((generator, elements)) => {
            // the external library rounds a size up rather than failing:
            // only a domain of exactly the requested size is a domain here
            if elements.len() != n {
                return Err(KzgError::DomainError);
            }
            Ok((EvaluationDomain { size: n, generator }, elements))
        },
        None => Err(KzgError::DomainError),
    }
}

} // verus!
