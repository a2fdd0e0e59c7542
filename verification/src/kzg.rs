//! The KZG-style polynomial commitment engine: trusted setup, commitment,
//! single-point and multi-point opening, and the pairing checks that verify
//! openings.
//!
//! The contracts pin every produced group element down as a multi-scalar
//! product of the reference string, written with the uninterpreted group
//! operations of [`crate::group`], and say exactly on which inputs each
//! operation succeeds and which error it reports otherwise.

use crate::field::{fr_value, pow_mod, Scalar};
use crate::group::{
    g1_add_of, g1_repr, g1_scale_of, g1_sub_of, g2_add_of, g2_repr, g2_scale_of, g2_sub_of,
    gt_repr, pairing, pairing_of, G1Point, G2Point,
};
use crate::field::{add_mod, fr_order, mul_mod};
use crate::poly::{
    coef, is_zero_poly, lemma_divmod_identity, lemma_eval_add, lemma_eval_all_zero,
    lemma_eval_bound, lemma_eval_congruence, lemma_eval_mul, lemma_eval_sub, poly_add, poly_divmod,
    poly_eval, poly_mul, poly_sub, synth_quotient, values, Polynomial,
};
use crate::utils::{build_zero_polynomial, zero_poly};
use crate::KzgError;
use vstd::prelude::*;

verus! {

/// The serializations of a vector of first-group points.
pub open spec fn g1_reprs(s: Seq<G1Point>) -> Seq<Seq<u8>> {
    s.map(|i: int, p: G1Point| g1_repr(p))
}

/// The serializations of a vector of second-group points.
pub open spec fn g2_reprs(s: Seq<G2Point>) -> Seq<Seq<u8>> {
    s.map(|i: int, p: G2Point| g2_repr(p))
}

/// The multi-scalar product `cs[0] * ps[0] + ... + cs[n-1] * ps[n-1]` in the
/// first group, for a nonempty `cs` no longer than `ps`, summed left to
/// right.
pub open spec fn msm_g1(cs: Seq<nat>, ps: Seq<Seq<u8>>) -> Seq<u8>
    decreases cs.len(),
{
    if cs.len() == 0 {
        Seq::empty()
    } else if cs.len() == 1 {
        g1_scale_of(ps[0], cs[0])
    } else {
        g1_add_of(msm_g1(cs.drop_last(), ps), g1_scale_of(ps[cs.len() - 1], cs.last()))
    }
}

/// The multi-scalar product in the second group.
pub open spec fn msm_g2(cs: Seq<nat>, ps: Seq<Seq<u8>>) -> Seq<u8>
    decreases cs.len(),
{
    if cs.len() == 0 {
        Seq::empty()
    } else if cs.len() == 1 {
        g2_scale_of(ps[0], cs[0])
    } else {
        g2_add_of(msm_g2(cs.drop_last(), ps), g2_scale_of(ps[cs.len() - 1], cs.last()))
    }
}

/// The commitment to a coefficient sequence under a reference string: its
/// multi-scalar product, where an empty polynomial is read as the single
/// coefficient 0.
pub open spec fn commitment_of(cs: Seq<nat>, ps: Seq<Seq<u8>>) -> Seq<u8> {
    if cs.len() == 0 {
        g1_scale_of(ps[0], 0)
    } else {
        msm_g1(cs, ps)
    }
}

/// The commitment to a coefficient sequence under the second-group
/// reference string.
pub open spec fn commitment2_of(cs: Seq<nat>, ps: Seq<Seq<u8>>) -> Seq<u8> {
    if cs.len() == 0 {
        g2_scale_of(ps[0], 0)
    } else {
        msm_g2(cs, ps)
    }
}

/// The multi-scalar product of a coefficient vector with a prefix of the
/// reference string.
fn msm_g1_vec(ps: &Vec<G1Point>, cs: &Vec<Scalar>) -> (r: G1Point)
    requires
        1 <= ps@.len(),
        cs@.len() <= ps@.len(),
    ensures
        g1_repr(r) == commitment_of(values(cs@), g1_reprs(ps@)),
{
    if cs.len() == 0 {
        return ps[0].scale(&Scalar::zero());
    }
    let mut acc = ps[0].scale(&cs[0]);
    for i in 1..cs.len()
        invariant
            cs@.len() <= ps@.len(),
            1 <= i <= cs@.len(),
            g1_repr(acc) == msm_g1(values(cs@).subrange(0, i as int), g1_reprs(ps@)),
    {
        let term = ps[i].scale(&cs[i]);
        acc = acc.add(&term);
        proof {
            let s = values(cs@).subrange(0, i + 1);
            assert(s.drop_last() =~= values(cs@).subrange(0, i as int));
            assert(s.last() == fr_value(cs@[i as int]));
        }
    }
    proof {
        assert(values(cs@).subrange(0, cs@.len() as int) =~= values(cs@));
    }
    acc
}

/// The multi-scalar product of a coefficient vector with a prefix of the
/// second-group reference string.
fn msm_g2_vec(ps: &Vec<G2Point>, cs: &Vec<Scalar>) -> (r: G2Point)
    requires
        1 <= ps@.len(),
        cs@.len() <= ps@.len(),
    ensures
        g2_repr(r) == commitment2_of(values(cs@), g2_reprs(ps@)),
{
    if cs.len() == 0 {
        return ps[0].scale(&Scalar::zero());
    }
    let mut acc = ps[0].scale(&cs[0]);
    for i in 1..cs.len()
        invariant
            cs@.len() <= ps@.len(),
            1 <= i <= cs@.len(),
            g2_repr(acc) == msm_g2(values(cs@).subrange(0, i as int), g2_reprs(ps@)),
    {
        let term = ps[i].scale(&cs[i]);
        acc = acc.add(&term);
        proof {
            let s = values(cs@).subrange(0, i + 1);
            assert(s.drop_last() =~= values(cs@).subrange(0, i as int));
            assert(s.last() == fr_value(cs@[i as int]));
        }
    }
    proof {
        assert(values(cs@).subrange(0, cs@.len() as int) =~= values(cs@));
    }
    acc
}

/// The quotient of dividing `p - l` by the vanishing polynomial of the
/// point set: the polynomial a multi-point opening commits to.
pub open spec fn multi_open_quotient(p: Seq<nat>, l: Seq<nat>, pts: Seq<nat>) -> Seq<nat> {
    poly_divmod(poly_sub(p, l), zero_poly(pts)).0
}

/// The remainder of that division: the zero polynomial exactly when `l`
/// agrees with `p` on the whole point set.
pub open spec fn multi_open_remainder(p: Seq<nat>, l: Seq<nat>, pts: Seq<nat>) -> Seq<nat> {
    poly_divmod(poly_sub(p, l), zero_poly(pts)).1
}

/// Law: a zero remainder in a multi-point opening means the claimed
/// evaluations polynomial really agrees with the committed polynomial at
/// every point of the opened set — the engine never hands out a proof for
/// a false claim. (The converse, that agreement always leaves a zero
/// remainder, rests on unique factorization over the prime field and is
/// not developed here.)
pub proof fn lemma_multi_open_exactness(p: Seq<nat>, l: Seq<nat>, pts: Seq<nat>, j: int)
    requires
        0 <= j < pts.len(),
        is_zero_poly(multi_open_remainder(p, l, pts)),
    ensures
        poly_eval(p, pts[j]) == poly_eval(l, pts[j]),
{
    let r = fr_order() as int;
    let t = pts[j];
    let z = zero_poly(pts);
    let num = poly_sub(p, l);
    let q = poly_divmod(num, z).0;
    let rem = poly_divmod(num, z).1;
    crate::utils::lemma_zero_poly_shape(pts);
    lemma_divmod_identity(num, z);
    let rec = poly_add(poly_mul(q, z), rem);
    // the recomposition has the coefficients of p - l, modulo r
    assert forall|i: int| 0 <= i < num.len() implies num[i] % fr_order() == rec[i]
        % fr_order() by {
        vstd::arithmetic::div_mod::lemma_mod_bound((coef(poly_mul(q, z), i) + coef(rem, i)) as int, r);
        vstd::arithmetic::div_mod::lemma_small_mod(rec[i], fr_order());
    }
    lemma_eval_congruence(num, rec, t);
    lemma_eval_add(poly_mul(q, z), rem, t);
    lemma_eval_all_zero(rem, t);
    lemma_eval_mul(q, z, t);
    crate::utils::lemma_zero_poly_vanishes(pts, j);
    assert(poly_eval(q, t) * 0 == 0) by (nonlinear_arith);
    assert(mul_mod(poly_eval(q, t), 0) == 0);
    assert(add_mod(0, 0) == 0);
    assert(poly_eval(num, t) == 0);
    lemma_eval_sub(p, l, t);
    // a zero difference of two values below r means they are equal
    let ep = poly_eval(p, t);
    let el = poly_eval(l, t);
    lemma_eval_bound(p, t);
    lemma_eval_bound(l, t);
    vstd::arithmetic::div_mod::lemma_small_mod(el, fr_order());
    let x = (ep + fr_order() - el) as int;
    vstd::arithmetic::div_mod::lemma_fundamental_div_mod(x, r);
    assert(x / r == 1) by (nonlinear_arith)
        requires
            r > 0,
            x == r * (x / r),
            0 < x < 2 * r,
    ;
}

/// The commitment engine. `degree` is the largest polynomial degree the
/// reference string supports; `crs` and `crs_2` hold `degree + 1` powers of
/// the secret evaluation point in either group once `setup` has run, and
/// `vk` is the verification key.
pub struct KZG {
    pub g1: G1Point,
    pub g2: G2Point,
    pub degree: usize,
    pub crs: Vec<G1Point>,
    pub crs_2: Vec<G2Point>,
    pub vk: G2Point,
}

impl KZG {
    /// Whether `setup` has populated the reference string: only then may
    /// commitments, openings and verifications be asked for.
    pub open spec fn ready(self) -> bool {
        &&& self.crs@.len() == self.degree as int + 1
        &&& self.crs_2@.len() == self.degree as int + 1
    }

    /// The serializations of the first-group reference string.
    pub open spec fn crs1_spec(self) -> Seq<Seq<u8>> {
        g1_reprs(self.crs@)
    }

    /// The serializations of the second-group reference string.
    pub open spec fn crs2_spec(self) -> Seq<Seq<u8>> {
        g2_reprs(self.crs_2@)
    }

    /// Whether the reference string has been populated; `false` also when
    /// `degree` is the largest machine integer, since no vector can hold
    /// `degree + 1` points then.
    fn is_ready(&self) -> (r: bool)
        ensures
            r == self.ready(),
    {
        let l1 = self.crs.len();
        let l2 = self.crs_2.len();
        if self.degree == usize::MAX {
            false
        } else {
            l1 == self.degree + 1 && l2 == self.degree + 1
        }
    }

    /// A fresh, not yet set up engine for polynomials of degree at most
    /// `degree` over the two given generators.
    pub fn new(g1: G1Point, g2: G2Point, degree: usize) -> (r: KZG)
        requires
            degree < usize::MAX,
        ensures
            g1_repr(r.g1) == g1_repr(g1),
            g2_repr(r.g2) == g2_repr(g2),
            g2_repr(r.vk) == g2_repr(g2),
            r.degree == degree,
            r.crs@.len() == 0,
            r.crs_2@.len() == 0,
            !r.ready(),
    {
        let vk = g2.dup();
        KZG { g1, g2, degree, crs: Vec::new(), crs_2: Vec::new(), vk }
    }

    /// Trusted setup from the secret scalar `tau`: fills both reference
    /// strings with the powers of `tau` behind the generators,
    /// `crs[i] = tau^i * g1` and `crs_2[i] = tau^i * g2`, and sets the
    /// verification key to `tau * g2`. Running it again starts a fresh
    /// reference string. The caller must discard `tau` afterwards; the
    /// engine does not keep it.
    pub fn setup(&mut self, tau: &Scalar)
        requires
            old(self).degree < usize::MAX,
        ensures
            final(self).degree == old(self).degree,
            g1_repr(final(self).g1) == g1_repr(old(self).g1),
            g2_repr(final(self).g2) == g2_repr(old(self).g2),
            final(self).ready(),
            forall|i: int|
                0 <= i <= old(self).degree ==> g1_repr(final(self).crs@[i]) == g1_scale_of(
                    g1_repr(old(self).g1),
                    pow_mod(fr_value(*tau), i as nat),
                ),
            forall|i: int|
                0 <= i <= old(self).degree ==> g2_repr(final(self).crs_2@[i]) == g2_scale_of(
                    g2_repr(old(self).g2),
                    pow_mod(fr_value(*tau), i as nat),
                ),
            g2_repr(final(self).vk) == g2_scale_of(g2_repr(old(self).g2), fr_value(*tau)),
    {
        let vk = self.g2.scale(tau);
        let mut crs: Vec<G1Point> = Vec::new();
        let mut crs_2: Vec<G2Point> = Vec::new();
        let mut t = Scalar::one();
        let n = self.degree + 1;
        for i in 0..n
            invariant
                n == self.degree + 1,
                self.degree == old(self).degree,
                g1_repr(self.g1) == g1_repr(old(self).g1),
                g2_repr(self.g2) == g2_repr(old(self).g2),
                fr_value(t) == pow_mod(fr_value(*tau), i as nat),
                crs@.len() == i,
                crs_2@.len() == i,
                forall|j: int|
                    0 <= j < i ==> g1_repr(crs@[j]) == g1_scale_of(
                        g1_repr(old(self).g1),
                        pow_mod(fr_value(*tau), j as nat),
                    ),
                forall|j: int|
                    0 <= j < i ==> g2_repr(crs_2@[j]) == g2_scale_of(
                        g2_repr(old(self).g2),
                        pow_mod(fr_value(*tau), j as nat),
                    ),
        {
            let p1 = self.g1.scale(&t);
            crs.push(p1);
            let p2 = self.g2.scale(&t);
            crs_2.push(p2);
            t = tau.mul(&t);
        }
        self.crs = crs;
        self.crs_2 = crs_2;
        self.vk = vk;
    }

    /// The commitment to `polynomial`: the multi-scalar product of its
    /// coefficients with the first-group reference string. Fails with
    /// `Uninitialized` before `setup`, and with `DegreeExceeded` when the
    /// polynomial has more coefficients than the reference string holds.
    pub fn commit(&self, polynomial: &Polynomial) -> (r: Result<G1Point, KzgError>)
        ensures
            r is Ok <==> (self.ready() && polynomial@.len() <= self.degree + 1),
            !self.ready() ==> r == Err::<G1Point, KzgError>(KzgError::Uninitialized),
            self.ready() && polynomial@.len() > self.degree + 1 ==> r == Err::<
                G1Point,
                KzgError,
            >(KzgError::DegreeExceeded),
            r matches Ok(c) ==> g1_repr(c) == commitment_of(polynomial@, self.crs1_spec()),
    {
        if !self.is_ready() {
            return Err(KzgError::Uninitialized);
        }
        let crs_len = self.crs.len();
        proof {
            assert(crs_len == self.degree + 1);
        }
        if polynomial.coeffs.len() > self.degree + 1 {
            return Err(KzgError::DegreeExceeded);
        }
        Ok(msm_g1_vec(&self.crs, &polynomial.coeffs))
    }

    /// The opening proof for the claim `polynomial(z) == y`: the commitment
    /// to the quotient `(polynomial - y) / (X - z)`, whose coefficients are
    /// the Horner suffixes of `polynomial` at `z`. The claim is checked
    /// first: a claimed value that is not the true evaluation leaves a
    /// nonzero division remainder and is reported as `ProofInconsistency`
    /// rather than turned into a proof that cannot verify.
    pub fn open(&self, polynomial: &Polynomial, z: &Scalar, y: &Scalar) -> (r: Result<
        G1Point,
        KzgError,
    >)
        ensures
            r is Ok <==> (self.ready() && polynomial@.len() <= self.degree + 1 && poly_eval(
                polynomial@,
                fr_value(*z),
            ) == fr_value(*y)),
            !self.ready() ==> r == Err::<G1Point, KzgError>(KzgError::Uninitialized),
            self.ready() && polynomial@.len() > self.degree + 1 ==> r == Err::<
                G1Point,
                KzgError,
            >(KzgError::DegreeExceeded),
            self.ready() && polynomial@.len() <= self.degree + 1 && poly_eval(
                polynomial@,
                fr_value(*z),
            ) != fr_value(*y) ==> r == Err::<G1Point, KzgError>(KzgError::ProofInconsistency),
            r matches Ok(pi) ==> g1_repr(pi) == commitment_of(
                synth_quotient(polynomial@, fr_value(*z)),
                self.crs1_spec(),
            ),
    {
        if !self.is_ready() {
            return Err(KzgError::Uninitialized);
        }
        let crs_len = self.crs.len();
        proof {
            assert(crs_len == self.degree + 1);
        }
        if polynomial.coeffs.len() > self.degree + 1 {
            return Err(KzgError::DegreeExceeded);
        }
        let eval = polynomial.evaluate(z);
        if !eval.equals(y) {
            return Err(KzgError::ProofInconsistency);
        }
        let n = polynomial.coeffs.len();
        let mut rev: Vec<Scalar> = Vec::new();
        let mut acc = Scalar::zero();
        let mut i = n;
        while i > 1
            invariant
                1 <= i <= n || (n == 0 && i == 0),
                n == polynomial.coeffs@.len(),
                fr_value(acc) == poly_eval(polynomial@.subrange(i as int, n as int), fr_value(*z)),
                rev@.len() == n - i,
                forall|l: int|
                    0 <= l < rev@.len() ==> fr_value(rev@[l]) == poly_eval(
                        polynomial@.subrange(n - 1 - l, n as int),
                        fr_value(*z),
                    ),
            decreases i,
        {
            i = i - 1;
            acc = polynomial.coeffs[i].add(&z.mul(&acc));
            proof {
                assert(polynomial@.subrange(i as int, n as int).subrange(
                    1,
                    (n - i) as int,
                ) =~= polynomial@.subrange(i + 1, n as int));
            }
            rev.push(acc.dup());
        }
        let mut q: Vec<Scalar> = Vec::new();
        let m = rev.len();
        for l in 0..m
            invariant
                m == rev@.len(),
                m + 1 == n || (n == 0 && m == 0),
                n == polynomial.coeffs@.len(),
                q@.len() == l,
                forall|j: int|
                    0 <= j < m ==> fr_value(rev@[j]) == poly_eval(
                        polynomial@.subrange(n - 1 - j, n as int),
                        fr_value(*z),
                    ),
                forall|j: int|
                    0 <= j < l ==> fr_value(q@[j]) == poly_eval(
                        polynomial@.subrange(j + 1, n as int),
                        fr_value(*z),
                    ),
        {
            q.push(rev[m - 1 - l].dup());
        }
        proof {
            assert(values(q@) =~= synth_quotient(polynomial@, fr_value(*z)));
        }
        let quotient = Polynomial { coeffs: q };
        match self.commit(&quotient) {
            Ok(pi) => Ok(pi),
            Err(_) => {
                proof {
                    assert(false);
                }
                Err(KzgError::Uninitialized)
            },
        }
    }

    /// The opening proof for the claim that `polynomial` agrees with
    /// `lagrange_polynomial` at every point of `z_values`: the commitment to
    /// the quotient `(polynomial - lagrange_polynomial) / Z`, where `Z` is
    /// the vanishing polynomial of `z_values`
    /// (`crate::poly::lemma_divmod_identity` is the proof that quotient and
    /// remainder recompose the dividend). An empty point set is
    /// rejected as `EmptyInput`; a claimed `lagrange_polynomial` that does
    /// not agree with `polynomial` on the point set leaves a nonzero
    /// division remainder and is reported as `ProofInconsistency`; a
    /// quotient beyond the reference string is `DegreeExceeded`.
    pub fn multi_open(
        &self,
        polynomial: &Polynomial,
        lagrange_polynomial: &Polynomial,
        z_values: &Vec<Scalar>,
    ) -> (r: Result<G1Point, KzgError>)
        ensures
            r is Ok <==> (self.ready() && z_values@.len() > 0 && is_zero_poly(
                multi_open_remainder(polynomial@, lagrange_polynomial@, values(z_values@)),
            ) && multi_open_quotient(polynomial@, lagrange_polynomial@, values(z_values@)).len()
                <= self.degree + 1),
            !self.ready() ==> r == Err::<G1Point, KzgError>(KzgError::Uninitialized),
            self.ready() && z_values@.len() == 0 ==> r == Err::<G1Point, KzgError>(
                KzgError::EmptyInput,
            ),
            self.ready() && z_values@.len() > 0 && !is_zero_poly(
                multi_open_remainder(polynomial@, lagrange_polynomial@, values(z_values@)),
            ) ==> r == Err::<G1Point, KzgError>(KzgError::ProofInconsistency),
            self.ready() && z_values@.len() > 0 && is_zero_poly(
                multi_open_remainder(polynomial@, lagrange_polynomial@, values(z_values@)),
            ) && multi_open_quotient(polynomial@, lagrange_polynomial@, values(z_values@)).len()
                > self.degree + 1 ==> r == Err::<G1Point, KzgError>(KzgError::DegreeExceeded),
            r matches Ok(pi) ==> g1_repr(pi) == commitment_of(
                multi_open_quotient(polynomial@, lagrange_polynomial@, values(z_values@)),
                self.crs1_spec(),
            ),
    {
        if !self.is_ready() {
            return Err(KzgError::Uninitialized);
        }
        let zero_polynomial = match build_zero_polynomial(z_values) {
            Ok(z) => z,
            Err(e) => {
                return Err(e);
            },
        };
        let numerator = polynomial.sub(lagrange_polynomial);
        let (q, rem) = numerator.div_rem(&zero_polynomial);
        if !rem.is_zero() {
            return Err(KzgError::ProofInconsistency);
        }
        match self.commit(&q) {
            Ok(pi) => Ok(pi),
            Err(e) => {
                proof {
                    assert(e == KzgError::DegreeExceeded);
                }
                Err(e)
            },
        }
    }

    /// The shared pairing check: whether
    /// `e(pi, vk - z * g2) == e(commitment - py, g2)`, where `py` is the
    /// claimed evaluation already lifted to the first group.
    fn pairing_check(&self, py: &G1Point, z: &Scalar, commitment: &G1Point, pi: &G1Point) -> (r:
        bool)
        ensures
            r == (pairing_of(
                g1_repr(*pi),
                g2_sub_of(g2_repr(self.vk), g2_scale_of(g2_repr(self.g2), fr_value(*z))),
            ) == pairing_of(g1_sub_of(g1_repr(*commitment), g1_repr(*py)), g2_repr(self.g2))),
    {
        let pz = self.g2.scale(z);
        let left = pairing(pi, &self.vk.sub(&pz));
        let right = pairing(&commitment.sub(py), &self.g2);
        crate::group::gt_equals(&left, &right)
    }

    /// Whether `pi` proves that the polynomial behind `commitment` takes the
    /// value `y` at `z`: the pairing check
    /// `e(pi, vk - z * g2) == e(commitment - y * g1, g2)`. Fails with
    /// `Uninitialized` before `setup`.
    pub fn verify(&self, y: &Scalar, z: &Scalar, commitment: &G1Point, pi: &G1Point) -> (r: Result<
        bool,
        KzgError,
    >)
        ensures
            r is Ok <==> self.ready(),
            !self.ready() ==> r == Err::<bool, KzgError>(KzgError::Uninitialized),
            r matches Ok(b) ==> b == (pairing_of(
                g1_repr(*pi),
                g2_sub_of(g2_repr(self.vk), g2_scale_of(g2_repr(self.g2), fr_value(*z))),
            ) == pairing_of(
                g1_sub_of(g1_repr(*commitment), g1_scale_of(g1_repr(self.g1), fr_value(*y))),
                g2_repr(self.g2),
            )),
    {
        if !self.is_ready() {
            return Err(KzgError::Uninitialized);
        }
        let py = self.g1.scale(y);
        Ok(self.pairing_check(&py, z, commitment, pi))
    }

    /// The same check as `verify`, but with the claimed evaluation supplied
    /// already encrypted as `py = y * g1`, so that an evaluation can be
    /// checked against another commitment without revealing it.
    pub fn verify_from_encrypted_y(
        &self,
        py: &G1Point,
        z: &Scalar,
        commitment: &G1Point,
        pi: &G1Point,
    ) -> (r: Result<bool, KzgError>)
        ensures
            r is Ok <==> self.ready(),
            !self.ready() ==> r == Err::<bool, KzgError>(KzgError::Uninitialized),
            r matches Ok(b) ==> b == (pairing_of(
                g1_repr(*pi),
                g2_sub_of(g2_repr(self.vk), g2_scale_of(g2_repr(self.g2), fr_value(*z))),
            ) == pairing_of(g1_sub_of(g1_repr(*commitment), g1_repr(*py)), g2_repr(self.g2))),
    {
        if !self.is_ready() {
            return Err(KzgError::Uninitialized);
        }
        Ok(self.pairing_check(py, z, commitment, pi))
    }

    /// Whether `pi` proves a multi-point opening: the pairing check
    /// `e(pi, commit_2(Z)) == e(commitment - commit(L), g2)`, with the
    /// vanishing polynomial `Z` committed under the second-group reference
    /// string and the claimed evaluations polynomial `L` under the first.
    /// Either polynomial beyond the reference string is `DegreeExceeded`.
    pub fn verify_multi_open(
        &self,
        commitment: &G1Point,
        pi: &G1Point,
        zero_polynomial: &Polynomial,
        lagrange_polynomial: &Polynomial,
    ) -> (r: Result<bool, KzgError>)
        ensures
            r is Ok <==> (self.ready() && zero_polynomial@.len() <= self.degree + 1
                && lagrange_polynomial@.len() <= self.degree + 1),
            !self.ready() ==> r == Err::<bool, KzgError>(KzgError::Uninitialized),
            self.ready() && (zero_polynomial@.len() > self.degree + 1 || lagrange_polynomial@.len()
                > self.degree + 1) ==> r == Err::<bool, KzgError>(KzgError::DegreeExceeded),
            r matches Ok(b) ==> b == (pairing_of(
                g1_repr(*pi),
                commitment2_of(zero_polynomial@, self.crs2_spec()),
            ) == pairing_of(
                g1_sub_of(
                    g1_repr(*commitment),
                    commitment_of(lagrange_polynomial@, self.crs1_spec()),
                ),
                g2_repr(self.g2),
            )),
    {
        if !self.is_ready() {
            return Err(KzgError::Uninitialized);
        }
        let crs_len = self.crs.len();
        proof {
            assert(crs_len == self.degree + 1);
        }
        if zero_polynomial.coeffs.len() > self.degree + 1 || lagrange_polynomial.coeffs.len()
            > self.degree + 1 {
            return Err(KzgError::DegreeExceeded);
        }
        let pz = msm_g2_vec(&self.crs_2, &zero_polynomial.coeffs);
        let py = msm_g1_vec(&self.crs, &lagrange_polynomial.coeffs);
        let left = pairing(pi, &pz);
        let right = pairing(&commitment.sub(&py), &self.g2);
        Ok(crate::group::gt_equals(&left, &right))
    }
}

} // verus!
