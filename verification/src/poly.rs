//! Dense univariate polynomials over the BN254 scalar field.
//!
//! A polynomial is its coefficient sequence, low degree first. The
//! specification-level model of a polynomial is the sequence of canonical
//! integers of its coefficients; every operation here is stated against a
//! spec-level counterpart on such sequences, with all coefficient arithmetic
//! modulo [`fr_order`].

use crate::field::{add_mod, fr_order, fr_value, mul_mod, neg_mod, sub_mod, Scalar};
use vstd::prelude::*;

verus! {

/// The canonical integers of a coefficient sequence.
pub open spec fn values(s: Seq<Scalar>) -> Seq<nat> {
    s.map(|i: int, x: Scalar| fr_value(x))
}

/// The coefficient of `X^i` in `c`, with absent coefficients read as 0.
pub open spec fn coef(c: Seq<nat>, i: int) -> nat {
    if 0 <= i < c.len() {
        c[i]
    } else {
        0
    }
}

/// Coefficient-wise sum modulo r, the shorter operand padded with 0.
pub open spec fn poly_add(a: Seq<nat>, b: Seq<nat>) -> Seq<nat> {
    Seq::new(
        if a.len() >= b.len() {
            a.len()
        } else {
            b.len()
        },
        |i: int| add_mod(coef(a, i), coef(b, i)),
    )
}

/// Coefficient-wise difference modulo r, the shorter operand padded with 0.
pub open spec fn poly_sub(a: Seq<nat>, b: Seq<nat>) -> Seq<nat> {
    Seq::new(
        if a.len() >= b.len() {
            a.len()
        } else {
            b.len()
        },
        |i: int| sub_mod(coef(a, i), coef(b, i)),
    )
}

/// Every coefficient multiplied by `c`, modulo r.
pub open spec fn poly_scale(c: nat, b: Seq<nat>) -> Seq<nat> {
    Seq::new(b.len(), |i: int| mul_mod(c, b[i]))
}

/// The polynomial multiplied by `X^k`: `k` zero coefficients in front.
pub open spec fn poly_shift(p: Seq<nat>, k: nat) -> Seq<nat> {
    Seq::new(p.len() + k, |i: int| if i < k { 0 } else { p[i - k] })
}

/// The product of the two polynomials, developed over the coefficients of
/// `a`: `(a' + a_top X^(n-1)) * b == a' * b + X^(n-1) (a_top * b)`.
pub open spec fn poly_mul(a: Seq<nat>, b: Seq<nat>) -> Seq<nat>
    decreases a.len(),
{
    if a.len() == 0 {
        Seq::empty()
    } else {
        poly_add(
            poly_mul(a.drop_last(), b),
            poly_shift(poly_scale(a.last(), b), (a.len() - 1) as nat),
        )
    }
}

/// Horner evaluation of the polynomial at `x`, modulo r.
pub open spec fn poly_eval(c: Seq<nat>, x: nat) -> nat
    decreases c.len(),
{
    if c.len() == 0 {
        0
    } else {
        add_mod(c[0], mul_mod(x, poly_eval(c.subrange(1, c.len() as int), x)))
    }
}

/// Long division of `num` by a monic `den`: one reduction step subtracts
/// `lead * X^k * den` from `num`, cancelling the top coefficient, and the
/// quotient gains `lead` as its coefficient of `X^k`. Meaningful only for a
/// monic divisor (top coefficient 1).
pub open spec fn poly_divmod(num: Seq<nat>, den: Seq<nat>) -> (Seq<nat>, Seq<nat>)
    decreases num.len(),
{
    if den.len() == 0 || num.len() < den.len() {
        (Seq::empty(), num)
    } else {
        let lead = num.last();
        let k = (num.len() - den.len()) as nat;
        let reduced = poly_sub(num, poly_shift(poly_scale(lead, den), k)).drop_last();
        let qr = poly_divmod(reduced, den);
        (qr.0.push(lead), qr.1)
    }
}

/// The quotient of dividing `c` by the monic linear polynomial `X - z`:
/// its coefficient of `X^i` is the Horner suffix evaluation of the
/// coefficients of `c` above `X^i`, so that `c == q * (X - z) + c(z)`.
pub open spec fn synth_quotient(c: Seq<nat>, z: nat) -> Seq<nat> {
    Seq::new(
        if c.len() == 0 {
            0
        } else {
            (c.len() - 1) as nat
        },
        |i: int| poly_eval(c.subrange(i + 1, c.len() as int), z),
    )
}

/// Whether every coefficient is 0: the zero polynomial in any length.
pub open spec fn is_zero_poly(c: Seq<nat>) -> bool {
    forall|i: int| 0 <= i < c.len() ==> c[i] == 0
}

/// A dense polynomial: the coefficient of `X^i` is `coeffs[i]`. The field is
/// public so that callers outside the library can build polynomials from
/// coefficients they produced themselves.
pub struct Polynomial {
    pub coeffs: Vec<Scalar>,
}

impl View for Polynomial {
    type V = Seq<nat>;

    open spec fn view(&self) -> Seq<nat> {
        values(self.coeffs@)
    }
}

/// Coefficient-wise sum of two coefficient vectors.
fn add_vecs(a: &Vec<Scalar>, b: &Vec<Scalar>) -> (r: Vec<Scalar>)
    ensures
        values(r@) == poly_add(values(a@), values(b@)),
{
    let n: usize = if a.len() >= b.len() {
        a.len()
    } else {
        b.len()
    };
    let mut out: Vec<Scalar> = Vec::new();
    for i in 0..n
        invariant
            n == if a@.len() >= b@.len() {
                a@.len()
            } else {
                b@.len()
            },
            out@.len() == i,
            forall|j: int|
                0 <= j < i ==> fr_value(out@[j]) == add_mod(coef(values(a@), j), coef(values(b@), j)),
    {
        let av = if i < a.len() {
            a[i].dup()
        } else {
            Scalar::zero()
        };
        let bv = if i < b.len() {
            b[i].dup()
        } else {
            Scalar::zero()
        };
        out.push(av.add(&bv));
    }
    proof {
        assert(values(out@) =~= poly_add(values(a@), values(b@)));
    }
    out
}

/// Coefficient-wise difference of two coefficient vectors.
fn sub_vecs(a: &Vec<Scalar>, b: &Vec<Scalar>) -> (r: Vec<Scalar>)
    ensures
        values(r@) == poly_sub(values(a@), values(b@)),
{
    let n: usize = if a.len() >= b.len() {
        a.len()
    } else {
        b.len()
    };
    let mut out: Vec<Scalar> = Vec::new();
    for i in 0..n
        invariant
            n == if a@.len() >= b@.len() {
                a@.len()
            } else {
                b@.len()
            },
            out@.len() == i,
            forall|j: int|
                0 <= j < i ==> fr_value(out@[j]) == sub_mod(coef(values(a@), j), coef(values(b@), j)),
    {
        let av = if i < a.len() {
            a[i].dup()
        } else {
            Scalar::zero()
        };
        let bv = if i < b.len() {
            b[i].dup()
        } else {
            Scalar::zero()
        };
        out.push(av.sub(&bv));
    }
    proof {
        assert(values(out@) =~= poly_sub(values(a@), values(b@)));
    }
    out
}

/// A copy of a coefficient vector, element by element.
fn dup_vec(v: &Vec<Scalar>) -> (r: Vec<Scalar>)
    ensures
        values(r@) == values(v@),
{
    let mut out: Vec<Scalar> = Vec::new();
    for i in 0..v.len()
        invariant
            out@.len() == i,
            forall|j: int| 0 <= j < i ==> fr_value(out@[j]) == fr_value(v@[j]),
    {
        out.push(v[i].dup());
    }
    proof {
        assert(values(out@) =~= values(v@));
    }
    out
}

/// Long division by a monic divisor, peeling the top coefficient of `num`
/// one reduction step at a time.
fn divmod_vecs(num: Vec<Scalar>, den: &Vec<Scalar>) -> (r: (Vec<Scalar>, Vec<Scalar>))
    requires
        den@.len() >= 1,
    ensures
        values(r.0@) == poly_divmod(values(num@), values(den@)).0,
        values(r.1@) == poly_divmod(values(num@), values(den@)).1,
    decreases num@.len(),
{
    if num.len() < den.len() {
        let q: Vec<Scalar> = Vec::new();
        proof {
            assert(values(q@) =~= Seq::<nat>::empty());
        }
        return (q, num);
    }
    let lead = num[num.len() - 1].dup();
    let k = num.len() - den.len();
    let ghost shifted = poly_shift(poly_scale(fr_value(lead), values(den@)), k as nat);
    let mut reduced: Vec<Scalar> = Vec::new();
    for i in 0..num.len() - 1
        invariant
            num@.len() >= den@.len() >= 1,
            k == num@.len() - den@.len(),
            fr_value(lead) == values(num@).last(),
            shifted == poly_shift(poly_scale(fr_value(lead), values(den@)), k as nat),
            reduced@.len() == i,
            forall|j: int|
                0 <= j < i ==> fr_value(reduced@[j]) == sub_mod(
                    values(num@)[j],
                    coef(shifted, j),
                ),
    {
        if i >= k {
            reduced.push(num[i].sub(&lead.mul(&den[i - k])));
        } else {
            reduced.push(num[i].sub(&Scalar::zero()));
        }
    }
    proof {
        assert(values(reduced@) =~= poly_sub(values(num@), shifted).drop_last());
    }
    let (mut q, rem) = divmod_vecs(reduced, den);
    q.push(lead);
    proof {
        let qr = poly_divmod(values(num@), values(den@));
        assert(values(q@) =~= qr.0);
    }
    (q, rem)
}

impl Polynomial {
    /// Wraps a coefficient vector, low degree first.
    pub fn new(coeffs: Vec<Scalar>) -> (r: Polynomial)
        ensures
            r@ == values(coeffs@),
    {
        Polynomial { coeffs }
    }

    /// Coefficient-wise sum: the shorter operand is read as padded with the
    /// additive identity.
    pub fn add(&self, rhs: &Polynomial) -> (r: Polynomial)
        ensures
            r@ == poly_add(self@, rhs@),
    {
        Polynomial { coeffs: add_vecs(&self.coeffs, &rhs.coeffs) }
    }

    /// Coefficient-wise difference: the shorter operand is read as padded
    /// with the additive identity.
    pub fn sub(&self, rhs: &Polynomial) -> (r: Polynomial)
        ensures
            r@ == poly_sub(self@, rhs@),
    {
        Polynomial { coeffs: sub_vecs(&self.coeffs, &rhs.coeffs) }
    }

    /// The product of the two polynomials, by convolution of the
    /// coefficient sequences.
    pub fn mul(&self, rhs: &Polynomial) -> (r: Polynomial)
        ensures
            r@ == poly_mul(self@, rhs@),
    {
        let mut acc: Vec<Scalar> = Vec::new();
        proof {
            assert(values(acc@) =~= poly_mul(self@.subrange(0, 0), rhs@));
        }
        let n = self.coeffs.len();
        for k in 0..n
            invariant
                n == self.coeffs@.len(),
                values(acc@) == poly_mul(self@.subrange(0, k as int), rhs@),
        {
            let mut t: Vec<Scalar> = Vec::new();
            for j in 0..k
                invariant
                    t@.len() == j,
                    forall|l: int| 0 <= l < j ==> fr_value(t@[l]) == 0,
            {
                t.push(Scalar::zero());
            }
            for j in 0..rhs.coeffs.len()
                invariant
                    k < n == self.coeffs@.len(),
                    t@.len() == k + j,
                    forall|l: int| 0 <= l < k ==> fr_value(t@[l]) == 0,
                    forall|l: int|
                        k <= l < k + j ==> fr_value(t@[l]) == mul_mod(self@[k as int], rhs@[l - k]),
            {
                t.push(self.coeffs[k].mul(&rhs.coeffs[j]));
            }
            proof {
                assert(values(t@) =~= poly_shift(poly_scale(self@[k as int], rhs@), k as nat));
            }
            acc = add_vecs(&acc, &t);
            proof {
                let s = self@.subrange(0, k + 1);
                assert(s.drop_last() =~= self@.subrange(0, k as int));
                assert(s.last() == self@[k as int]);
            }
        }
        proof {
            assert(self@.subrange(0, n as int) =~= self@);
        }
        Polynomial { coeffs: acc }
    }

    /// Long division by a monic divisor: the quotient and the remainder of
    /// dividing `self` by `den`. The remainder has fewer coefficients than
    /// `den`; it is the zero polynomial exactly when the division is exact.
    pub fn div_rem(&self, den: &Polynomial) -> (r: (Polynomial, Polynomial))
        requires
            den@.len() >= 1,
            den@.last() == 1,
        ensures
            r.0@ == poly_divmod(self@, den@).0,
            r.1@ == poly_divmod(self@, den@).1,
    {
        let num = dup_vec(&self.coeffs);
        let (q, rem) = divmod_vecs(num, &den.coeffs);
        (Polynomial { coeffs: q }, Polynomial { coeffs: rem })
    }

    /// Whether every coefficient is the additive identity.
    pub fn is_zero(&self) -> (r: bool)
        ensures
            r == is_zero_poly(self@),
    {
        let zero = Scalar::zero();
        let n = self.coeffs.len();
        for i in 0..n
            invariant
                n == self.coeffs@.len(),
                fr_value(zero) == 0,
                forall|j: int| 0 <= j < i ==> fr_value(self.coeffs@[j]) == 0,
        {
            if !self.coeffs[i].equals(&zero) {
                proof {
                    assert(self@[i as int] == fr_value(self.coeffs@[i as int]));
                }
                return false;
            }
        }
        proof {
            assert forall|j: int| 0 <= j < self@.len() implies self@[j] == 0 by {
                assert(self@[j] == fr_value(self.coeffs@[j]));
            }
        }
        true
    }

    /// Horner evaluation at `x`.
    pub fn evaluate(&self, x: &Scalar) -> (r: Scalar)
        ensures
            fr_value(r) == poly_eval(self@, fr_value(*x)),
    {
        let mut acc = Scalar::zero();
        let n = self.coeffs.len();
        let mut i: usize = n;
        while i > 0
            invariant
                i <= n,
                n == self.coeffs@.len(),
                fr_value(acc) == poly_eval(self@.subrange(i as int, n as int), fr_value(*x)),
            decreases i,
        {
            i = i - 1;
            acc = self.coeffs[i].add(&x.mul(&acc));
            proof {
                assert(self@.subrange(i as int, n as int).subrange(
                    1,
                    (n - i) as int,
                ) =~= self@.subrange(i + 1, n as int));
            }
        }
        proof {
            assert(self@.subrange(0, n as int) =~= self@);
        }
        acc
    }
}

} // verus!

// Facts about evaluation: how `poly_eval` distributes over the polynomial
// operations. They carry the vanishing-polynomial and opening arguments of
// the commitment scheme.

verus! {

use vstd::arithmetic::div_mod::{
    lemma_add_mod_noop,
    lemma_add_mod_noop_right,
    lemma_mod_bound,
    lemma_mul_mod_noop_general,
    lemma_small_mod,
};
use vstd::arithmetic::mul::{
    lemma_mul_is_associative,
    lemma_mul_is_commutative,
    lemma_mul_is_distributive_add,
};
use crate::field::pow_mod;

/// Both nested sums regroup to `(a + b + c + d) % r`.
proof fn lemma_add_mod_regroup(a: nat, b: nat, c: nat, d: nat)
    ensures
        add_mod(add_mod(a, b), add_mod(c, d)) == add_mod(add_mod(a, c), add_mod(b, d)),
{
    let r = fr_order() as int;
    lemma_add_mod_noop((a + b) as int, (c + d) as int, r);
    lemma_add_mod_noop((a + c) as int, (b + d) as int, r);
}

/// Addition modulo r regroups like plain addition.
proof fn lemma_add_mod_assoc(a: nat, b: nat, c: nat)
    ensures
        add_mod(add_mod(a, b), c) == add_mod(a, add_mod(b, c)),
{
    let r = fr_order() as int;
    lemma_add_mod_noop_right(c as int, (a + b) as int, r);
    lemma_add_mod_noop_right(a as int, (b + c) as int, r);
}

/// Multiplication modulo r distributes over addition modulo r.
proof fn lemma_mul_mod_dist(x: nat, a: nat, b: nat)
    ensures
        mul_mod(x, add_mod(a, b)) == add_mod(mul_mod(x, a), mul_mod(x, b)),
{
    let r = fr_order() as int;
    lemma_mul_mod_noop_general(x as int, (a + b) as int, r);
    lemma_mul_is_distributive_add(x as int, a as int, b as int);
    lemma_add_mod_noop((x * a) as int, (x * b) as int, r);
}

/// Multiplication modulo r is commutative.
proof fn lemma_mul_mod_comm(a: nat, b: nat)
    ensures
        mul_mod(a, b) == mul_mod(b, a),
{
    lemma_mul_is_commutative(a as int, b as int);
}

/// Multiplication modulo r regroups like plain multiplication.
proof fn lemma_mul_mod_assoc(a: nat, b: nat, c: nat)
    ensures
        mul_mod(mul_mod(a, b), c) == mul_mod(a, mul_mod(b, c)),
{
    let r = fr_order() as int;
    lemma_mul_mod_noop_general((a * b) as int, c as int, r);
    lemma_mul_mod_noop_general(a as int, (b * c) as int, r);
    lemma_mul_is_associative(a as int, b as int, c as int);
}

/// An evaluation is already reduced modulo r.
pub proof fn lemma_eval_bound(c: Seq<nat>, x: nat)
    ensures
        poly_eval(c, x) < fr_order(),
        poly_eval(c, x) % fr_order() == poly_eval(c, x),
    decreases c.len(),
{
    let r = fr_order() as int;
    if c.len() == 0 {
    } else {
        lemma_mod_bound((c[0] + mul_mod(x, poly_eval(c.subrange(1, c.len() as int), x))) as int, r);
    }
    lemma_small_mod(poly_eval(c, x), fr_order());
}

/// Evaluation only reads coefficients modulo r.
pub proof fn lemma_eval_congruence(c1: Seq<nat>, c2: Seq<nat>, x: nat)
    requires
        c1.len() == c2.len(),
        forall|i: int| 0 <= i < c1.len() ==> c1[i] % fr_order() == c2[i] % fr_order(),
    ensures
        poly_eval(c1, x) == poly_eval(c2, x),
    decreases c1.len(),
{
    let r = fr_order() as int;
    if c1.len() == 0 {
    } else {
        let t1 = c1.subrange(1, c1.len() as int);
        let t2 = c2.subrange(1, c2.len() as int);
        assert forall|i: int| 0 <= i < t1.len() implies t1[i] % fr_order() == t2[i] % fr_order() by {
            assert(c1[i + 1] % fr_order() == c2[i + 1] % fr_order());
        }
        lemma_eval_congruence(t1, t2, x);
        let k = mul_mod(x, poly_eval(t1, x));
        lemma_add_mod_noop(c1[0] as int, k as int, r);
        lemma_add_mod_noop(c2[0] as int, k as int, r);
    }
}

/// Law: evaluation distributes over polynomial addition.
pub proof fn lemma_eval_add(a: Seq<nat>, b: Seq<nat>, x: nat)
    ensures
        poly_eval(poly_add(a, b), x) == add_mod(poly_eval(a, x), poly_eval(b, x)),
    decreases a.len() + b.len(),
{
    let r = fr_order() as int;
    let s = poly_add(a, b);
    if a.len() == 0 && b.len() == 0 {
        assert(s =~= Seq::<nat>::empty());
    } else if a.len() == 0 {
        assert forall|i: int| 0 <= i < s.len() implies s[i] % fr_order() == b[i] % fr_order() by {
            lemma_mod_bound((0 + b[i]) as int, r);
            lemma_small_mod(add_mod(0, b[i]), fr_order());
        }
        lemma_eval_congruence(s, b, x);
        lemma_eval_bound(b, x);
        lemma_small_mod(poly_eval(b, x), fr_order());
    } else if b.len() == 0 {
        assert forall|i: int| 0 <= i < s.len() implies s[i] % fr_order() == a[i] % fr_order() by {
            lemma_mod_bound((a[i] + 0) as int, r);
            lemma_small_mod(add_mod(a[i], 0), fr_order());
        }
        lemma_eval_congruence(s, a, x);
        lemma_eval_bound(a, x);
        lemma_small_mod(poly_eval(a, x), fr_order());
    } else {
        let a1 = a.subrange(1, a.len() as int);
        let b1 = b.subrange(1, b.len() as int);
        assert(s.subrange(1, s.len() as int) =~= poly_add(a1, b1));
        lemma_eval_add(a1, b1, x);
        let ea = poly_eval(a1, x);
        let eb = poly_eval(b1, x);
        lemma_mul_mod_dist(x, ea, eb);
        lemma_add_mod_regroup(a[0], b[0], mul_mod(x, ea), mul_mod(x, eb));
    }
}

/// Law: evaluation turns a coefficient scaling into a product.
pub proof fn lemma_eval_scale(c: nat, b: Seq<nat>, x: nat)
    ensures
        poly_eval(poly_scale(c, b), x) == mul_mod(c, poly_eval(b, x)),
    decreases b.len(),
{
    let s = poly_scale(c, b);
    if b.len() == 0 {
        assert(s =~= Seq::<nat>::empty());
        assert(poly_eval(s, x) == 0);
        assert(poly_eval(b, x) == 0);
        assert(c * 0 == 0) by (nonlinear_arith);
        assert(mul_mod(c, 0) == 0);
    } else {
        let b1 = b.subrange(1, b.len() as int);
        assert(s.subrange(1, s.len() as int) =~= poly_scale(c, b1));
        lemma_eval_scale(c, b1, x);
        let eb = poly_eval(b1, x);
        assert(s[0] == mul_mod(c, b[0]));
        assert(poly_eval(s, x) == add_mod(mul_mod(c, b[0]), mul_mod(x, mul_mod(c, eb))));
        assert(poly_eval(b, x) == add_mod(b[0], mul_mod(x, eb)));
        lemma_mul_mod_dist(c, b[0], mul_mod(x, eb));
        assert(mul_mod(c, poly_eval(b, x)) == add_mod(mul_mod(c, b[0]), mul_mod(c, mul_mod(x, eb))));
        lemma_mul_mod_assoc(c, x, eb);
        lemma_mul_mod_comm(c, x);
        lemma_mul_mod_assoc(x, c, eb);
        assert(mul_mod(x, mul_mod(c, eb)) == mul_mod(c, mul_mod(x, eb)));
        assert(poly_eval(poly_scale(c, b), x) == mul_mod(c, poly_eval(b, x)));
    }
}

/// Law: evaluation turns a shift by `X^k` into a product with `x^k`.
pub proof fn lemma_eval_shift(p: Seq<nat>, k: nat, x: nat)
    ensures
        poly_eval(poly_shift(p, k), x) == mul_mod(pow_mod(x, k), poly_eval(p, x)),
    decreases k,
{
    let r = fr_order() as int;
    let s = poly_shift(p, k);
    if k == 0 {
        assert(s =~= p);
        lemma_eval_bound(p, x);
        lemma_mul_mod_noop_general(1, poly_eval(p, x) as int, r);
        lemma_small_mod(poly_eval(p, x), fr_order());
    } else {
        assert(s.subrange(1, s.len() as int) =~= poly_shift(p, (k - 1) as nat));
        lemma_eval_shift(p, (k - 1) as nat, x);
        let e = poly_eval(p, x);
        let inner = mul_mod(pow_mod(x, (k - 1) as nat), e);
        lemma_mod_bound((x * inner) as int, r);
        lemma_small_mod(mul_mod(x, inner), fr_order());
        lemma_mul_mod_assoc(x, pow_mod(x, (k - 1) as nat), e);
    }
}

/// Law: appending a top coefficient adds its term to the evaluation.
pub proof fn lemma_eval_push(s: Seq<nat>, c: nat, x: nat)
    ensures
        poly_eval(s.push(c), x) == add_mod(poly_eval(s, x), mul_mod(pow_mod(x, s.len()), c)),
    decreases s.len(),
{
    let r = fr_order() as int;
    let p = s.push(c);
    if s.len() == 0 {
        assert(p.subrange(1, p.len() as int) =~= Seq::<nat>::empty());
        assert(x * 0 == 0) by (nonlinear_arith);
        assert(mul_mod(x, 0) == 0);
        assert(p[0] == c);
        assert(p.len() == 1);
        assert(poly_eval(p.subrange(1, p.len() as int), x) == 0);
        assert(poly_eval(p, x) == add_mod(c, 0));
        assert(1 * c == c) by (nonlinear_arith);
        assert(mul_mod(1, c) == c % fr_order());
        lemma_mod_bound(c as int, r);
        lemma_small_mod(c % fr_order(), fr_order());
        assert(add_mod(0, c % fr_order()) == c % fr_order());
    } else {
        let s1 = s.subrange(1, s.len() as int);
        assert(p.subrange(1, p.len() as int) =~= s1.push(c));
        lemma_eval_push(s1, c, x);
        let e1 = poly_eval(s1, x);
        let t = mul_mod(pow_mod(x, s1.len()), c);
        lemma_mul_mod_dist(x, e1, t);
        lemma_add_mod_assoc(s[0], mul_mod(x, e1), mul_mod(x, t));
        lemma_mul_mod_assoc(x, pow_mod(x, s1.len()), c);
    }
}

/// Law: evaluation distributes over polynomial multiplication.
pub proof fn lemma_eval_mul(a: Seq<nat>, b: Seq<nat>, x: nat)
    ensures
        poly_eval(poly_mul(a, b), x) == mul_mod(poly_eval(a, x), poly_eval(b, x)),
    decreases a.len(),
{
    if a.len() == 0 {
        assert(poly_mul(a, b) =~= Seq::<nat>::empty());
        assert(0 * poly_eval(b, x) == 0) by (nonlinear_arith);
        assert(mul_mod(0, poly_eval(b, x)) == 0);
    } else {
        let a1 = a.drop_last();
        let top = poly_shift(poly_scale(a.last(), b), (a.len() - 1) as nat);
        lemma_eval_add(poly_mul(a1, b), top, x);
        lemma_eval_mul(a1, b, x);
        lemma_eval_shift(poly_scale(a.last(), b), (a.len() - 1) as nat, x);
        lemma_eval_scale(a.last(), b, x);
        let ea1 = poly_eval(a1, x);
        let eb = poly_eval(b, x);
        let pk = pow_mod(x, (a.len() - 1) as nat);
        assert(a1.push(a.last()) =~= a);
        lemma_eval_push(a1, a.last(), x);
        // left side: ea1 * eb + pk * (a_top * eb)
        // right side: (ea1 + pk * a_top) * eb
        lemma_mul_mod_comm(add_mod(ea1, mul_mod(pk, a.last())), eb);
        lemma_mul_mod_dist(eb, ea1, mul_mod(pk, a.last()));
        lemma_mul_mod_comm(eb, ea1);
        lemma_mul_mod_comm(eb, mul_mod(pk, a.last()));
        lemma_mul_mod_assoc(pk, a.last(), eb);
        lemma_mul_mod_comm(mul_mod(pk, a.last()), eb);
    }
}

} // verus!

// The division law: quotient times divisor plus remainder recomposes the
// dividend. It is what makes a zero remainder mean an exact division in the
// opening protocols.

verus! {

use vstd::arithmetic::div_mod::{lemma_fundamental_div_mod, lemma_mod_multiples_vanish};
use vstd::calc;

/// The quotient spans exactly the degrees above the divisor's, and the
/// remainder stays shorter than the divisor.
pub proof fn lemma_divmod_shape(num: Seq<nat>, den: Seq<nat>)
    requires
        den.len() >= 1,
    ensures
        poly_divmod(num, den).0.len() == if num.len() >= den.len() {
            num.len() - den.len() + 1
        } else {
            0
        },
        poly_divmod(num, den).1.len() < den.len(),
    decreases num.len(),
{
    if num.len() < den.len() {
    } else {
        let lead = num.last();
        let k = (num.len() - den.len()) as nat;
        let reduced = poly_sub(num, poly_shift(poly_scale(lead, den), k)).drop_last();
        lemma_divmod_shape(reduced, den);
    }
}

/// Adding a value back modulo r undoes its modular subtraction.
proof fn lemma_sub_add_cancel_mod(x: nat, s: nat)
    ensures
        add_mod(sub_mod(x, s), s) == x % fr_order(),
{
    let r = fr_order() as int;
    lemma_fundamental_div_mod(s as int, r);
    lemma_add_mod_noop((x + fr_order() - (s % fr_order())) as int, s as int, r);
    lemma_small_mod(s % fr_order(), fr_order());
    assert((x + fr_order() - (s % fr_order()) + s) == r * (1 + s as int / r) + x);
    lemma_mod_multiples_vanish(1 + s as int / r, x as int, r);
}

/// Law: long division by a monic divisor recomposes the dividend: each
/// coefficient of `quotient * divisor + remainder` is the dividend's
/// coefficient, modulo r.
pub proof fn lemma_divmod_identity(num: Seq<nat>, den: Seq<nat>)
    requires
        den.len() >= 1,
        den.last() == 1,
    ensures
        poly_add(poly_mul(poly_divmod(num, den).0, den), poly_divmod(num, den).1).len()
            == num.len(),
        forall|i: int|
            0 <= i < num.len() ==> poly_add(
                poly_mul(poly_divmod(num, den).0, den),
                poly_divmod(num, den).1,
            )[i] == num[i] % fr_order(),
    decreases num.len(),
{
    let r = fr_order() as int;
    let q = poly_divmod(num, den).0;
    let rem = poly_divmod(num, den).1;
    let rec = poly_add(poly_mul(q, den), rem);
    lemma_divmod_shape(num, den);
    if num.len() < den.len() {
        assert(q =~= Seq::<nat>::empty());
        assert(poly_mul(q, den) =~= Seq::<nat>::empty());
        assert forall|i: int| 0 <= i < num.len() implies rec[i] == num[i] % fr_order() by {
            assert(rec[i] == add_mod(0, num[i]));
        }
    } else {
        let lead = num.last();
        let k = (num.len() - den.len()) as nat;
        let shifted = poly_shift(poly_scale(lead, den), k);
        let reduced = poly_sub(num, shifted).drop_last();
        let q1 = poly_divmod(reduced, den).0;
        lemma_divmod_identity(reduced, den);
        lemma_divmod_shape(reduced, den);
        let rec1 = poly_add(poly_mul(q1, den), rem);
        // the quotient's top coefficient scales the shifted divisor back in
        assert(q =~= q1.push(lead));
        assert(q.drop_last() =~= q1);
        assert(q1.len() == k);
        assert(poly_mul(q, den) == poly_add(poly_mul(q1, den), shifted));
        assert forall|i: int| 0 <= i < num.len() implies rec[i] == num[i] % fr_order() by {
            let m1 = poly_mul(q1, den);
            assert(rec[i] == add_mod(add_mod(coef(m1, i), coef(shifted, i)), coef(rem, i)));
            if i < num.len() - 1 {
                assert(rec1[i] == add_mod(coef(m1, i), coef(rem, i)));
                assert(rec1[i] == reduced[i] % fr_order());
                assert(reduced[i] == sub_mod(num[i], coef(shifted, i)));
                lemma_mod_bound((num[i] + fr_order() - (coef(shifted, i) % fr_order())) as int, r);
                lemma_small_mod(sub_mod(num[i], coef(shifted, i)), fr_order());
                lemma_add_mod_regroup(coef(m1, i), coef(shifted, i), coef(rem, i), 0);
                assert(add_mod(coef(rem, i), 0) == coef(rem, i) % fr_order());
                lemma_mod_bound(coef(rem, i) as int, r);
                calc! {
                    (==)
                    rec[i]; {
                        lemma_add_mod_assoc(coef(m1, i), coef(shifted, i), coef(rem, i));
                    }
                    add_mod(coef(m1, i), add_mod(coef(shifted, i), coef(rem, i))); {
                        lemma_add_mod_comm(coef(shifted, i), coef(rem, i));
                    }
                    add_mod(coef(m1, i), add_mod(coef(rem, i), coef(shifted, i))); {
                        lemma_add_mod_assoc2(coef(m1, i), coef(rem, i), coef(shifted, i));
                    }
                    add_mod(add_mod(coef(m1, i), coef(rem, i)), coef(shifted, i)); {}
                    add_mod(sub_mod(num[i], coef(shifted, i)), coef(shifted, i)); {
                        lemma_sub_add_cancel_mod(num[i], coef(shifted, i));
                    }
                    num[i] % fr_order();
                }
            } else {
                // the top coefficient: the shifted divisor alone carries it
                assert(coef(m1, i) == 0);
                assert(coef(rem, i) == 0);
                assert(coef(shifted, i) == mul_mod(lead, den.last()));
                assert(lead * 1 == lead) by (nonlinear_arith);
                assert(mul_mod(lead, 1) == lead % fr_order());
                lemma_mod_bound(lead as int, r);
                lemma_small_mod(lead % fr_order(), fr_order());
                assert(rec[i] == add_mod(add_mod(0, lead % fr_order()), 0));
            }
        }
    }
}

/// Addition modulo r is commutative.
proof fn lemma_add_mod_comm(a: nat, b: nat)
    ensures
        add_mod(a, b) == add_mod(b, a),
{
}

/// The mirrored regrouping of addition modulo r.
proof fn lemma_add_mod_assoc2(a: nat, b: nat, c: nat)
    ensures
        add_mod(a, add_mod(b, c)) == add_mod(add_mod(a, b), c),
{
    lemma_add_mod_assoc(a, b, c);
}

} // verus!

// The single-point opening law: the quotient made of Horner suffixes times
// `X - z`, plus the evaluation at `z`, recomposes the polynomial.

verus! {

/// The monic linear polynomial `X - z`.
pub open spec fn linear_root_poly(z: nat) -> Seq<nat> {
    seq![neg_mod(z), 1nat]
}

/// A multiple of the additive inverse cancels the same multiple, modulo r.
proof fn lemma_mul_neg_cancel(a: nat, z: nat)
    ensures
        add_mod(mul_mod(a, neg_mod(z)), mul_mod(z, a)) == 0,
{
    let r = fr_order() as int;
    let u = z % fr_order();
    lemma_mod_bound(z as int, r);
    lemma_fundamental_div_mod(z as int, r);
    if u == 0 {
        assert(neg_mod(z) == 0);
        assert(a * 0 == 0) by (nonlinear_arith);
        assert(mul_mod(a, 0) == 0);
        assert(z as int * a as int == r * ((z as int / r) * a as int)) by (nonlinear_arith)
            requires
                z as int == r * (z as int / r),
        ;
        lemma_mod_multiples_vanish((z as int / r) * a as int, 0, r);
        assert(mul_mod(z, a) == 0);
        assert(add_mod(0, 0) == 0);
    } else {
        lemma_small_mod((fr_order() - u) as nat, fr_order());
        assert(neg_mod(z) == fr_order() - u);
        lemma_add_mod_noop((a * (fr_order() - u)) as int, (z * a) as int, r);
        assert(a as int * (r - u as int) + z as int * a as int == r * (a as int + (z as int / r)
            * a as int)) by (nonlinear_arith)
            requires
                z as int == r * (z as int / r) + u as int,
        ;
        lemma_mod_multiples_vanish(a as int + (z as int / r) * a as int, 0, r);
    }
}

/// The coefficients of a product with `X - z`: each is the coefficient one
/// degree down, less `z` times the one at the same degree, modulo r.
#[verifier::rlimit(50)]
proof fn lemma_mul_linear_coefs(q: Seq<nat>, z: nat)
    requires
        q.len() >= 1,
    ensures
        poly_mul(q, linear_root_poly(z)).len() == q.len() + 1,
        forall|i: int|
            0 <= i <= q.len() ==> poly_mul(q, linear_root_poly(z))[i] == add_mod(
                mul_mod(coef(q, i), neg_mod(z)),
                coef(q, i - 1),
            ),
    decreases q.len(),
{
    let r = fr_order() as int;
    let lin = linear_root_poly(z);
    let p = poly_mul(q, lin);
    let n = q.len() as int;
    if q.len() == 1 {
        assert(poly_mul(q.drop_last(), lin) =~= Seq::<nat>::empty());
        assert(p =~= poly_add(Seq::<nat>::empty(), poly_shift(poly_scale(q[0], lin), 0)));
        assert forall|i: int| 0 <= i <= 1 implies p[i] == add_mod(
            mul_mod(coef(q, i), neg_mod(z)),
            coef(q, i - 1),
        ) by {
            lemma_mod_bound((q[0] * lin[i]) as int, r);
            lemma_small_mod(mul_mod(q[0], lin[i]), fr_order());
            assert(p[i] == add_mod(0, mul_mod(q[0], lin[i])));
            if i == 0 {
                assert(add_mod(mul_mod(q[0], neg_mod(z)), 0) == mul_mod(q[0], neg_mod(z)));
            } else {
                assert(q[0] * 1 == q[0]) by (nonlinear_arith);
                assert(0 * neg_mod(z) == 0) by (nonlinear_arith);
                assert(mul_mod(0, neg_mod(z)) == 0);
                lemma_mod_bound(q[0] as int, r);
                lemma_add_mod_noop(0, q[0] as int, r);
            }
        }
    } else {
        let q1 = q.drop_last();
        let l = q.last();
        lemma_mul_linear_coefs(q1, z);
        let p1 = poly_mul(q1, lin);
        let top = poly_shift(poly_scale(l, lin), (q.len() - 1) as nat);
        assert(p == poly_add(p1, top));
        assert forall|i: int| 0 <= i <= n implies p[i] == add_mod(
            mul_mod(coef(q, i), neg_mod(z)),
            coef(q, i - 1),
        ) by {
            if i < n - 1 {
                assert(coef(top, i) == 0);
                assert(p1[i] == add_mod(mul_mod(coef(q1, i), neg_mod(z)), coef(q1, i - 1)));
                lemma_mod_bound(
                    (mul_mod(coef(q1, i), neg_mod(z)) + coef(q1, i - 1)) as int,
                    r,
                );
                lemma_small_mod(p1[i], fr_order());
                assert(p[i] == add_mod(p1[i], 0));
            } else if i == n - 1 {
                assert(coef(top, i) == mul_mod(l, lin[0]));
                assert(p1[i] == add_mod(mul_mod(coef(q1, i), neg_mod(z)), coef(q1, i - 1)));
                assert(coef(q1, i) == 0);
                assert(0 * neg_mod(z) == 0) by (nonlinear_arith);
                assert(mul_mod(0, neg_mod(z)) == 0);
                lemma_mod_bound(coef(q1, i - 1) as int, r);
                assert(p1[i] == add_mod(0, coef(q1, i - 1)));
                lemma_small_mod(coef(q1, i - 1) % fr_order(), fr_order());
                // p[i] == add_mod(coef(q,i-1) % r, l * neg) == the claim
                lemma_add_mod_noop(coef(q, i - 1) as int, (l * neg_mod(z)) as int, r);
                lemma_add_mod_noop((l * neg_mod(z)) as int, coef(q, i - 1) as int, r);
            } else {
                assert(coef(p1, i) == 0);
                assert(coef(top, i) == mul_mod(l, lin[1]));
                assert(l * 1 == l) by (nonlinear_arith);
                assert(coef(q, i) == 0);
                assert(0 * neg_mod(z) == 0) by (nonlinear_arith);
                assert(mul_mod(0, neg_mod(z)) == 0);
                lemma_mod_bound(l as int, r);
                lemma_add_mod_noop(0, l as int, r);
                assert(p[i] == add_mod(0, mul_mod(l, lin[1])));
            }
        }
    }
}

/// Law: the Horner-suffix quotient recomposes the polynomial: every
/// coefficient of `quotient * (X - z) + c(z)` is the corresponding
/// coefficient of `c`, modulo r. A single-point opening therefore commits
/// to the exact quotient of `(c - c(z)) / (X - z)`.
pub proof fn lemma_synth_quotient_identity(c: Seq<nat>, z: nat)
    requires
        c.len() >= 1,
    ensures
        poly_add(
            poly_mul(synth_quotient(c, z), linear_root_poly(z)),
            seq![poly_eval(c, z)],
        ).len() == c.len(),
        forall|i: int|
            0 <= i < c.len() ==> poly_add(
                poly_mul(synth_quotient(c, z), linear_root_poly(z)),
                seq![poly_eval(c, z)],
            )[i] == c[i] % fr_order(),
{
    let r = fr_order() as int;
    let n = c.len() as int;
    let q = synth_quotient(c, z);
    let ev = poly_eval(c, z);
    let rec = poly_add(poly_mul(q, linear_root_poly(z)), seq![ev]);
    if c.len() == 1 {
        assert(q =~= Seq::<nat>::empty());
        assert(poly_mul(q, linear_root_poly(z)) =~= Seq::<nat>::empty());
        assert(c.subrange(1, 1) =~= Seq::<nat>::empty());
        assert(poly_eval(c.subrange(1, 1), z) == 0);
        assert(z * 0 == 0) by (nonlinear_arith);
        assert(mul_mod(z, 0) == 0);
        assert(ev == add_mod(c[0], 0));
        lemma_mod_bound((c[0] + 0) as int, r);
        lemma_small_mod(ev, fr_order());
        assert(rec[0] == add_mod(0, ev));
        lemma_add_mod_noop(0, c[0] as int, r);
    } else {
        lemma_mul_linear_coefs(q, z);
        let p = poly_mul(q, linear_root_poly(z));
        assert forall|i: int| 0 <= i < n implies rec[i] == c[i] % fr_order() by {
            // the Horner suffix one step further in
            let e_next = if i + 1 < n {
                poly_eval(c.subrange(i + 1, n), z)
            } else {
                0
            };
            if i + 1 < n {
                assert(coef(q, i) == e_next);
            } else {
                assert(coef(q, i) == 0);
            }
            // eval(c[i..]) == c[i] + z * eval(c[i+1..])
            assert(c.subrange(i, n).subrange(1, n - i) =~= c.subrange(i + 1, n));
            if i > 0 {
                assert(coef(q, i - 1) == poly_eval(c.subrange(i, n), z));
                assert(coef(q, i - 1) == add_mod(c[i], mul_mod(z, e_next)));
            }
            assert(p[i] == add_mod(mul_mod(coef(q, i), neg_mod(z)), coef(q, i - 1)));
            if i == 0 {
                assert(c.subrange(0, n) =~= c);
                assert(ev == add_mod(c[0], mul_mod(z, e_next)));
                assert(rec[0] == add_mod(add_mod(mul_mod(e_next, neg_mod(z)), 0), ev));
                lemma_mod_bound((mul_mod(e_next, neg_mod(z)) + 0) as int, r);
                lemma_small_mod(mul_mod(e_next, neg_mod(z)), fr_order());
                assert(add_mod(mul_mod(e_next, neg_mod(z)), 0) == mul_mod(e_next, neg_mod(z)));
                lemma_add_mod_regroup(mul_mod(e_next, neg_mod(z)), 0, c[0], mul_mod(z, e_next));
                lemma_add_mod_assoc2(c[0], mul_mod(e_next, neg_mod(z)), mul_mod(z, e_next));
                lemma_add_mod_comm(mul_mod(e_next, neg_mod(z)), c[0]);
                lemma_add_mod_assoc(c[0], mul_mod(e_next, neg_mod(z)), mul_mod(z, e_next));
                lemma_mul_neg_cancel(e_next, z);
                assert(rec[0] == add_mod(c[0], 0));
                lemma_add_mod_noop(c[0] as int, 0, r);
            } else {
                assert(coef(seq![ev], i) == 0);
                lemma_mod_bound((mul_mod(coef(q, i), neg_mod(z)) + coef(q, i - 1)) as int, r);
                lemma_small_mod(p[i], fr_order());
                assert(rec[i] == add_mod(p[i], 0));
                assert(rec[i] == p[i]);
                if i + 1 < n {
                    // p[i] == -z * E(i+1) + (c[i] + z * E(i+1)) == c[i]
                    lemma_add_mod_assoc2(
                        mul_mod(e_next, neg_mod(z)),
                        c[i],
                        mul_mod(z, e_next),
                    );
                    lemma_add_mod_comm(mul_mod(e_next, neg_mod(z)), c[i]);
                    lemma_add_mod_assoc(c[i], mul_mod(e_next, neg_mod(z)), mul_mod(z, e_next));
                    lemma_mul_neg_cancel(e_next, z);
                    assert(p[i] == add_mod(c[i], 0));
                    lemma_add_mod_noop(c[i] as int, 0, r);
                } else {
                    // the top coefficient: the suffix is the last coefficient
                    assert(0 * neg_mod(z) == 0) by (nonlinear_arith);
                    assert(mul_mod(0, neg_mod(z)) == 0);
                    assert(z * 0 == 0) by (nonlinear_arith);
                    assert(mul_mod(z, 0) == 0);
                    assert(coef(q, i - 1) == add_mod(c[i], 0));
                    lemma_mod_bound((c[i] + 0) as int, r);
                    lemma_small_mod(coef(q, i - 1), fr_order());
                    assert(p[i] == add_mod(0, coef(q, i - 1)));
                    lemma_add_mod_noop(c[i] as int, 0, r);
                    lemma_add_mod_noop(0, (c[i] % fr_order()) as int, r);
                    lemma_small_mod(c[i] % fr_order(), fr_order());
                }
            }
        }
    }
}

} // verus!

// Evaluation and subtraction: the remaining distribution law, through the
// coefficient-wise additive inverse.

verus! {

use vstd::arithmetic::div_mod::{
    lemma_fundamental_div_mod_converse_mod,
    lemma_mul_mod_noop_right,
    lemma_sub_mod_noop_right,
};

/// The coefficient-wise additive inverse of a polynomial.
pub open spec fn poly_neg(b: Seq<nat>) -> Seq<nat> {
    Seq::new(b.len(), |i: int| neg_mod(b[i]))
}

/// The additive inverse modulo r is the remainder of the negated value.
proof fn lemma_neg_mod_int(v: nat)
    ensures
        neg_mod(v) as int == (0 - v as int) % (fr_order() as int),
{
    let r = fr_order() as int;
    lemma_fundamental_div_mod(v as int, r);
    if v % fr_order() == 0 {
        lemma_mod_multiples_vanish(0 - (v as int / r), 0, r);
    } else {
        lemma_small_mod((fr_order() - v % fr_order()) as nat, fr_order());
        lemma_fundamental_div_mod_converse_mod(
            0 - v as int,
            r,
            0 - (v as int / r) - 1,
            r - (v % fr_order()) as int,
        );
    }
}

/// Subtraction modulo r is the remainder of the plain difference.
proof fn lemma_sub_mod_int(a: nat, b: nat)
    ensures
        sub_mod(a, b) as int == (a as int - b as int) % (fr_order() as int),
{
    let r = fr_order() as int;
    lemma_fundamental_div_mod(b as int, r);
    assert(a + fr_order() - (b % fr_order()) == r * (1 + b as int / r) + (a as int - b as int));
    lemma_mod_multiples_vanish(1 + b as int / r, a as int - b as int, r);
}

/// Law: evaluation turns the coefficient-wise inverse into the inverse of
/// the evaluation.
#[verifier::rlimit(60)]
proof fn lemma_eval_neg(b: Seq<nat>, x: nat)
    ensures
        poly_eval(poly_neg(b), x) == neg_mod(poly_eval(b, x)),
    decreases b.len(),
{
    let r = fr_order() as int;
    let nb = poly_neg(b);
    if b.len() == 0 {
        assert(nb =~= Seq::<nat>::empty());
        assert(neg_mod(0) == 0);
    } else {
        let b1 = b.subrange(1, b.len() as int);
        assert(nb.subrange(1, nb.len() as int) =~= poly_neg(b1));
        lemma_eval_neg(b1, x);
        let e1 = poly_eval(b1, x);
        assert(poly_eval(nb, x) == add_mod(neg_mod(b[0]), mul_mod(x, neg_mod(e1))));
        // the tail term negates: x * (-e1) == -(x * e1), modulo r
        lemma_neg_mod_int(e1);
        lemma_mul_mod_noop_right(x as int, 0 - e1 as int, r);
        assert(x as int * (0 - e1 as int) == 0 - (x as int * e1 as int)) by (nonlinear_arith);
        assert(mul_mod(x, neg_mod(e1)) as int == (0 - (x as int * e1 as int)) % r);
        // the whole sum negates
        lemma_neg_mod_int(b[0]);
        lemma_add_mod_noop(0 - b[0] as int, 0 - (x as int * e1 as int), r);
        assert(poly_eval(nb, x) as int == (0 - b[0] as int - x as int * e1 as int) % r);
        // and so does the original evaluation
        lemma_mul_mod_noop_right(x as int, e1 as int, r);
        lemma_add_mod_noop_right(b[0] as int, (x as int * e1 as int), r);
        assert(poly_eval(b, x) as int == (b[0] as int + x as int * e1 as int) % r);
        lemma_neg_mod_int(add_mod(b[0], mul_mod(x, e1)));
        lemma_sub_mod_noop_right(0, (b[0] as int + x as int * e1 as int), r);
        assert(neg_mod(poly_eval(b, x)) as int == (0 - b[0] as int - x as int * e1 as int) % r);
    }
}

/// Law: evaluation distributes over polynomial subtraction.
pub proof fn lemma_eval_sub(a: Seq<nat>, b: Seq<nat>, x: nat)
    ensures
        poly_eval(poly_sub(a, b), x) == sub_mod(poly_eval(a, x), poly_eval(b, x)),
{
    let r = fr_order() as int;
    let s = poly_sub(a, b);
    let t = poly_add(a, poly_neg(b));
    assert(s.len() == t.len());
    assert forall|i: int| 0 <= i < s.len() implies s[i] % fr_order() == t[i] % fr_order() by {
        lemma_sub_mod_int(coef(a, i), coef(b, i));
        if i < b.len() {
            lemma_neg_mod_int(b[i]);
            lemma_add_mod_noop_right(coef(a, i) as int, 0 - b[i] as int, r);
        }
        lemma_mod_bound((coef(a, i) as int) - (coef(b, i) as int), r);
        lemma_mod_bound((coef(a, i) + coef(poly_neg(b), i)) as int, r);
        lemma_small_mod(s[i], fr_order());
        lemma_small_mod(t[i], fr_order());
    }
    lemma_eval_congruence(s, t, x);
    lemma_eval_add(a, poly_neg(b), x);
    lemma_eval_neg(b, x);
    let ea = poly_eval(a, x);
    let eb = poly_eval(b, x);
    lemma_neg_mod_int(eb);
    lemma_add_mod_noop_right(ea as int, 0 - eb as int, r);
    lemma_sub_mod_int(ea, eb);
}

/// The zero polynomial in any length evaluates to the additive identity.
pub proof fn lemma_eval_all_zero(c: Seq<nat>, x: nat)
    requires
        is_zero_poly(c),
    ensures
        poly_eval(c, x) == 0,
    decreases c.len(),
{
    if c.len() == 0 {
    } else {
        let c1 = c.subrange(1, c.len() as int);
        lemma_eval_all_zero(c1, x);
        assert(x * 0 == 0) by (nonlinear_arith);
        assert(mul_mod(x, 0) == 0);
        assert(poly_eval(c, x) == add_mod(0, 0));
    }
}

} // verus!
