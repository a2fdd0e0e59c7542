//! The witness builder: encodes a list of user records into the two parallel
//! scalar tables that the commitment engine interpolates and commits.
//!
//! Each user contributes two entries to the identity table `P` (the salted
//! username, then the balance) and a fixed block of sixteen entries to the
//! solvency table `I`: a halving chain of the balance below slot 14, the
//! balance at slot 14, and at slot 15 a running total of balances minus the
//! declared average, which returns to zero after the last user exactly when
//! the total divides evenly.

use crate::field::{fr_order, fr_value, Scalar};
use crate::poly::values;
use crate::KzgError;
use vstd::arithmetic::div_mod::{
    lemma_div_denominator, lemma_div_is_ordered_by_denominator, lemma_fundamental_div_mod,
    lemma_small_mod,
};
use vstd::arithmetic::mul::{lemma_mul_inequality, lemma_mul_is_commutative};
use vstd::arithmetic::power2::{lemma_pow2_pos, lemma_pow2_unfold, pow2};
use vstd::prelude::*;

verus! {

/// One account being proven solvent. The username stands in for a hashed
/// identity; the salt blinds it.
#[derive(Clone, Copy, Debug)]
pub struct User {
    pub username: u32,
    pub balance: u32,
    pub salt: u32,
}

/// The sum of the balances of a record list.
pub open spec fn total_balance(users: Seq<User>) -> nat
    decreases users.len(),
{
    if users.len() == 0 {
        0
    } else {
        (total_balance(users.drop_last()) + users.last().balance) as nat
    }
}

/// The declared average balance: the rounded-down mean.
pub open spec fn witness_avg(users: Seq<User>) -> nat {
    total_balance(users) / users.len()
}

/// The running total after the user at position `k`: the balances so far,
/// less one average per user so far. Zero after the last user exactly when
/// the total is `users.len()` times the average.
pub open spec fn running_value(users: Seq<User>, k: int) -> int {
    total_balance(users.subrange(0, k + 1)) - (k + 1) * witness_avg(users)
}

/// Slot 15 of a user's block: the running total, embedded in the scalar
/// field — a negative total becomes the field's additive inverse of its
/// magnitude.
pub open spec fn slot15_value(users: Seq<User>, k: int) -> nat {
    let rt = running_value(users, k);
    if rt >= 0 {
        rt as nat
    } else {
        (rt + fr_order()) as nat
    }
}

/// Slot `j` of the 16-entry solvency block of the user at position `k`:
/// the balance at slot 14, the running total at slot 15, and below 14 the
/// halving chain `balance / 2^(14 - j)`, which stops (leaving the additive
/// identity) once the previous halving reached zero.
pub open spec fn solvency_slot(users: Seq<User>, k: int, j: int) -> nat {
    if j == 15 {
        slot15_value(users, k)
    } else if j == 14 {
        users[k].balance as nat
    } else {
        let b = users[k].balance as nat;
        if b / pow2((13 - j) as nat) > 0 {
            b / pow2((14 - j) as nat)
        } else {
            0
        }
    }
}

/// The whole solvency table: sixteen slots per user, in input order.
pub open spec fn i_table(users: Seq<User>) -> Seq<nat> {
    Seq::new(16 * users.len(), |idx: int| solvency_slot(users, idx / 16, idx % 16))
}

/// The whole identity table: the salted username and the balance of each
/// user in input order, padded with the additive identity to the length of
/// the solvency table.
pub open spec fn p_table(users: Seq<User>) -> Seq<nat> {
    Seq::new(
        16 * users.len(),
        |idx: int|
            if idx < 2 * users.len() {
                if idx % 2 == 0 {
                    (users[idx / 2].username + users[idx / 2].salt) as nat
                } else {
                    users[idx / 2].balance as nat
                }
            } else {
                0
            },
    )
}

/// Extending a balance prefix by one user adds that user's balance.
proof fn lemma_total_prefix_step(users: Seq<User>, i: int)
    requires
        0 <= i < users.len(),
    ensures
        total_balance(users.subrange(0, i + 1)) == total_balance(users.subrange(0, i))
            + users[i].balance,
{
    let s = users.subrange(0, i + 1);
    assert(s.drop_last() =~= users.subrange(0, i));
    assert(s.last() == users[i]);
}

/// A balance prefix never exceeds the total.
proof fn lemma_total_prefix_bound(users: Seq<User>, i: int)
    requires
        0 <= i <= users.len(),
    ensures
        total_balance(users.subrange(0, i)) <= total_balance(users),
    decreases users.len() - i,
{
    if i == users.len() {
        assert(users.subrange(0, i) =~= users);
    } else {
        lemma_total_prefix_step(users, i);
        lemma_total_prefix_bound(users, i + 1);
    }
}

/// The running total stays between minus the balance total and the balance
/// total.
proof fn lemma_running_bounds(users: Seq<User>, k: int)
    requires
        0 <= k + 1 <= users.len(),
        users.len() > 0,
    ensures
        -(total_balance(users) as int) <= running_value(users, k) <= total_balance(users) as int,
{
    let n = users.len() as int;
    let total = total_balance(users) as int;
    let avg = witness_avg(users) as int;
    lemma_total_prefix_bound(users, k + 1);
    lemma_mul_inequality(k + 1, n, avg);
    lemma_fundamental_div_mod(total, n);
    lemma_mul_is_commutative(n, avg);
    assert((k + 1) * avg >= 0) by (nonlinear_arith)
        requires
            k + 1 >= 0,
            avg >= 0,
    ;
}

/// Encodes the records into the identity table `P` and the solvency table
/// `I`, both of length sixteen entries per user, as laid out above. An
/// empty record list has no average balance and is rejected. The caller
/// keeps the salted usernames, balances and the balance total within the
/// 32-bit ranges the layout fixes.
pub fn generate_witness(users: &Vec<User>) -> (r: Result<(Vec<Scalar>, Vec<Scalar>), KzgError>)
    requires
        forall|k: int|
            0 <= k < users@.len() ==> users@[k].username + users@[k].salt <= u32::MAX,
        forall|k: int| 0 <= k < users@.len() ==> users@[k].balance < 16384,
        total_balance(users@) <= u32::MAX,
    ensures
        r is Ok <==> users@.len() > 0,
        users@.len() == 0 ==> r == Err::<(Vec<Scalar>, Vec<Scalar>), KzgError>(
            KzgError::EmptyInput,
        ),
        r matches Ok(w) ==> {
            &&& values(w.0@) == p_table(users@)
            &&& values(w.1@) == i_table(users@)
            &&& w.0@.len() == 16 * users@.len()
            &&& w.1@.len() == 16 * users@.len()
        },
{
    let n = users.len();
    if n == 0 {
        return Err(KzgError::EmptyInput);
    }
    let mut p_witness: Vec<Scalar> = Vec::new();
    let mut total: u64 = 0;
    for k in 0..n
        invariant
            n == users@.len(),
            forall|l: int|
                0 <= l < users@.len() ==> users@[l].username + users@[l].salt <= u32::MAX,
            total_balance(users@) <= u32::MAX,
            total == total_balance(users@.subrange(0, k as int)),
            total <= u32::MAX,
            p_witness@.len() == 2 * k,
            forall|l: int|
                0 <= l < 2 * k ==> fr_value(p_witness@[l]) == (if l % 2 == 0 {
                    (users@[l / 2].username + users@[l / 2].salt) as nat
                } else {
                    users@[l / 2].balance as nat
                }),
    {
        let id = users[k].username + users[k].salt;
        p_witness.push(Scalar::from_u64(id as u64));
        p_witness.push(Scalar::from_u64(users[k].balance as u64));
        proof {
            lemma_total_prefix_step(users@, k as int);
            lemma_total_prefix_bound(users@, k + 1);
        }
        total = total + users[k].balance as u64;
    }
    proof {
        assert(users@.subrange(0, n as int) =~= users@);
    }
    let avg: u64 = total / (n as u64);
    let mut i_witness: Vec<Scalar> = Vec::new();
    let mut rt: i64 = 0;
    proof {
        assert(users@.subrange(0, 0) =~= Seq::<User>::empty());
        assert(0 * (witness_avg(users@) as int) == 0) by (nonlinear_arith);
    }
    for k in 0..n
        invariant
            n == users@.len(),
            n > 0,
            forall|l: int| 0 <= l < users@.len() ==> users@[l].balance < 16384,
            total_balance(users@) <= u32::MAX,
            total == total_balance(users@),
            avg == witness_avg(users@),
            rt == running_value(users@, k - 1),
            -(total as int) <= rt <= total as int,
            i_witness@.len() == 16 * k,
            forall|l: int|
                0 <= l < 16 * k ==> fr_value(i_witness@[l]) == solvency_slot(
                    users@,
                    l / 16,
                    l % 16,
                ),
    {
        let b = users[k].balance;
        // the halving chain: chain[t] == b / 2^t, stopping once it reaches 0
        let mut chain: Vec<u32> = Vec::new();
        chain.push(b);
        let mut cur = b;
        proof {
            vstd::arithmetic::power2::lemma2_to64();
            assert((b as nat) / pow2(0) == b as nat);
        }
        while cur > 0
            invariant
                chain@.len() >= 1,
                cur == chain@.last(),
                forall|t: int| 0 <= t < chain@.len() ==> chain@[t] == (b as nat) / pow2(t as nat),
                forall|t: int| 0 <= t < chain@.len() - 1 ==> chain@[t] > 0,
            decreases cur,
        {
            let next = cur / 2;
            proof {
                let t = chain@.len() - 1;
                lemma_pow2_pos(t as nat);
                lemma_div_denominator(b as int, pow2(t as nat) as int, 2);
                lemma_pow2_unfold((t + 1) as nat);
                lemma_mul_is_commutative(pow2(t as nat) as int, 2);
            }
            chain.push(next);
            cur = next;
        }
        // slots 0 through 13
        let ghost i_pre = i_witness@;
        for j in 0..14
            invariant
                n == users@.len(),
                k < n,
                b == users@[k as int].balance,
                chain@.len() >= 1,
                chain@.last() == 0,
                forall|t: int| 0 <= t < chain@.len() ==> chain@[t] == (b as nat) / pow2(t as nat),
                forall|t: int| 0 <= t < chain@.len() - 1 ==> chain@[t] > 0,
                i_witness@.len() == 16 * k + j,
                i_witness@.subrange(0, 16 * (k as int)) == i_pre,
                forall|l: int|
                    16 * k <= l < 16 * k + j ==> fr_value(i_witness@[l]) == solvency_slot(
                        users@,
                        k as int,
                        l - 16 * k,
                    ),
        {
            let t = 14 - j;
            if t < chain.len() {
                proof {
                    assert(chain@[t - 1] > 0);
                    assert((b as nat) / pow2((t - 1) as nat) > 0);
                }
                i_witness.push(Scalar::from_u64(chain[t] as u64));
            } else {
                proof {
                    let last = chain@.len() - 1;
                    lemma_pow2_pos(last as nat);
                    lemma_pow2_pos((t - 1) as nat);
                    assert(pow2(last as nat) <= pow2((t - 1) as nat)) by {
                        if last < t - 1 {
                            vstd::arithmetic::power2::lemma_pow2_strictly_increases(
                                last as nat,
                                (t - 1) as nat,
                            );
                        }
                    }
                    lemma_div_is_ordered_by_denominator(
                        b as int,
                        pow2(last as nat) as int,
                        pow2((t - 1) as nat) as int,
                    );
                }
                i_witness.push(Scalar::zero());
            }
        }
        // slot 14: the balance itself
        i_witness.push(Scalar::from_u64(b as u64));
        // slot 15: the running total, embedded in the field when negative
        proof {
            lemma_total_prefix_step(users@, k as int);
            assert((k + 1) * (witness_avg(users@) as int) == (k as int) * (witness_avg(users@) as int)
                + witness_avg(users@)) by (nonlinear_arith);
            lemma_running_bounds(users@, k as int);
        }
        rt = rt + b as i64 - avg as i64;
        let slot15: Scalar;
        if rt >= 0 {
            slot15 = Scalar::from_u64(rt as u64);
        } else {
            let magnitude = Scalar::from_u64((-rt) as u64);
            slot15 = magnitude.neg();
            proof {
                lemma_small_mod((-rt) as nat, fr_order());
                lemma_small_mod((fr_order() - (-rt) as nat) as nat, fr_order());
            }
        }
        i_witness.push(slot15);
        proof {
            assert forall|l: int| 0 <= l < 16 * (k + 1) implies fr_value(i_witness@[l])
                == solvency_slot(users@, l / 16, l % 16) by {
                if l < 16 * k {
                    assert(i_witness@[l] == i_pre[l]);
                } else {
                    assert(l / 16 == k as int && l % 16 == l - 16 * k);
                }
            }
        }
    }
    // pad the identity table with the additive identity to the length of
    // the solvency table
    let target = i_witness.len();
    while p_witness.len() < target
        invariant
            n == users@.len(),
            target == 16 * n,
            2 * n <= target,
            p_witness@.len() >= 2 * n,
            p_witness@.len() <= target,
            forall|l: int|
                0 <= l < 2 * n ==> fr_value(p_witness@[l]) == (if l % 2 == 0 {
                    (users@[l / 2].username + users@[l / 2].salt) as nat
                } else {
                    users@[l / 2].balance as nat
                }),
            forall|l: int| 2 * n <= l < p_witness@.len() ==> fr_value(p_witness@[l]) == 0,
        decreases target - p_witness@.len(),
    {
        p_witness.push(Scalar::zero());
    }
    proof {
        assert(values(p_witness@) =~= p_table(users@));
        assert(values(i_witness@) =~= i_table(users@));
    }
    Ok((p_witness, i_witness))
}

} // verus!
