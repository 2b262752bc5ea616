//! Loan decisions: approval against the current capacity and the
//! twelve-month amortization schedule.

use vstd::prelude::*;
use vstd::arithmetic::div_mod::lemma_fundamental_div_mod;
use vstd::arithmetic::div_mod::lemma_fundamental_div_mod_converse;
use vstd::arithmetic::div_mod::lemma_mod_bound;
use crate::arith::div_trunc;

verus! {

/// The number of equal installments an approved loan is repaid in.
pub const SCHEDULE_MONTHS: usize = 12;

/// The outcome of one loan application.
pub struct LoanDecision {
    pub approved: bool,
    /// The amount granted, in cents; zero when rejected.
    pub approved_amount_cents: i64,
    /// The amortization schedule, one installment per month, in cents.
    pub payment_schedule: Vec<i64>,
}

/// A rejection: nothing granted, no schedule.
pub open spec fn is_rejection(d: LoanDecision) -> bool {
    &&& !d.approved
    &&& d.approved_amount_cents == 0
    &&& d.payment_schedule@.len() == 0
}

/// An approval of `amount` cents: the full amount granted, repaid in
/// twelve equal installments of a twelfth of the amount each.
pub open spec fn is_approval(d: LoanDecision, amount: int) -> bool {
    &&& d.approved
    &&& d.approved_amount_cents as int == amount
    &&& d.payment_schedule@.len() == SCHEDULE_MONTHS
    &&& forall|i: int|
        0 <= i < d.payment_schedule@.len() ==> #[trigger] d.payment_schedule@[i] as int
            == div_trunc(amount, SCHEDULE_MONTHS as int)
}

/// A request is granted exactly when some capacity is available and the
/// requested amount does not exceed it.
pub open spec fn approval_granted(amount: int, capacity: int) -> bool {
    capacity != 0 && amount <= capacity
}

/// The decision owed to a request of `amount` cents against `capacity`.
pub open spec fn decision_matches(d: LoanDecision, amount: int, capacity: int) -> bool {
    if approval_granted(amount, capacity) {
        is_approval(d, amount)
    } else {
        is_rejection(d)
    }
}

fn rejection() -> (d: LoanDecision)
    ensures
        is_rejection(d),
{
    LoanDecision { approved: false, approved_amount_cents: 0, payment_schedule: Vec::new() }
}

/// Decide a loan application of `amount_cents` against the available
/// capacity: rejected when no capacity is set or the request exceeds
/// it, otherwise approved in full with a twelve-month schedule.
pub fn decide_loan(amount_cents: i64, capacity_cents: i128) -> (d: LoanDecision)
    ensures
        decision_matches(d, amount_cents as int, capacity_cents as int),
        d.approved <==> (capacity_cents != 0 && amount_cents as int <= capacity_cents as int),
{
    if capacity_cents == 0 {
        return rejection();
    }
    if (amount_cents as i128) > capacity_cents {
        return rejection();
    }
    let monthly: i64 = amount_cents / 12;
    let mut schedule: Vec<i64> = Vec::new();
    let mut k: usize = 0;
    while k < SCHEDULE_MONTHS
        invariant
            k <= SCHEDULE_MONTHS,
            schedule@.len() == k,
            forall|i: int| 0 <= i < k ==> #[trigger] schedule@[i] == monthly,
        decreases SCHEDULE_MONTHS - k,
    {
        schedule.push(monthly);
        k += 1;
    }
    LoanDecision { approved: true, approved_amount_cents: amount_cents, payment_schedule: schedule }
}

/// Copy a decision field by field, so that the stored decision and the
/// returned one describe the same outcome.
pub fn duplicate_decision(d: &LoanDecision) -> (r: LoanDecision)
    ensures
        r.approved == d.approved,
        r.approved_amount_cents == d.approved_amount_cents,
        r.payment_schedule@ == d.payment_schedule@,
{
    let mut schedule: Vec<i64> = Vec::new();
    let mut k: usize = 0;
    while k < d.payment_schedule.len()
        invariant
            k <= d.payment_schedule@.len(),
            schedule@.len() == k,
            forall|i: int| 0 <= i < k ==> #[trigger] schedule@[i] == d.payment_schedule@[i],
        decreases d.payment_schedule@.len() - k,
    {
        schedule.push(d.payment_schedule[k]);
        k += 1;
    }
    proof {
        assert(schedule@ =~= d.payment_schedule@);
    }
    LoanDecision {
        approved: d.approved,
        approved_amount_cents: d.approved_amount_cents,
        payment_schedule: schedule,
    }
}

/// A request within a positive capacity is always approved; one over
/// the capacity, or made while no capacity is set, is always rejected.
pub proof fn lemma_application_decision(d: LoanDecision, amount: int, capacity: int)
    requires
        decision_matches(d, amount, capacity),
    ensures
        (capacity > 0 && amount <= capacity) ==> d.approved,
        (capacity == 0 || amount > capacity) ==> !d.approved,
{
}

/// Sum of the installments of a schedule, in cents.
pub open spec fn sum_schedule(s: Seq<i64>) -> int
    decreases s.len(),
{
    if s.len() == 0 {
        0
    } else {
        sum_schedule(s.drop_last()) + s.last()
    }
}

proof fn lemma_sum_constant_schedule(s: Seq<i64>, p: i64)
    requires
        forall|i: int| 0 <= i < s.len() ==> #[trigger] s[i] == p,
    ensures
        sum_schedule(s) == s.len() * p,
    decreases s.len(),
{
    if s.len() > 0 {
        assert forall|i: int| 0 <= i < s.drop_last().len() implies #[trigger] s.drop_last()[i]
            == p by {
            assert(s.drop_last()[i] == s[i]);
        }
        lemma_sum_constant_schedule(s.drop_last(), p);
        assert(s.last() == s[s.len() - 1]);
        assert((s.len() as int) * p == (s.len() as int - 1) * p + p) by (nonlinear_arith);
    }
}

/// An approved schedule of amount `A` holds twelve equal installments
/// of `A` divided by twelve; their sum is `A` less only the sub-twelfth
/// truncation remainder, which is smaller than twelve cents, and is
/// exactly `A` whenever twelve divides `A`.
pub proof fn lemma_schedule_sums_to_amount(d: LoanDecision, amount: int)
    requires
        is_approval(d, amount),
    ensures
        sum_schedule(d.payment_schedule@) == 12 * div_trunc(amount, 12),
        amount % 12 == 0 ==> sum_schedule(d.payment_schedule@) == amount,
        -12 < amount - sum_schedule(d.payment_schedule@) < 12,
{
    assert(d.payment_schedule@[0] as int == div_trunc(amount, 12));
    lemma_sum_constant_schedule(d.payment_schedule@, d.payment_schedule@[0]);
    if amount >= 0 {
        lemma_fundamental_div_mod(amount, 12);
        lemma_mod_bound(amount, 12);
    } else {
        let m = -amount;
        lemma_fundamental_div_mod(m, 12);
        lemma_mod_bound(m, 12);
        if amount % 12 == 0 {
            lemma_fundamental_div_mod(amount, 12);
            lemma_fundamental_div_mod_converse(m, 12, -(amount / 12), 0);
        }
    }
}

} // verus!
