//! The shared system state: the current lending capacity and the most
//! recent approved loan decision, with the three operations that read
//! and write it (ingest, apply, status).
//!
//! The caller is expected to hold the state behind an exclusive-access
//! primitive; every operation here works on an exclusively borrowed
//! value, so one full operation is one critical section.

use vstd::prelude::*;
use crate::loan::LoanDecision;
use crate::loan::approval_granted;
use crate::loan::decide_loan;
use crate::loan::decision_matches;
use crate::loan::duplicate_decision;
use crate::loan::is_approval;
use crate::portfolio::TransactionRecord;
use crate::portfolio::aggregate;
use crate::portfolio::num_distinct_keys;
use crate::portfolio::sum_amounts;
use crate::scoring::assess;
use crate::scoring::lemma_granted_capacity_nonnegative;
use crate::scoring::spec_capacity;

verus! {

/// What a status query reports about the loan.
#[derive(Clone, Copy, Debug, PartialEq, Eq, Structural)]
pub enum LoanState {
    /// An application has been approved.
    Approved,
    /// No application has been approved yet.
    Pending,
}

impl LoanState {
    /// The label this state is reported under.
    pub fn label(&self) -> (s: &'static str)
        ensures
            self is Approved ==> s@ == "Approved"@,
            self is Pending ==> s@ == "Pending"@,
    {
        match self {
            LoanState::Approved => "Approved",
            LoanState::Pending => "Pending",
        }
    }
}

/// The answer to a status query: the state label and, once an
/// application was approved, the approved amount in cents.
#[derive(Clone, Debug)]
pub struct LoanStatusReport {
    pub state: LoanState,
    pub amount_cents: Option<i64>,
}

/// The status owed for a stored decision: the last approved amount, or
/// pending when no application was ever approved.
pub open spec fn spec_status(d: Option<LoanDecision>) -> LoanStatusReport {
    match d {
        Some(dec) => LoanStatusReport {
            state: LoanState::Approved,
            amount_cents: Some(dec.approved_amount_cents),
        },
        None => LoanStatusReport { state: LoanState::Pending, amount_cents: None },
    }
}

/// The process-wide mutable state: current capacity and the most
/// recent approved decision.
pub struct SystemState {
    capacity_cents: i128,
    latest_decision: Option<LoanDecision>,
}

/// How one loan application changes the system state: the decision
/// matches the capacity that was current when the application arrived,
/// the capacity is untouched, and only an approval overwrites the
/// stored decision — a rejection leaves it exactly as it was.
pub open spec fn apply_transition(
    pre: SystemState,
    post: SystemState,
    amount: int,
    d: LoanDecision,
) -> bool {
    &&& decision_matches(d, amount, pre.capacity_spec())
    &&& post.capacity_spec() == pre.capacity_spec()
    &&& if approval_granted(amount, pre.capacity_spec()) {
        match post.decision_spec() {
            Some(stored) => is_approval(stored, amount),
            None => false,
        }
    } else {
        post.decision_spec() == pre.decision_spec()
    }
}

impl SystemState {
    /// The capacity is never negative: it starts at zero, and scoring
    /// only ever stores zero or a positive average.
    #[verifier::type_invariant]
    closed spec fn capacity_nonnegative(self) -> bool {
        self.capacity_cents >= 0
    }

    /// The current lending capacity, in cents.
    pub closed spec fn capacity_spec(&self) -> int {
        self.capacity_cents as int
    }

    /// The most recent approved decision, if any.
    pub closed spec fn decision_spec(&self) -> Option<LoanDecision> {
        self.latest_decision
    }

    /// A fresh state: no capacity, no decision.
    pub fn new() -> (s: SystemState)
        ensures
            s.capacity_spec() == 0,
            s.decision_spec() is None,
    {
        SystemState { capacity_cents: 0, latest_decision: None }
    }

    /// Read the current capacity, in cents.  Never negative: it is
    /// zero, or an average whose score cleared the threshold.
    pub fn current_capacity(&self) -> (c: i128)
        ensures
            c as int == self.capacity_spec(),
            c >= 0,
    {
        proof {
            use_type_invariant(self);
        }
        self.capacity_cents
    }

    /// Ingest a portfolio: aggregate the records by month, score the
    /// result, and store the derived capacity, replacing any prior
    /// value unconditionally.  The stored decision is untouched.
    /// Returns the new capacity, in cents.
    pub fn ingest_portfolio(&mut self, records: &Vec<TransactionRecord>) -> (capacity: i128)
        ensures
            final(self).capacity_spec() == spec_capacity(
                sum_amounts(records@),
                num_distinct_keys(records@),
            ),
            final(self).decision_spec() == old(self).decision_spec(),
            capacity as int == final(self).capacity_spec(),
            capacity >= 0,
    {
        let revenue = aggregate(records);
        let assessment = assess(&revenue);
        proof {
            lemma_granted_capacity_nonnegative(revenue.total_spec(), revenue.months_spec());
        }
        self.capacity_cents = assessment.approved_capacity;
        assessment.approved_capacity
    }

    /// Apply for a loan of `amount_cents` against the current capacity.
    /// The decision is returned either way; only an approval is stored.
    /// A request is approved exactly when the capacity is positive and
    /// covers the requested amount.
    pub fn apply_loan(&mut self, amount_cents: i64) -> (d: LoanDecision)
        ensures
            apply_transition(*old(self), *final(self), amount_cents as int, d),
            d.approved <==> (old(self).capacity_spec() > 0 && amount_cents as int <= old(
                self,
            ).capacity_spec()),
    {
        proof {
            use_type_invariant(&*self);
        }
        let d = decide_loan(amount_cents, self.capacity_cents);
        if d.approved {
            let stored = duplicate_decision(&d);
            self.latest_decision = Some(stored);
        }
        d
    }

    /// Query the loan status.  Read-only: reports the last approved
    /// application, or pending when none was ever approved.
    pub fn loan_status(&self) -> (r: LoanStatusReport)
        ensures
            r == spec_status(self.decision_spec()),
    {
        match &self.latest_decision {
            Some(d) => LoanStatusReport {
                state: LoanState::Approved,
                amount_cents: Some(d.approved_amount_cents),
            },
            None => LoanStatusReport { state: LoanState::Pending, amount_cents: None },
        }
    }
}

impl Default for SystemState {
    /// The state a process starts in: capacity zero, no decision.
    fn default() -> (s: SystemState)
        ensures
            s.capacity_spec() == 0,
            s.decision_spec() is None,
    {
        SystemState::new()
    }
}

/// The status always reflects the last approved application: an
/// approved application makes the status report its amount, while a
/// rejected one leaves the status exactly as it was — including the
/// amount of an earlier approval.
pub proof fn lemma_status_tracks_approvals(
    pre: SystemState,
    post: SystemState,
    amount: int,
    d: LoanDecision,
)
    requires
        apply_transition(pre, post, amount, d),
    ensures
        d.approved ==> spec_status(post.decision_spec()) == (LoanStatusReport {
            state: LoanState::Approved,
            amount_cents: Some(d.approved_amount_cents),
        }),
        !d.approved ==> spec_status(post.decision_spec()) == spec_status(pre.decision_spec()),
{
}

} // verus!
