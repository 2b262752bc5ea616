//! Capacity scoring: from aggregated monthly revenue to a lending capacity.
//!
//! The average monthly revenue is discounted by a fixed churn rate and
//! gated: capacity equals the average monthly revenue when the score
//! strictly exceeds the approval threshold, and zero otherwise.
//!
//! Scores are held in ten-thousandths of a point, so that the score of
//! an average expressed in cents is exact: a cent of average revenue is
//! worth one ten-thousandth of a point before the churn discount.

use vstd::prelude::*;
use crate::arith::div_trunc;
use crate::arith::div_trunc_i128;
use crate::arith::lemma_div_trunc_bounds;
use crate::portfolio::MonthlyRevenue;
use crate::portfolio::max_sum_abs;

verus! {

/// Fixed churn rate, in percent.  A design placeholder, not derived
/// from the data; it discounts the score by a tenth of a point per
/// percent of churn.
pub const CHURN_RATE_PERCENT: u32 = 10;

/// The churn discount taken off the score, in ten-thousandths of a
/// point: the churn rate over one hundred, times ten points — one
/// point at the fixed rate.
pub const CHURN_DISCOUNT_E4: i128 = 10000;

/// The score a capacity must strictly exceed to be approved, in
/// ten-thousandths of a point (70 points).
pub const SCORE_APPROVAL_THRESHOLD_E4: i128 = 700000;

/// Average monthly revenue in cents: the total over all buckets spread
/// over the months with activity, zero when there was no activity.
pub open spec fn spec_average(total: int, months: int) -> int {
    if months == 0 {
        0
    } else {
        div_trunc(total, months)
    }
}

/// The score of an average monthly revenue given in cents, in
/// ten-thousandths of a point: one point per hundred currency units of
/// average revenue, minus the churn discount.
pub open spec fn spec_score_e4(avg: int) -> int {
    avg - CHURN_DISCOUNT_E4
}

/// The capacity granted for an average monthly revenue: the average
/// itself when its score strictly exceeds the threshold, else zero.
pub open spec fn spec_capacity_from_average(avg: int) -> int {
    if spec_score_e4(avg) > SCORE_APPROVAL_THRESHOLD_E4 {
        avg
    } else {
        0
    }
}

/// The capacity derived from a revenue total and a month count.
pub open spec fn spec_capacity(total: int, months: int) -> int {
    spec_capacity_from_average(spec_average(total, months))
}

/// The outcome of scoring one aggregated portfolio.
pub struct CapacityAssessment {
    /// Average monthly revenue, in cents.
    pub average_monthly_revenue: i128,
    /// The fixed churn rate used, in percent.
    pub churn_rate_percent: u32,
    /// The score, in ten-thousandths of a point.
    pub score_e4: i128,
    /// The lending capacity granted, in cents.
    pub approved_capacity: i128,
}

impl CapacityAssessment {
    /// The fields agree: the score is the score of the average, and the
    /// capacity is gated on that score.
    pub open spec fn wf(&self) -> bool {
        &&& self.churn_rate_percent == CHURN_RATE_PERCENT
        &&& self.score_e4 as int == spec_score_e4(self.average_monthly_revenue as int)
        &&& self.approved_capacity as int == spec_capacity_from_average(
            self.average_monthly_revenue as int,
        )
    }
}

/// Score an aggregated portfolio: compute the average monthly revenue,
/// the churn-discounted score, and the gated capacity.
pub fn assess(revenue: &MonthlyRevenue) -> (a: CapacityAssessment)
    requires
        revenue.wf(),
    ensures
        a.wf(),
        a.average_monthly_revenue as int == spec_average(
            revenue.total_spec(),
            revenue.months_spec(),
        ),
        a.approved_capacity as int == spec_capacity(revenue.total_spec(), revenue.months_spec()),
{
    proof {
        revenue.lemma_total_bounded();
        assert(max_sum_abs() == 0x7fffffffffffffff8000000000000000int) by (nonlinear_arith);
    }
    let total = revenue.total_revenue();
    let months = revenue.months_active();
    let avg: i128;
    if months == 0 {
        avg = 0;
    } else {
        avg = div_trunc_i128(total, months as i128);
        proof {
            lemma_div_trunc_bounds(total as int, months as int);
        }
    }
    let score: i128 = avg - CHURN_DISCOUNT_E4;
    let capacity: i128 = if score > SCORE_APPROVAL_THRESHOLD_E4 {
        avg
    } else {
        0
    };
    CapacityAssessment {
        average_monthly_revenue: avg,
        churn_rate_percent: CHURN_RATE_PERCENT,
        score_e4: score,
        approved_capacity: capacity,
    }
}

/// With an empty revenue map there is nothing to divide by: the
/// average monthly revenue is zero, and so is the capacity.
pub proof fn lemma_no_activity_zero_capacity(revenue: MonthlyRevenue)
    requires
        revenue.months_spec() == 0,
    ensures
        spec_average(revenue.total_spec(), revenue.months_spec()) == 0,
        spec_capacity(revenue.total_spec(), revenue.months_spec()) == 0,
{
}

/// The approved capacity takes no value besides zero and the average
/// monthly revenue itself.
pub proof fn lemma_capacity_zero_or_average(a: CapacityAssessment)
    requires
        a.wf(),
    ensures
        a.approved_capacity == 0 || a.approved_capacity == a.average_monthly_revenue,
{
}

/// A granted capacity is never negative: it is zero, or an average
/// whose score cleared a positive threshold.
pub proof fn lemma_granted_capacity_nonnegative(total: int, months: int)
    ensures
        spec_capacity(total, months) >= 0,
{
}

} // verus!
