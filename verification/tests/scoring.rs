use credit_capacity::portfolio::TransactionRecord;
use credit_capacity::portfolio::aggregate;
use credit_capacity::scoring::CHURN_RATE_PERCENT;
use credit_capacity::scoring::assess;

fn record(cents: i64, year: i32, month: i32) -> TransactionRecord {
    TransactionRecord { client_id: String::from("c"), amount_cents: cents, year, month }
}

#[test]
fn two_month_average_below_threshold() {
    // 1000.00 in 2024-01 and 2000.00 in 2024-02: average 1500.00,
    // score 15 - 1 = 14 points, which is not above 70: capacity 0.
    let records = vec![record(100000, 2024, 1), record(200000, 2024, 2)];
    let assessment = assess(&aggregate(&records));
    assert_eq!(assessment.average_monthly_revenue, 150000);
    assert_eq!(assessment.churn_rate_percent, CHURN_RATE_PERCENT);
    assert_eq!(assessment.score_e4, 140000); // 14 points
    assert_eq!(assessment.approved_capacity, 0);
}

#[test]
fn empty_portfolio_scores_zero() {
    let records: Vec<TransactionRecord> = Vec::new();
    let assessment = assess(&aggregate(&records));
    assert_eq!(assessment.average_monthly_revenue, 0);
    assert_eq!(assessment.approved_capacity, 0);
}

#[test]
fn average_exactly_7100_is_rejected() {
    // Average 7100.00 scores 71 - 1 = 70, and the approval bound is
    // a strict inequality: 70 is not above 70, so no capacity.
    let one_month = vec![record(710000, 2024, 1)];
    let assessment = assess(&aggregate(&one_month));
    assert_eq!(assessment.average_monthly_revenue, 710000);
    assert_eq!(assessment.score_e4, 700000); // exactly 70 points
    assert_eq!(assessment.approved_capacity, 0);

    let three_months = vec![
        record(710000, 2024, 1),
        record(700000, 2024, 2),
        record(720000, 2024, 3),
    ];
    let assessment = assess(&aggregate(&three_months));
    assert_eq!(assessment.average_monthly_revenue, 710000);
    assert_eq!(assessment.approved_capacity, 0);
}

#[test]
fn average_just_above_7100_grants_capacity() {
    // Average 7101.00: score 71.01 - 1 = 70.01 > 70, so the capacity
    // is the average itself.
    let records = vec![record(710100, 2024, 1)];
    let assessment = assess(&aggregate(&records));
    assert_eq!(assessment.average_monthly_revenue, 710100);
    assert_eq!(assessment.score_e4, 700100); // 70.01 points
    assert_eq!(assessment.approved_capacity, 710100);
}

#[test]
fn average_8001_grants_capacity() {
    // Average 8001.00: score 80.01 - 1 = 79.01 > 70, so the capacity
    // is the average itself.
    let records = vec![record(800100, 2024, 1)];
    let assessment = assess(&aggregate(&records));
    assert_eq!(assessment.average_monthly_revenue, 800100);
    assert_eq!(assessment.score_e4, 790100); // 79.01 points
    assert_eq!(assessment.approved_capacity, 800100);
}

#[test]
fn capacity_is_average_when_granted() {
    let records = vec![record(2000000, 2024, 1), record(1000000, 2024, 2)];
    let assessment = assess(&aggregate(&records));
    assert_eq!(assessment.average_monthly_revenue, 1500000);
    assert_eq!(assessment.approved_capacity, 1500000);
}

#[test]
fn truncating_average() {
    // 100.01 over two months: average 50.00 after truncation to cents.
    let records = vec![record(5000, 2024, 1), record(5001, 2024, 2)];
    let assessment = assess(&aggregate(&records));
    assert_eq!(assessment.average_monthly_revenue, 5000);
}
