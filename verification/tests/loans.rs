use credit_capacity::loan::decide_loan;
use credit_capacity::portfolio::TransactionRecord;
use credit_capacity::state::LoanState;
use credit_capacity::state::SystemState;

fn record(cents: i64, year: i32, month: i32) -> TransactionRecord {
    TransactionRecord { client_id: String::from("c"), amount_cents: cents, year, month }
}

#[test]
fn status_starts_pending() {
    let state = SystemState::new();
    let status = state.loan_status();
    assert_eq!(status.state, LoanState::Pending);
    assert_eq!(status.state.label(), "Pending");
    assert_eq!(status.amount_cents, None);
}

#[test]
fn apply_without_capacity_is_rejected() {
    let mut state = SystemState::new();
    let decision = state.apply_loan(100);
    assert!(!decision.approved);
    assert_eq!(decision.approved_amount_cents, 0);
    assert!(decision.payment_schedule.is_empty());
    let status = state.loan_status();
    assert_eq!(status.state, LoanState::Pending);
    assert_eq!(status.amount_cents, None);
}

#[test]
fn approved_flow_with_schedule() {
    // Average 8001.00 grants capacity 8001.00; a request of 5000.00 is
    // approved with twelve installments of 5000.00 / 12 = 416.66.
    let mut state = SystemState::new();
    let capacity = state.ingest_portfolio(&vec![record(800100, 2024, 1)]);
    assert_eq!(capacity, 800100);
    assert_eq!(state.current_capacity(), 800100);

    let decision = state.apply_loan(500000);
    assert!(decision.approved);
    assert_eq!(decision.approved_amount_cents, 500000);
    assert_eq!(decision.payment_schedule.len(), 12);
    for installment in &decision.payment_schedule {
        assert_eq!(*installment, 41666);
    }

    let status = state.loan_status();
    assert_eq!(status.state, LoanState::Approved);
    assert_eq!(status.state.label(), "Approved");
    assert_eq!(status.amount_cents, Some(500000));
}

#[test]
fn over_limit_request_is_rejected() {
    let mut state = SystemState::new();
    state.ingest_portfolio(&vec![record(800100, 2024, 1)]);
    let decision = state.apply_loan(800101);
    assert!(!decision.approved);
    assert_eq!(decision.approved_amount_cents, 0);
    assert!(decision.payment_schedule.is_empty());
}

#[test]
fn request_of_exactly_the_capacity_is_approved() {
    let mut state = SystemState::new();
    state.ingest_portfolio(&vec![record(800100, 2024, 1)]);
    let decision = state.apply_loan(800100);
    assert!(decision.approved);
    assert_eq!(decision.approved_amount_cents, 800100);
}

#[test]
fn rejection_keeps_the_last_approved_status() {
    let mut state = SystemState::new();
    state.ingest_portfolio(&vec![record(800100, 2024, 1)]);
    let approved = state.apply_loan(120000);
    assert!(approved.approved);

    let rejected = state.apply_loan(800101);
    assert!(!rejected.approved);

    // The status still reports the earlier approval.
    let status = state.loan_status();
    assert_eq!(status.state, LoanState::Approved);
    assert_eq!(status.amount_cents, Some(120000));
}

#[test]
fn schedule_sums_exactly_when_divisible() {
    let mut state = SystemState::new();
    state.ingest_portfolio(&vec![record(2000000, 2024, 1)]);
    let decision = state.apply_loan(1200000);
    assert!(decision.approved);
    assert_eq!(decision.payment_schedule.len(), 12);
    let total: i64 = decision.payment_schedule.iter().sum();
    assert_eq!(total, 1200000);
    for installment in &decision.payment_schedule {
        assert_eq!(*installment, 100000);
    }
}

#[test]
fn schedule_truncates_sub_cent_installments() {
    let mut state = SystemState::new();
    state.ingest_portfolio(&vec![record(2000000, 2024, 1)]);
    let decision = state.apply_loan(500000);
    assert!(decision.approved);
    let total: i64 = decision.payment_schedule.iter().sum();
    assert_eq!(total, 499992); // 5000.00 less 8 sub-installment cents
}

#[test]
fn reingesting_resets_the_capacity() {
    let mut state = SystemState::new();
    state.ingest_portfolio(&vec![record(800100, 2024, 1)]);
    assert_eq!(state.current_capacity(), 800100);

    // A weaker portfolio takes the capacity away again.
    let capacity = state.ingest_portfolio(&vec![record(100000, 2024, 1)]);
    assert_eq!(capacity, 0);
    let decision = state.apply_loan(100);
    assert!(!decision.approved);
}

#[test]
fn decide_loan_is_pure_over_its_inputs() {
    let rejected = decide_loan(500, 0);
    assert!(!rejected.approved);

    let approved = decide_loan(500, 600);
    assert!(approved.approved);
    assert_eq!(approved.approved_amount_cents, 500);
    assert_eq!(approved.payment_schedule.len(), 12);
    assert_eq!(approved.payment_schedule[0], 41);
}
