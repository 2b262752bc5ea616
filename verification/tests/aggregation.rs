use credit_capacity::portfolio::TransactionRecord;
use credit_capacity::portfolio::aggregate;

fn record(client: &str, cents: i64, year: i32, month: i32) -> TransactionRecord {
    TransactionRecord { client_id: String::from(client), amount_cents: cents, year, month }
}

#[test]
fn groups_by_year_and_month() {
    let records = vec![record("a", 100000, 2024, 1), record("a", 200000, 2024, 2)];
    let revenue = aggregate(&records);
    assert_eq!(revenue.months_active(), 2);
    assert_eq!(revenue.lookup(2024, 1), Some(100000));
    assert_eq!(revenue.lookup(2024, 2), Some(200000));
    assert_eq!(revenue.lookup(2024, 3), None);
    assert_eq!(revenue.total_revenue(), 300000);
}

#[test]
fn same_month_amounts_are_summed() {
    let records = vec![
        record("a", 150000, 2023, 7),
        record("b", 25000, 2023, 7),
        record("a", 100, 2023, 7),
    ];
    let revenue = aggregate(&records);
    assert_eq!(revenue.months_active(), 1);
    assert_eq!(revenue.lookup(2023, 7), Some(175100));
    assert_eq!(revenue.total_revenue(), 175100);
}

#[test]
fn same_month_of_different_years_is_distinct() {
    let records = vec![record("a", 1000, 2023, 5), record("a", 2000, 2024, 5)];
    let revenue = aggregate(&records);
    assert_eq!(revenue.months_active(), 2);
    assert_eq!(revenue.lookup(2023, 5), Some(1000));
    assert_eq!(revenue.lookup(2024, 5), Some(2000));
}

#[test]
fn empty_portfolio_aggregates_to_nothing() {
    let records: Vec<TransactionRecord> = Vec::new();
    let revenue = aggregate(&records);
    assert_eq!(revenue.months_active(), 0);
    assert_eq!(revenue.total_revenue(), 0);
}

#[test]
fn total_does_not_depend_on_record_order() {
    let forward = vec![
        record("a", 100, 2024, 1),
        record("b", -250, 2024, 2),
        record("c", 7000, 2025, 1),
    ];
    let backward = vec![
        record("c", 7000, 2025, 1),
        record("b", -250, 2024, 2),
        record("a", 100, 2024, 1),
    ];
    let total_forward = aggregate(&forward).total_revenue();
    let total_backward = aggregate(&backward).total_revenue();
    assert_eq!(total_forward, 6850);
    assert_eq!(total_backward, 6850);
}

#[test]
fn negative_amounts_reduce_the_bucket() {
    let records = vec![record("a", 5000, 2024, 3), record("a", -2000, 2024, 3)];
    let revenue = aggregate(&records);
    assert_eq!(revenue.lookup(2024, 3), Some(3000));
    assert_eq!(revenue.total_revenue(), 3000);
}
