//! The ledger poster on a concrete depletion plan.

use sunminimart_server::allocator::Consumption;
use sunminimart_server::ledger::post;

/// One row is posted per plan entry — per batch touched — carrying
/// that batch's own cost basis; the quantities of the rows sum to the
/// quantity sold, and profit and VAT are the per-unit fixed-rate
/// split of the price.
#[test]
fn post_writes_one_row_per_batch_touched() {
    let barcode = "4711".to_string();
    let name = "Rice 1kg".to_string();
    let price: u32 = 10700;
    let plan = vec![
        Consumption { batch_id: 1, consumed: 5, unit_cost: 5000, prior_remaining: 5 },
        Consumption { batch_id: 2, consumed: 2, unit_cost: 6000, prior_remaining: 3 },
    ];
    let entries = post(&barcode, &name, price, &plan, 1234567);
    assert_eq!(entries.len(), 2);

    assert_eq!(entries[0].barcode, "4711");
    assert_eq!(entries[0].name, "Rice 1kg");
    assert_eq!(entries[0].unit_cost, 5000);
    assert_eq!(entries[0].unit_price, 10700);
    assert_eq!(entries[0].quantity, 5);
    assert_eq!(entries[0].profit, 5000);
    assert_eq!(entries[0].vat, 700);
    assert_eq!(entries[0].created_at, 1234567);

    assert_eq!(entries[1].unit_cost, 6000);
    assert_eq!(entries[1].quantity, 2);
    assert_eq!(entries[1].profit, 4000);
    assert_eq!(entries[1].vat, 700);

    let total: u32 = entries.iter().map(|e| e.quantity as u32).sum();
    assert_eq!(total, 7);
}

/// An empty plan posts no rows.
#[test]
fn post_writes_nothing_for_an_empty_plan() {
    let plan: Vec<Consumption> = Vec::new();
    let entries = post(&"1".to_string(), &"x".to_string(), 500, &plan, 7);
    assert_eq!(entries.len(), 0);
}
