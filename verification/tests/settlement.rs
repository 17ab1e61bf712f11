//! Atomic settlement of whole sale requests against the store.

use sunminimart_server::domain::{SaleError, Sell};
use sunminimart_server::settle::settle_sale;
use sunminimart_server::store::Store;

fn seeded_store() -> Store {
    let mut s = Store::new();
    s.create_product("A".to_string(), "Apples".to_string(), 10700).unwrap();
    s.create_product("B".to_string(), "Beans".to_string(), 5350).unwrap();
    s.add_batch(&"A".to_string(), 5000, 5, None).unwrap();
    s.add_batch(&"B".to_string(), 2000, 8, None).unwrap();
    s.add_batch(&"A".to_string(), 6000, 3, None).unwrap();
    s
}

fn sell(barcode: &str, amount: u16) -> Sell {
    Sell { barcode: barcode.to_string(), amount }
}

fn snapshot(s: &Store) -> (Vec<sunminimart_server::domain::Product>, Vec<sunminimart_server::domain::StockBatch>, Vec<sunminimart_server::ledger::LedgerEntry>, u32) {
    (s.products.clone(), s.batches.clone(), s.ledger.clone(), s.next_batch_id)
}

/// A two-line-item request settles atomically: both products'
/// batches are depleted in FIFO order, and the ledger holds one row
/// per batch touched, with each batch's own cost basis.
#[test]
fn settle_commits_a_two_item_request() {
    let mut s = seeded_store();
    let request = vec![sell("A", 7), sell("B", 2)];
    assert_eq!(settle_sale(&mut s, &request, 42), Ok(()));
    let a = s.list_batches(&"A".to_string());
    assert_eq!(a[0].remaining, 0);
    assert_eq!(a[1].remaining, 1);
    let b = s.list_batches(&"B".to_string());
    assert_eq!(b[0].remaining, 6);
    assert_eq!(s.ledger.len(), 3);
    assert_eq!(s.ledger[0].unit_cost, 5000);
    assert_eq!(s.ledger[0].quantity, 5);
    assert_eq!(s.ledger[1].unit_cost, 6000);
    assert_eq!(s.ledger[1].quantity, 2);
    assert_eq!(s.ledger[2].barcode, "B");
    assert_eq!(s.ledger[2].quantity, 2);
    assert!(s.ledger.iter().all(|e| e.created_at == 42));
}

/// A later line item of the same product sees the depletions of the
/// earlier one: the same transaction reads its own writes.
#[test]
fn settle_lets_later_items_see_earlier_depletions() {
    let mut s = seeded_store();
    let request = vec![sell("A", 4), sell("A", 3)];
    assert_eq!(settle_sale(&mut s, &request, 1), Ok(()));
    let a = s.list_batches(&"A".to_string());
    assert_eq!(a[0].remaining, 0);
    assert_eq!(a[1].remaining, 1);
    // Three rows: 4 from the first batch, then 1 + 2 across both.
    assert_eq!(s.ledger.len(), 3);
    assert_eq!(s.ledger[0].quantity, 4);
    assert_eq!(s.ledger[1].quantity, 1);
    assert_eq!(s.ledger[2].quantity, 2);
}

/// Selling the same product more than the two items together can
/// draw fails on the item that breaks the bank.
#[test]
fn settle_fails_where_combined_items_oversell() {
    let mut s = seeded_store();
    let before = snapshot(&s);
    let request = vec![sell("A", 6), sell("A", 3)];
    let f = settle_sale(&mut s, &request, 1).unwrap_err();
    assert_eq!(f.index, 1);
    assert_eq!(f.error, SaleError::InsufficientStock { requested: 3, available: 2 });
    assert_eq!(snapshot(&s), before);
}

/// A failure on the second line item leaves the first item's batch
/// quantities and the ledger completely unchanged: the request is
/// all-or-nothing.
#[test]
fn settle_rolls_back_the_whole_request_on_late_failure() {
    let mut s = seeded_store();
    let before = snapshot(&s);
    let request = vec![sell("A", 2), sell("B", 100)];
    let f = settle_sale(&mut s, &request, 9).unwrap_err();
    assert_eq!(f.index, 1);
    assert_eq!(f.barcode, "B");
    assert_eq!(f.error, SaleError::InsufficientStock { requested: 100, available: 8 });
    assert_eq!(snapshot(&s), before);
}

/// A barcode with no product fails that line item.
#[test]
fn settle_refuses_an_unknown_product() {
    let mut s = seeded_store();
    let before = snapshot(&s);
    let request = vec![sell("Z", 1)];
    let f = settle_sale(&mut s, &request, 9).unwrap_err();
    assert_eq!(f.index, 0);
    assert_eq!(f.barcode, "Z");
    assert_eq!(f.error, SaleError::UnknownProduct);
    assert_eq!(snapshot(&s), before);
}

/// A zero quantity is malformed and refused before any stock is
/// touched.
#[test]
fn settle_refuses_a_zero_quantity() {
    let mut s = seeded_store();
    let before = snapshot(&s);
    let request = vec![sell("A", 0)];
    let f = settle_sale(&mut s, &request, 9).unwrap_err();
    assert_eq!(f.index, 0);
    assert_eq!(f.error, SaleError::Validation);
    assert_eq!(snapshot(&s), before);
}

/// An empty request settles as a no-op.
#[test]
fn settle_commits_an_empty_request() {
    let mut s = seeded_store();
    let before = snapshot(&s);
    let request: Vec<Sell> = Vec::new();
    assert_eq!(settle_sale(&mut s, &request, 9), Ok(()));
    assert_eq!(snapshot(&s), before);
}
