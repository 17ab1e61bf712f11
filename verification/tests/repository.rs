//! The in-memory repository: its contract and its invariants.

use sunminimart_server::domain::{Date, RepoError, SaleError};
use sunminimart_server::allocator::Consumption;
use sunminimart_server::store::Store;

fn seeded_store() -> Store {
    let mut s = Store::new();
    s.create_product("A".to_string(), "Apples".to_string(), 10700).unwrap();
    s.create_product("B".to_string(), "Beans".to_string(), 5350).unwrap();
    s.add_batch(&"A".to_string(), 5000, 5, None).unwrap();
    s.add_batch(&"B".to_string(), 2000, 8, None).unwrap();
    s.add_batch(&"A".to_string(), 6000, 3, None).unwrap();
    s
}

/// A barcode can be taken only once.
#[test]
fn create_product_refuses_a_taken_barcode() {
    let mut s = Store::new();
    assert_eq!(s.create_product("A".to_string(), "Apples".to_string(), 100), Ok(()));
    assert_eq!(
        s.create_product("A".to_string(), "Apricots".to_string(), 200),
        Err(RepoError::Conflict)
    );
    assert_eq!(s.products.len(), 1);
    assert_eq!(s.products[0].name, "Apples");
}

/// A batch can only restock an existing product.
#[test]
fn add_batch_requires_the_product() {
    let mut s = Store::new();
    assert_eq!(s.add_batch(&"A".to_string(), 100, 5, None), Err(RepoError::NotFound));
    assert_eq!(s.batches.len(), 0);
}

/// Batch ids are handed out in strictly increasing creation order,
/// and an expiry date travels with its batch.
#[test]
fn add_batch_assigns_increasing_ids() {
    let mut s = Store::new();
    s.create_product("A".to_string(), "Apples".to_string(), 100).unwrap();
    let expiry = Date::from_ymd(2026, 2, 28);
    assert!(expiry.is_some());
    let id1 = s.add_batch(&"A".to_string(), 10, 1, expiry).unwrap();
    let id2 = s.add_batch(&"A".to_string(), 20, 2, None).unwrap();
    assert!(id1 < id2);
    assert_eq!(s.batches[0].expiry, expiry);
    assert_eq!(s.batches[1].expiry, None);
}

/// Listing returns exactly the product's batches, oldest (lowest id)
/// first — the depletion policy order.
#[test]
fn list_batches_is_fifo_by_id() {
    let s = seeded_store();
    let a = s.list_batches(&"A".to_string());
    assert_eq!(a.len(), 2);
    assert!(a[0].id < a[1].id);
    assert_eq!(a[0].cost, 5000);
    assert_eq!(a[1].cost, 6000);
    assert!(a.iter().all(|b| b.barcode == "A"));
    let none = s.list_batches(&"Z".to_string());
    assert_eq!(none.len(), 0);
}

/// A product lookup returns the catalog row, and nothing for an
/// unknown barcode.
#[test]
fn get_product_finds_the_row() {
    let s = seeded_store();
    let p = s.get_product(&"B".to_string()).unwrap();
    assert_eq!(p.name, "Beans");
    assert_eq!(p.price, 5350);
    assert!(s.get_product(&"Z".to_string()).is_none());
}

/// Deleting a product removes its batches with it (the cascade) but
/// never touches the ledger or other products' stock.
#[test]
fn delete_product_cascades_to_its_batches() {
    let mut s = seeded_store();
    let ledger_before = s.ledger.clone();
    s.delete_product(&"A".to_string());
    assert!(s.get_product(&"A".to_string()).is_none());
    assert_eq!(s.list_batches(&"A".to_string()).len(), 0);
    assert_eq!(s.list_batches(&"B".to_string()).len(), 1);
    assert_eq!(s.ledger, ledger_before);
}

/// Overwriting a quantity needs the batch to still exist.
#[test]
fn update_batch_quantity_conflicts_when_absent() {
    let mut s = seeded_store();
    assert_eq!(s.update_batch_quantity(999, 1), Err(RepoError::Conflict));
    let id = s.batches[0].id;
    assert_eq!(s.update_batch_quantity(id, 1), Ok(()));
    assert_eq!(s.batches[0].remaining, 1);
}

/// The optimistic write guard: a consumption applies only while the
/// batch still shows the remaining quantity the plan read.
#[test]
fn apply_consumption_guards_against_lost_updates() {
    let mut s = seeded_store();
    let id = s.batches[0].id;
    let c = Consumption { batch_id: id, consumed: 2, unit_cost: 5000, prior_remaining: 5 };
    assert_eq!(s.apply_consumption(&c), Ok(()));
    assert_eq!(s.batches[0].remaining, 3);
    // The same reading cannot be applied twice.
    assert_eq!(s.apply_consumption(&c), Err(SaleError::Concurrency));
    assert_eq!(s.batches[0].remaining, 3);
}

/// Read-only repository calls never mutate stored state: the store
/// is the same, field for field, before and after.
#[test]
fn readonly_calls_do_not_mutate() {
    let s = seeded_store();
    let snapshot = (s.products.clone(), s.batches.clone(), s.ledger.clone(), s.next_batch_id);
    let _ = s.get_product(&"A".to_string());
    let _ = s.get_product(&"Z".to_string());
    let _ = s.list_batches(&"A".to_string());
    let _ = s.list_batches(&"Z".to_string());
    assert_eq!(snapshot, (s.products.clone(), s.batches.clone(), s.ledger.clone(), s.next_batch_id));
}

/// Date validation: real calendar dates pass, malformed ones do not.
#[test]
fn date_validation_follows_the_calendar() {
    assert_eq!(Date::from_ymd(2024, 2, 29), Some(Date { year: 2024, month: 2, day: 29 }));
    assert_eq!(Date::from_ymd(2023, 2, 29), None);
    assert_eq!(Date::from_ymd(1900, 2, 29), None);
    assert_eq!(Date::from_ymd(2000, 2, 29), Some(Date { year: 2000, month: 2, day: 29 }));
    assert_eq!(Date::from_ymd(2025, 4, 31), None);
    assert_eq!(Date::from_ymd(2025, 13, 1), None);
    assert_eq!(Date::from_ymd(2025, 0, 1), None);
    assert_eq!(Date::from_ymd(2025, 12, 0), None);
    assert_eq!(Date::from_ymd(2025, 12, 31), Some(Date { year: 2025, month: 12, day: 31 }));
}
