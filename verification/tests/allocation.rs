//! The batch allocator on concrete batch runs.

use sunminimart_server::allocator::allocate;
use sunminimart_server::domain::{SaleError, StockBatch};

fn batch(id: u32, barcode: &str, cost: u32, remaining: u16) -> StockBatch {
    StockBatch { id, barcode: barcode.to_string(), cost, remaining, expiry: None }
}

/// Selling within the total consumes batches in FIFO order: the
/// oldest batch is drained first, the next covers the rest, and later
/// batches stay untouched.
#[test]
fn allocate_spans_batches_in_fifo_order() {
    let batches = vec![batch(1, "A", 300, 5), batch(2, "A", 350, 3), batch(3, "A", 400, 4)];
    let plan = allocate(7, &batches).unwrap();
    assert_eq!(plan.len(), 2);
    assert_eq!(plan[0].batch_id, 1);
    assert_eq!(plan[0].consumed, 5);
    assert_eq!(plan[0].unit_cost, 300);
    assert_eq!(plan[0].prior_remaining, 5);
    assert_eq!(plan[1].batch_id, 2);
    assert_eq!(plan[1].consumed, 2);
    assert_eq!(plan[1].unit_cost, 350);
    assert_eq!(plan[1].prior_remaining, 3);
    let consumed: u32 = plan.iter().map(|c| c.consumed as u32).sum();
    assert_eq!(consumed, 7);
}

/// Selling more than the batches hold fails closed with the total
/// actually available, and hands back no plan at all.
#[test]
fn allocate_fails_closed_on_insufficient_stock() {
    let batches = vec![batch(1, "A", 300, 2), batch(2, "A", 350, 3)];
    let r = allocate(6, &batches);
    assert_eq!(r, Err(SaleError::InsufficientStock { requested: 6, available: 5 }));
}

/// An exhausted batch contributes no plan entry; the demand moves on
/// to the next batch.
#[test]
fn allocate_passes_over_exhausted_batches() {
    let batches = vec![batch(1, "A", 300, 0), batch(2, "A", 350, 4)];
    let plan = allocate(3, &batches).unwrap();
    assert_eq!(plan.len(), 1);
    assert_eq!(plan[0].batch_id, 2);
    assert_eq!(plan[0].consumed, 3);
}

/// Selling exactly the total drains every batch.
#[test]
fn allocate_drains_all_on_exact_total() {
    let batches = vec![batch(1, "A", 300, 2), batch(2, "A", 350, 3)];
    let plan = allocate(5, &batches).unwrap();
    assert_eq!(plan.len(), 2);
    assert_eq!(plan[0].consumed, 2);
    assert_eq!(plan[1].consumed, 3);
}

/// With no batches at all, any positive request is refused with an
/// availability of zero.
#[test]
fn allocate_refuses_on_no_batches() {
    let batches: Vec<StockBatch> = Vec::new();
    let r = allocate(1, &batches);
    assert_eq!(r, Err(SaleError::InsufficientStock { requested: 1, available: 0 }));
}
