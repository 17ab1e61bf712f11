//! Driving the transaction coordinator against the in-memory store,
//! the way an I/O layer drives it against a database: the store plays
//! the database, a cloned working copy plays the open transaction,
//! and commit or rollback decides whether the copy replaces the
//! original.

use sunminimart_server::coordinator::{Action, Coordinator, Phase, WriteOutcome};
use sunminimart_server::domain::{SaleError, Sell, StockBatch};
use sunminimart_server::ledger::LedgerEntry;
use sunminimart_server::settle::LineItemWrites;
use sunminimart_server::store::Store;

fn seeded_store() -> Store {
    let mut s = Store::new();
    s.create_product("A".to_string(), "Apples".to_string(), 10700).unwrap();
    s.create_product("B".to_string(), "Beans".to_string(), 5350).unwrap();
    s.add_batch(&"A".to_string(), 5000, 5, None).unwrap();
    s.add_batch(&"B".to_string(), 2000, 8, None).unwrap();
    s
}

fn sell(barcode: &str, amount: u16) -> Sell {
    Sell { barcode: barcode.to_string(), amount }
}

fn clone_store(s: &Store) -> Store {
    Store {
        products: s.products.clone(),
        batches: s.batches.clone(),
        ledger: s.ledger.clone(),
        next_batch_id: s.next_batch_id,
    }
}

fn fetch_index(a: &Action) -> usize {
    match a {
        Action::Fetch { index } => *index,
        other => panic!("expected a fetch, got {:?}", other),
    }
}

fn take_writes(a: Action) -> LineItemWrites {
    match a {
        Action::Apply { writes } => writes,
        other => panic!("expected writes to apply, got {:?}", other),
    }
}

/// Applies a line item's writes to the working copy through the
/// optimistic guard, reporting as a storage driver would.
fn apply_writes(tx: &mut Store, writes: &LineItemWrites) -> WriteOutcome {
    for c in writes.plan.iter() {
        if tx.apply_consumption(c).is_err() {
            return WriteOutcome::Conflict;
        }
    }
    tx.append_ledger_entries(&writes.entries);
    WriteOutcome::Applied
}

/// The happy path: begin, fetch and apply each line item, commit.
/// Every write of the request becomes durable at once.
#[test]
fn coordinator_commits_a_request() {
    let mut store = seeded_store();
    let request = vec![sell("A", 3), sell("B", 2)];
    let mut c = Coordinator::new(request, 77);
    assert!(matches!(c.start(), Action::Begin));
    let mut tx = clone_store(&store);
    let mut action = c.on_begin_result(true);
    loop {
        match action {
            Action::Fetch { index } => {
                let barcode = c.request[index].barcode.clone();
                let product = tx.get_product(&barcode);
                let batches = tx.list_batches(&barcode);
                action = c.on_fetched(product, batches);
            },
            Action::Apply { writes } => {
                let outcome = apply_writes(&mut tx, &writes);
                action = c.on_applied(outcome);
            },
            Action::Commit => {
                store = tx;
                action = c.on_commit_result(true);
                break;
            },
            other => panic!("unexpected action {:?}", other),
        }
    }
    assert!(matches!(action, Action::Done { committed: true }));
    assert_eq!(c.phase, Phase::Committed);
    assert_eq!(store.list_batches(&"A".to_string())[0].remaining, 2);
    assert_eq!(store.list_batches(&"B".to_string())[0].remaining, 6);
    assert_eq!(store.ledger.len(), 2);
    assert!(store.ledger.iter().all(|e: &LedgerEntry| e.created_at == 77));
}

/// A forced persistence failure on the second line item rolls the
/// whole request back: the first item's batch writes and ledger rows
/// are discarded with the transaction, and the store shows no trace.
#[test]
fn coordinator_rolls_back_when_a_write_fails() {
    let store = seeded_store();
    let before = clone_store(&store);
    let request = vec![sell("A", 3), sell("B", 2)];
    let mut c = Coordinator::new(request, 5);
    let mut tx = clone_store(&store);
    let action = c.on_begin_result(true);
    assert_eq!(fetch_index(&action), 0);

    let product = store.get_product(&"A".to_string());
    let batches = tx.list_batches(&"A".to_string());
    let writes = take_writes(c.on_fetched(product, batches));
    assert_eq!(apply_writes(&mut tx, &writes), WriteOutcome::Applied);
    let action = c.on_applied(WriteOutcome::Applied);
    assert_eq!(fetch_index(&action), 1);

    let product = store.get_product(&"B".to_string());
    let batches = tx.list_batches(&"B".to_string());
    let _writes = take_writes(c.on_fetched(product, batches));
    // The storage layer refuses this item's write.
    let action = c.on_applied(WriteOutcome::Failed);
    assert!(matches!(action, Action::Rollback));
    drop(tx);  // rollback: the working copy never replaces the store
    let action = c.on_rollback_result(true);
    assert!(matches!(action, Action::Done { committed: false }));
    assert_eq!(c.phase, Phase::RolledBack);

    let f = c.failure.clone().unwrap();
    assert_eq!(f.index, 1);
    assert_eq!(f.barcode, "B");
    assert_eq!(f.error, SaleError::Persistence);

    assert_eq!(store.products, before.products);
    assert_eq!(store.batches, before.batches);
    assert_eq!(store.ledger, before.ledger);
}

/// Two concurrent sales each want the one batch's full remaining
/// stock from the same reading.  The first write wins; the second
/// fails its optimistic check and rolls back, and the remaining
/// quantity ends at zero — never below.
#[test]
fn coordinator_refuses_the_second_concurrent_full_sale() {
    let mut store = Store::new();
    store.create_product("A".to_string(), "Apples".to_string(), 10700).unwrap();
    store.add_batch(&"A".to_string(), 5000, 5, None).unwrap();

    let mut c1 = Coordinator::new(vec![sell("A", 5)], 1);
    let mut c2 = Coordinator::new(vec![sell("A", 5)], 2);
    let a1 = c1.on_begin_result(true);
    let a2 = c2.on_begin_result(true);
    assert_eq!(fetch_index(&a1), 0);
    assert_eq!(fetch_index(&a2), 0);

    // Both transactions read the same state of the batch.
    let product: Option<sunminimart_server::domain::Product> =
        store.get_product(&"A".to_string());
    let batches: Vec<StockBatch> = store.list_batches(&"A".to_string());
    let w1 = take_writes(c1.on_fetched(product.clone(), batches.clone()));
    let w2 = take_writes(c2.on_fetched(product, batches));

    // The first write lands and commits.
    assert_eq!(apply_writes(&mut store, &w1), WriteOutcome::Applied);
    let _ = c1.on_applied(WriteOutcome::Applied);
    let _ = c1.on_commit_result(true);
    assert_eq!(c1.phase, Phase::Committed);

    // The second one finds the batch changed and must roll back.
    let outcome = apply_writes(&mut store, &w2);
    assert_eq!(outcome, WriteOutcome::Conflict);
    let action = c2.on_applied(outcome);
    assert!(matches!(action, Action::Rollback));
    let _ = c2.on_rollback_result(true);
    assert_eq!(c2.phase, Phase::RolledBack);
    assert_eq!(c2.failure.clone().unwrap().error, SaleError::Concurrency);

    // Exactly one sale went through; stock never goes negative.
    assert_eq!(store.list_batches(&"A".to_string())[0].remaining, 0);
    assert_eq!(store.ledger.len(), 1);
    assert_eq!(store.ledger[0].quantity, 5);
}

/// A line item that cannot be covered is found at planning time and
/// leads straight to rollback, itemized with the reason.
#[test]
fn coordinator_rolls_back_on_insufficient_stock() {
    let store = seeded_store();
    let mut c = Coordinator::new(vec![sell("A", 9)], 3);
    let _ = c.on_begin_result(true);
    let product = store.get_product(&"A".to_string());
    let batches = store.list_batches(&"A".to_string());
    let action = c.on_fetched(product, batches);
    assert!(matches!(action, Action::Rollback));
    let _ = c.on_rollback_result(true);
    let f = c.failure.clone().unwrap();
    assert_eq!(f.index, 0);
    assert_eq!(f.error, SaleError::InsufficientStock { requested: 9, available: 5 });
}

/// A transaction that cannot even begin is fatal: nothing was done,
/// and the machine lands in the broken state that demands attention.
#[test]
fn coordinator_treats_a_failed_begin_as_fatal() {
    let mut c = Coordinator::new(vec![sell("A", 1)], 3);
    let action = c.on_begin_result(false);
    assert!(matches!(action, Action::Done { committed: false }));
    assert_eq!(c.phase, Phase::Broken);
}

/// A commit the storage refuses is equally fatal, and distinct from
/// a business failure: no failure record is written.
#[test]
fn coordinator_treats_a_failed_commit_as_fatal() {
    let mut c = Coordinator::new(Vec::new(), 3);
    let action = c.on_begin_result(true);
    assert!(matches!(action, Action::Commit));
    let action = c.on_commit_result(false);
    assert!(matches!(action, Action::Done { committed: false }));
    assert_eq!(c.phase, Phase::Broken);
    assert!(c.failure.is_none());
}

/// An empty request opens and commits at once.
#[test]
fn coordinator_commits_an_empty_request() {
    let mut c = Coordinator::new(Vec::new(), 3);
    let action = c.on_begin_result(true);
    assert!(matches!(action, Action::Commit));
    let action = c.on_commit_result(true);
    assert!(matches!(action, Action::Done { committed: true }));
    assert_eq!(c.phase, Phase::Committed);
}

/// A zero-quantity line item is malformed and refused at planning
/// time.
#[test]
fn coordinator_rejects_a_zero_quantity_item() {
    let store = seeded_store();
    let mut c = Coordinator::new(vec![sell("A", 0)], 3);
    let _ = c.on_begin_result(true);
    let product = store.get_product(&"A".to_string());
    let batches = store.list_batches(&"A".to_string());
    let action = c.on_fetched(product, batches);
    assert!(matches!(action, Action::Rollback));
    let _ = c.on_rollback_result(true);
    assert_eq!(c.failure.clone().unwrap().error, SaleError::Validation);
}

/// A vanished product fails the line item with its own reason.
#[test]
fn coordinator_reports_an_unknown_product() {
    let mut c = Coordinator::new(vec![sell("Z", 1)], 3);
    let _ = c.on_begin_result(true);
    let action = c.on_fetched(None, Vec::new());
    assert!(matches!(action, Action::Rollback));
    let _ = c.on_rollback_result(true);
    let f = c.failure.clone().unwrap();
    assert_eq!(f.barcode, "Z");
    assert_eq!(f.error, SaleError::UnknownProduct);
}
