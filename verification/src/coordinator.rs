//! The transaction coordinator: a state machine that settles one sale
//! request against durable storage as one atomic unit.
//!
//! The machine owns no I/O.  A driver (the I/O layer) performs each
//! [`Action`] the machine hands out — begin a transaction, fetch a
//! line item's rows within it, apply a line item's writes, commit,
//! roll back — and reports what happened; the machine decides what
//! follows.  Every failure after `begin` leads through
//! [`Phase::RollingBack`], so no write of a partly settled request
//! ever survives; `commit` is reached only once every line item has
//! been planned and applied.  A driver that cannot finalize — commit
//! or rollback itself failing — lands in [`Phase::Broken`], the
//! distinct fatal outcome that needs operator attention.
//!
//! The per-line-item planning is [`crate::settle::plan_line_item`]:
//! the writes handed out are exactly the depletion plan and ledger
//! rows of the fetched state, with each plan entry carrying the
//! remaining quantity it read, for the driver's optimistic row check.

use vstd::prelude::*;

use crate::domain::{Product, SaleError, Sell, StockBatch};
use crate::ledger::entries_spec;
use crate::settle::{line_plan_outcome, plan_line_item, LineItemWrites, SaleFailure};

verus! {

/// Where the transaction of one sale request stands.
#[derive(Clone, Copy, Debug, PartialEq, Eq, Structural)]
pub enum Phase {
    /// No transaction yet.
    Idle,
    /// A transaction is open; line items are being settled.
    Open,
    /// Every line item settled; the commit was handed out.
    Committing,
    /// A line item failed; the rollback was handed out.
    RollingBack,
    /// The transaction committed: all writes are durable.
    Committed,
    /// The transaction rolled back: no write survived.
    RolledBack,
    /// Begin, commit or rollback itself failed — fatal, the state of
    /// the storage is no longer known to this machine.
    Broken,
}

/// What the driver reports after applying a line item's writes.
#[derive(Clone, Copy, Debug, PartialEq, Eq, Structural)]
pub enum WriteOutcome {
    /// Every batch update passed its optimistic check and every
    /// ledger row was written.
    Applied,
    /// A batch row no longer showed the remaining quantity the plan
    /// read: a concurrent transaction got there first.
    Conflict,
    /// The storage layer failed.
    Failed,
}

/// The next thing the driver must do.
#[derive(Debug)]
pub enum Action {
    /// Open the request's transaction.
    Begin,
    /// Within the transaction, fetch the product row and its batches
    /// (in ascending batch id order) for the line item at `index`,
    /// and report them through [`Coordinator::on_fetched`].
    Fetch { index: usize },
    /// Within the transaction, write each plan entry's new remaining
    /// quantity (guarded by the remaining quantity the entry carries)
    /// and append the ledger rows; report through
    /// [`Coordinator::on_applied`].
    Apply { writes: LineItemWrites },
    /// Commit the transaction.
    Commit,
    /// Roll the transaction back.
    Rollback,
    /// Nothing more to do.  On `committed`, every write of the
    /// request is durable; otherwise none is (or, in
    /// [`Phase::Broken`], the storage must be inspected).
    Done { committed: bool },
}

/// The coordinator of one sale request's transaction.
pub struct Coordinator {
    /// The request being settled, in order.
    pub request: Vec<Sell>,
    /// The recording time given to every ledger row of this request.
    pub now: u64,
    /// How many line items are fully applied.
    pub next_item: usize,
    /// The first failure, where one happened.
    pub failure: Option<SaleFailure>,
    /// Where the transaction stands.
    pub phase: Phase,
}

impl Coordinator {
    /// A fresh machine for one request; nothing has happened yet.
    pub fn new(request: Vec<Sell>, now: u64) -> (c: Coordinator)
        ensures
            c.phase == Phase::Idle,
            c.request == request,
            c.now == now,
            c.next_item == 0,
            c.failure is None,
    {
        Coordinator { request, now, next_item: 0, failure: None, phase: Phase::Idle }
    }

    /// The first action: open the transaction.
    pub fn start(&self) -> (a: Action)
        requires
            self.phase == Phase::Idle,
        ensures
            a == Action::Begin,
    {
        Action::Begin
    }

    /// The driver reports whether the transaction opened.  On
    /// success the first line item is fetched (or, for an empty
    /// request, the commit follows at once); a failure to begin is
    /// fatal.
    pub fn on_begin_result(&mut self, ok: bool) -> (a: Action)
        requires
            old(self).phase == Phase::Idle,
        ensures
            final(self).request == old(self).request,
            final(self).now == old(self).now,
            final(self).next_item == old(self).next_item,
            final(self).failure == old(self).failure,
            !ok ==> final(self).phase == Phase::Broken && a == (Action::Done {
                committed: false,
            }),
            ok && old(self).request@.len() == 0 ==> final(self).phase == Phase::Committing && a
                == Action::Commit,
            ok && old(self).request@.len() > 0 ==> final(self).phase == Phase::Open && a
                == (Action::Fetch { index: 0 }),
    {
        if !ok {
            self.phase = Phase::Broken;
            Action::Done { committed: false }
        } else if self.request.len() == 0 {
            self.phase = Phase::Committing;
            Action::Commit
        } else {
            self.phase = Phase::Open;
            Action::Fetch { index: 0 }
        }
    }

    /// The driver reports the current line item's product row (where
    /// one exists) and its batches, read within the transaction in
    /// ascending batch id order.  Where the line item can settle
    /// against them, its writes are handed out; otherwise the failure
    /// is recorded and the rollback follows.
    pub fn on_fetched(&mut self, product: Option<Product>, batches: Vec<StockBatch>) -> (a: Action)
        requires
            old(self).phase == Phase::Open,
            old(self).next_item < old(self).request@.len(),
            product matches Some(p) ==> p.barcode@ == old(self).request@[old(self).next_item as int].barcode@,
        ensures
            final(self).request == old(self).request,
            final(self).now == old(self).now,
            final(self).next_item == old(self).next_item,
            ({
                let item = old(self).request@[old(self).next_item as int];
                match product {
                    None => {
                        &&& final(self).phase == Phase::RollingBack
                        &&& a == Action::Rollback
                        &&& final(self).failure matches Some(f) && f.index == old(self).next_item
                            && f.barcode@ == item.barcode@ && f.error == SaleError::UnknownProduct
                    },
                    Some(p) => match line_plan_outcome(batches@, item.amount) {
                        Ok(plan) => {
                            &&& final(self).phase == Phase::Open
                            &&& final(self).failure == old(self).failure
                            &&& a matches Action::Apply { writes } && writes.plan@ == plan
                                && writes.entries@ == entries_spec(
                                p.barcode,
                                p.name,
                                p.price,
                                plan,
                                old(self).now,
                            )
                        },
                        Err(e) => {
                            &&& final(self).phase == Phase::RollingBack
                            &&& a == Action::Rollback
                            &&& final(self).failure matches Some(f) && f.index == old(self).next_item && f.barcode@ == item.barcode@ && f.error == e
                        },
                    },
                }
            }),
    {
        match product {
            None => {
                self.failure = Some(
                    SaleFailure {
                        index: self.next_item,
                        barcode: self.request[self.next_item].barcode.clone(),
                        error: SaleError::UnknownProduct,
                    },
                );
                self.phase = Phase::RollingBack;
                Action::Rollback
            },
            Some(p) => {
                let quantity = self.request[self.next_item].amount;
                match plan_line_item(&p, &batches, quantity, self.now) {
                    Ok(writes) => Action::Apply { writes },
                    Err(e) => {
                        self.failure = Some(
                            SaleFailure {
                                index: self.next_item,
                                barcode: self.request[self.next_item].barcode.clone(),
                                error: e,
                            },
                        );
                        self.phase = Phase::RollingBack;
                        Action::Rollback
                    },
                }
            },
        }
    }

    /// The driver reports how applying the writes went.  On success
    /// the next line item follows — or, after the last one, the
    /// commit; a refused optimistic check or a storage failure
    /// records the failure and leads to rollback.
    pub fn on_applied(&mut self, outcome: WriteOutcome) -> (a: Action)
        requires
            old(self).phase == Phase::Open,
            old(self).next_item < old(self).request@.len(),
        ensures
            final(self).request == old(self).request,
            final(self).now == old(self).now,
            ({
                let item = old(self).request@[old(self).next_item as int];
                match outcome {
                    WriteOutcome::Applied => {
                        &&& final(self).next_item == old(self).next_item + 1
                        &&& final(self).failure == old(self).failure
                        &&& old(self).next_item + 1 < old(self).request@.len() ==> final(self).phase == Phase::Open && a == (Action::Fetch {
                            index: (old(self).next_item + 1) as usize,
                        })
                        &&& old(self).next_item + 1 == old(self).request@.len() ==> final(self).phase == Phase::Committing && a == Action::Commit
                    },
                    WriteOutcome::Conflict => {
                        &&& final(self).next_item == old(self).next_item
                        &&& final(self).phase == Phase::RollingBack
                        &&& a == Action::Rollback
                        &&& final(self).failure matches Some(f) && f.index == old(self).next_item
                            && f.barcode@ == item.barcode@ && f.error == SaleError::Concurrency
                    },
                    WriteOutcome::Failed => {
                        &&& final(self).next_item == old(self).next_item
                        &&& final(self).phase == Phase::RollingBack
                        &&& a == Action::Rollback
                        &&& final(self).failure matches Some(f) && f.index == old(self).next_item
                            && f.barcode@ == item.barcode@ && f.error == SaleError::Persistence
                    },
                }
            }),
    {
        match outcome {
            WriteOutcome::Applied => {
                let len = self.request.len();
                self.next_item = self.next_item + 1;
                if self.next_item < len {
                    Action::Fetch { index: self.next_item }
                } else {
                    self.phase = Phase::Committing;
                    Action::Commit
                }
            },
            WriteOutcome::Conflict => {
                self.failure = Some(
                    SaleFailure {
                        index: self.next_item,
                        barcode: self.request[self.next_item].barcode.clone(),
                        error: SaleError::Concurrency,
                    },
                );
                self.phase = Phase::RollingBack;
                Action::Rollback
            },
            WriteOutcome::Failed => {
                self.failure = Some(
                    SaleFailure {
                        index: self.next_item,
                        barcode: self.request[self.next_item].barcode.clone(),
                        error: SaleError::Persistence,
                    },
                );
                self.phase = Phase::RollingBack;
                Action::Rollback
            },
        }
    }

    /// The driver reports whether the commit went through.  Success
    /// makes every write of the request durable at once; a commit
    /// that itself fails is the fatal outcome.
    pub fn on_commit_result(&mut self, ok: bool) -> (a: Action)
        requires
            old(self).phase == Phase::Committing,
        ensures
            final(self).request == old(self).request,
            final(self).now == old(self).now,
            final(self).next_item == old(self).next_item,
            final(self).failure == old(self).failure,
            ok ==> final(self).phase == Phase::Committed && a == (Action::Done {
                committed: true,
            }),
            !ok ==> final(self).phase == Phase::Broken && a == (Action::Done {
                committed: false,
            }),
    {
        if ok {
            self.phase = Phase::Committed;
            Action::Done { committed: true }
        } else {
            self.phase = Phase::Broken;
            Action::Done { committed: false }
        }
    }

    /// The driver reports whether the rollback went through.  Success
    /// means no write of the request survived; a rollback that itself
    /// fails is the fatal outcome.  The recorded failure stands
    /// either way.
    pub fn on_rollback_result(&mut self, ok: bool) -> (a: Action)
        requires
            old(self).phase == Phase::RollingBack,
        ensures
            final(self).request == old(self).request,
            final(self).now == old(self).now,
            final(self).next_item == old(self).next_item,
            final(self).failure == old(self).failure,
            ok ==> final(self).phase == Phase::RolledBack,
            !ok ==> final(self).phase == Phase::Broken,
            a == (Action::Done { committed: false }),
    {
        if ok {
            self.phase = Phase::RolledBack;
        } else {
            self.phase = Phase::Broken;
        }
        Action::Done { committed: false }
    }
}

} // verus!
