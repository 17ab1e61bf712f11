//! Sale-settlement engine for a small retail stock system.
//!
//! Products are stocked in batches, each with its own cost basis and
//! remaining quantity.  A sale request names one or more line items
//! (barcode and quantity); settling it consumes stock batches in FIFO
//! order (ascending batch id), posts one immutable ledger row per batch
//! touched, and applies all writes of the request atomically: either
//! every line item settles or the stored state is left untouched.
//!
//! The modules, leaf to root:
//! - [`money`]: fixed-point VAT and profit arithmetic,
//! - [`domain`]: products, batches, line items, dates, errors,
//! - [`allocator`]: the pure depletion planner,
//! - [`ledger`]: derivation of ledger rows from a depletion plan,
//! - [`store`]: an in-memory repository honouring the storage contract,
//! - [`settle`]: per-line-item planning and atomic settlement of a
//!   request against a [`store::Store`],
//! - [`coordinator`]: the transaction state machine that an I/O layer
//!   drives to settle a request against durable storage.

pub mod allocator;
pub mod coordinator;
pub mod domain;
pub mod ledger;
pub mod money;
pub mod settle;
pub mod store;
