//! An in-memory stock and ledger repository honouring the storage
//! contract the settlement engine relies on:
//!
//! - product barcodes are unique;
//! - batches are listed per product in FIFO policy order (ascending
//!   batch id), and batch ids are unique and below the next id;
//! - batch rows are written through an optimistic check of the
//!   remaining quantity read at planning time, so a write lost to a
//!   concurrent one is refused rather than applied blindly;
//! - ledger rows are only ever appended.
//!
//! A durable (database) repository is driven through
//! [`crate::coordinator`] by an I/O layer instead; this type is the
//! reference model of what such a layer must provide, and what the
//! in-memory settlement path of [`crate::settle`] runs against.

use vstd::prelude::*;

use crate::allocator::Consumption;
use crate::domain::{ids_increasing, Date, Product, RepoError, SaleError, StockBatch};
use crate::ledger::LedgerEntry;

verus! {

/// Some product of the run carries this barcode.
pub open spec fn has_product(ps: Seq<Product>, code: Seq<char>) -> bool {
    exists|j: int| 0 <= j < ps.len() && #[trigger] ps[j].barcode@ == code
}

/// No two products of the run share a barcode.
pub open spec fn barcodes_distinct(ps: Seq<Product>) -> bool {
    forall|j: int, k: int|
        0 <= j < k < ps.len() ==> #[trigger] ps[j].barcode@ != #[trigger] ps[k].barcode@
}

/// The index of the product carrying `code` (meaningful under unique
/// barcodes and `has_product`).
pub open spec fn product_index(ps: Seq<Product>, code: Seq<char>) -> int {
    choose|j: int| 0 <= j < ps.len() && #[trigger] ps[j].barcode@ == code
}

/// The product carrying `code`.
pub open spec fn product_named(ps: Seq<Product>, code: Seq<char>) -> Product {
    ps[product_index(ps, code)]
}

/// Some batch of the run carries this id.
pub open spec fn has_batch(bs: Seq<StockBatch>, id: u32) -> bool {
    exists|j: int| 0 <= j < bs.len() && #[trigger] bs[j].id == id
}

/// The index of the batch carrying `id` (meaningful under unique ids
/// and `has_batch`).
pub open spec fn batch_index(bs: Seq<StockBatch>, id: u32) -> int {
    choose|j: int| 0 <= j < bs.len() && #[trigger] bs[j].id == id
}

/// The batches of the product with this barcode, in stored (policy)
/// order.
pub open spec fn sub_batches(bs: Seq<StockBatch>, code: Seq<char>) -> Seq<StockBatch> {
    bs.filter(|b: StockBatch| b.barcode@ == code)
}

/// The products of the run other than the one with this barcode.
pub open spec fn products_without(ps: Seq<Product>, code: Seq<char>) -> Seq<Product> {
    ps.filter(|p: Product| p.barcode@ != code)
}

/// The batches of the run other than those of this barcode.
pub open spec fn batches_without(bs: Seq<StockBatch>, code: Seq<char>) -> Seq<StockBatch> {
    bs.filter(|b: StockBatch| b.barcode@ != code)
}

/// Every element of `sub` occurs among the first `upto` elements of
/// `src`.
pub open spec fn drawn_from_prefix(sub: Seq<StockBatch>, src: Seq<StockBatch>, upto: int) -> bool {
    forall|j: int|
        0 <= j < sub.len() ==> exists|m: int| 0 <= m < upto && #[trigger] sub[j] == src[m]
}

/// Whether `c` can be applied to the run: its batch still shows the
/// remaining quantity the plan observed, which covers the consumption.
/// This is the optimistic (lost-update preventing) write guard.
pub open spec fn can_apply(bs: Seq<StockBatch>, c: Consumption) -> bool {
    exists|j: int|
        0 <= j < bs.len() && (#[trigger] bs[j].id) == c.batch_id && bs[j].remaining
            == c.prior_remaining && c.consumed <= c.prior_remaining
}

/// The run after applying `c` where the guard admits it.
pub open spec fn apply_consumption_spec(bs: Seq<StockBatch>, c: Consumption) -> Option<
    Seq<StockBatch>,
> {
    if can_apply(bs, c) {
        let j = batch_index(bs, c.batch_id);
        let b = bs[j];
        Some(
            bs.update(
                j,
                StockBatch {
                    id: b.id,
                    barcode: b.barcode,
                    cost: b.cost,
                    remaining: (c.prior_remaining - c.consumed) as u16,
                    expiry: b.expiry,
                },
            ),
        )
    } else {
        None
    }
}

/// Durable state: the product catalog, the stock batches and the
/// sales ledger, plus the id the next batch will receive.
#[derive(Debug, PartialEq, Eq)]
pub struct Store {
    pub products: Vec<Product>,
    pub batches: Vec<StockBatch>,
    pub ledger: Vec<LedgerEntry>,
    pub next_batch_id: u32,
}

/// Finds the index of the product carrying `barcode`.
fn find_product_index(products: &Vec<Product>, barcode: &String) -> (r: Option<usize>)
    ensures
        r matches Some(j) ==> 0 <= j < products@.len() && products@[j as int].barcode@
            == barcode@,
        r is None ==> !has_product(products@, barcode@),
{
    let n = products.len();
    let mut i: usize = 0;
    while i < n
        invariant
            n == products@.len(),
            0 <= i <= n,
            forall|m: int| 0 <= m < i ==> #[trigger] products@[m].barcode@ != barcode@,
        decreases n - i,
    {
        if products[i].barcode.eq(barcode) {
            return Some(i);
        }
        i = i + 1;
    }
    None
}

/// Finds the index of the batch carrying `id`.
fn find_batch_index(batches: &Vec<StockBatch>, id: u32) -> (r: Option<usize>)
    ensures
        r matches Some(j) ==> 0 <= j < batches@.len() && batches@[j as int].id == id,
        r is None ==> !has_batch(batches@, id),
{
    let n = batches.len();
    let mut i: usize = 0;
    while i < n
        invariant
            n == batches@.len(),
            0 <= i <= n,
            forall|m: int| 0 <= m < i ==> #[trigger] batches@[m].id != id,
        decreases n - i,
    {
        if batches[i].id == id {
            return Some(i);
        }
        i = i + 1;
    }
    None
}

impl Store {
    /// The storage invariant: unique barcodes, batches in strictly
    /// ascending id order, and every batch id below the next one.
    pub open spec fn wf(self) -> bool {
        &&& barcodes_distinct(self.products@)
        &&& ids_increasing(self.batches@)
        &&& forall|j: int|
            0 <= j < self.batches@.len() ==> (#[trigger] self.batches@[j].id) < self.next_batch_id
    }

    /// An empty store; batch ids start at one.
    pub fn new() -> (s: Store)
        ensures
            s.wf(),
            s.products@ == Seq::<Product>::empty(),
            s.batches@ == Seq::<StockBatch>::empty(),
            s.ledger@ == Seq::<LedgerEntry>::empty(),
            s.next_batch_id == 1,
    {
        Store { products: Vec::new(), batches: Vec::new(), ledger: Vec::new(), next_batch_id: 1 }
    }

    /// Adds a product to the catalog; refused with `Conflict` exactly
    /// where the barcode is already taken, leaving the store as it
    /// was.
    pub fn create_product(&mut self, barcode: String, name: String, price: u32) -> (r: Result<
        (),
        RepoError,
    >)
        requires
            old(self).wf(),
        ensures
            final(self).wf(),
            has_product(old(self).products@, barcode@) ==> r == Err::<(), RepoError>(
                RepoError::Conflict,
            ) && *final(self) == *old(self),
            !has_product(old(self).products@, barcode@) ==> r == Ok::<(), RepoError>(()) && final(self).products@ == old(self).products@.push(
                (Product { barcode, name, price }),
            ) && final(self).batches@ == old(self).batches@ && final(self).ledger@ == old(self).ledger@ && final(self).next_batch_id == old(self).next_batch_id,
    {
        match find_product_index(&self.products, &barcode) {
            Some(j) => {
                proof {
                    assert(has_product(self.products@, barcode@)) by {
                        assert(self.products@[j as int].barcode@ == barcode@);
                    }
                }
                Err(RepoError::Conflict)
            },
            None => {
                let ghost before = self.products@;
                let p = Product { barcode, name, price };
                self.products.push(p);
                proof {
                    assert(barcodes_distinct(self.products@)) by {
                        assert forall|j: int, k: int| 0 <= j < k < self.products@.len() implies (
                        #[trigger] self.products@[j].barcode@) != (
                        #[trigger] self.products@[k].barcode@) by {
                            if k < before.len() {
                                assert(before[j].barcode@ != before[k].barcode@);
                            } else {
                                assert(self.products@[j] == before[j]);
                                assert(!(before[j].barcode@ == p.barcode@));
                            }
                        }
                    }
                }
                Ok(())
            },
        }
    }

    /// Looks a product up by barcode.  Returns a copy of the catalog
    /// row where one carries the barcode, and `None` where none does;
    /// the store itself is untouched (it is only read).
    pub fn get_product(&self, barcode: &String) -> (r: Option<Product>)
        ensures
            r is Some <==> has_product(self.products@, barcode@),
            r matches Some(p) ==> p.barcode@ == barcode@ && self.products@.contains(p),
            barcodes_distinct(self.products@) ==> (r matches Some(p) ==> p == product_named(
                self.products@,
                barcode@,
            )),
    {
        match find_product_index(&self.products, barcode) {
            Some(j) => {
                let p = self.products[j].clone();
                proof {
                    assert(has_product(self.products@, barcode@)) by {
                        assert(self.products@[j as int].barcode@ == barcode@);
                    }
                    assert(self.products@.contains(p)) by {
                        assert(self.products@[j as int] == p);
                    }
                    if barcodes_distinct(self.products@) {
                        let pj = product_index(self.products@, barcode@);
                        assert(0 <= pj < self.products@.len() && self.products@[pj].barcode@
                            == barcode@) by {
                            assert(self.products@[j as int].barcode@ == barcode@);
                        }
                        assert(pj == j as int) by {
                            if pj < j as int {
                                assert(self.products@[pj].barcode@ != self.products@[
                                    j as int].barcode@);
                            }
                            if pj > j as int {
                                assert(self.products@[j as int].barcode@ != self.products@[
                                    pj].barcode@);
                            }
                        }
                    }
                }
                Some(p)
            },
            None => None,
        }
    }

    /// Records a restock event: a new batch of the product, with the
    /// next id, the given cost basis, quantity and optional expiry.
    /// Refused with `NotFound`, the store left as it was, exactly
    /// where no product carries the barcode.
    pub fn add_batch(
        &mut self,
        barcode: &String,
        cost: u32,
        quantity: u16,
        expiry: Option<Date>,
    ) -> (r: Result<u32, RepoError>)
        requires
            old(self).wf(),
            old(self).next_batch_id < u32::MAX,
        ensures
            final(self).wf(),
            !has_product(old(self).products@, barcode@) ==> r == Err::<u32, RepoError>(
                RepoError::NotFound,
            ) && *final(self) == *old(self),
            has_product(old(self).products@, barcode@) ==> r == Ok::<u32, RepoError>(
                old(self).next_batch_id,
            ) && final(self).batches@ == old(self).batches@.push(
                (StockBatch {
                    id: old(self).next_batch_id,
                    barcode: *barcode,
                    cost,
                    remaining: quantity,
                    expiry,
                }),
            ) && final(self).next_batch_id == old(self).next_batch_id + 1 && final(self).products@
                == old(self).products@ && final(self).ledger@ == old(self).ledger@,
    {
        match find_product_index(&self.products, barcode) {
            None => Err(RepoError::NotFound),
            Some(j) => {
                proof {
                    assert(has_product(self.products@, barcode@)) by {
                        assert(self.products@[j as int].barcode@ == barcode@);
                    }
                }
                let ghost before = self.batches@;
                let id = self.next_batch_id;
                let b = StockBatch {
                    id,
                    barcode: barcode.clone(),
                    cost,
                    remaining: quantity,
                    expiry,
                };
                self.batches.push(b);
                self.next_batch_id = id + 1;
                proof {
                    assert(ids_increasing(self.batches@)) by {
                        assert forall|j2: int, k: int| 0 <= j2 < k < self.batches@.len() implies (
                        #[trigger] self.batches@[j2].id) < (#[trigger] self.batches@[k].id) by {
                            if k < before.len() {
                                assert(before[j2].id < before[k].id);
                            } else {
                                assert(self.batches@[j2] == before[j2]);
                                assert(before[j2].id < id);
                            }
                        }
                    }
                }
                Ok(id)
            },
        }
    }

    /// Lists the product's batches in policy (FIFO, ascending id)
    /// order, as copies; the store itself is untouched (it is only
    /// read).
    pub fn list_batches(&self, barcode: &String) -> (r: Vec<StockBatch>)
        requires
            self.wf(),
        ensures
            r@ == sub_batches(self.batches@, barcode@),
            ids_increasing(r@),
            forall|j: int| 0 <= j < r@.len() ==> (#[trigger] r@[j].barcode@) == barcode@,
    {
        let ghost bs = self.batches@;
        let n = self.batches.len();
        let mut r: Vec<StockBatch> = Vec::new();
        let mut i: usize = 0;
        proof {
            assert(bs.take(0) =~= Seq::<StockBatch>::empty());
            reveal(Seq::filter);
        }
        while i < n
            invariant
                bs == self.batches@,
                n == bs.len(),
                0 <= i <= n,
                ids_increasing(bs),
                r@ == sub_batches(bs.take(i as int), barcode@),
                drawn_from_prefix(r@, bs, i as int),
                ids_increasing(r@),
                forall|j: int| 0 <= j < r@.len() ==> (#[trigger] r@[j].barcode@) == barcode@,
            decreases n - i,
        {
            let ghost r_before = r@;
            let is_match = self.batches[i].barcode.eq(barcode);
            if is_match {
                r.push(self.batches[i].clone());
            }
            proof {
                let prefix = bs.take(i as int);
                let prefix1 = bs.take(i as int + 1);
                assert(prefix1.drop_last() =~= prefix);
                assert(prefix1.last() == bs[i as int]);
                reveal(Seq::filter);
                assert(sub_batches(prefix1, barcode@) == if bs[i as int].barcode@ == barcode@ {
                    sub_batches(prefix, barcode@).push(bs[i as int])
                } else {
                    sub_batches(prefix, barcode@)
                });
                if is_match {
                    assert(r@ == r_before.push(bs[i as int]));
                    assert(drawn_from_prefix(r@, bs, i as int + 1)) by {
                        assert forall|j: int| 0 <= j < r@.len() implies exists|m: int|
                            0 <= m < i + 1 && (#[trigger] r@[j]) == bs[m] by {
                            if j < r_before.len() {
                                assert(r@[j] == r_before[j]);
                                let m = choose|m: int| 0 <= m < i && r_before[j] == bs[m];
                                assert(0 <= m < i + 1 && r@[j] == bs[m]);
                            } else {
                                assert(r@[j] == bs[i as int]);
                            }
                        }
                    }
                    assert(ids_increasing(r@)) by {
                        assert forall|j: int, k: int| 0 <= j < k < r@.len() implies (
                        #[trigger] r@[j].id) < (#[trigger] r@[k].id) by {
                            if k < r_before.len() {
                                assert(r_before[j].id < r_before[k].id);
                            } else {
                                assert(r@[j] == r_before[j]);
                                let m = choose|m: int| 0 <= m < i && r_before[j] == bs[m];
                                assert(bs[m].id < bs[i as int].id);
                            }
                        }
                    }
                } else {
                    assert(drawn_from_prefix(r@, bs, i as int + 1)) by {
                        assert forall|j: int| 0 <= j < r@.len() implies exists|m: int|
                            0 <= m < i + 1 && (#[trigger] r@[j]) == bs[m] by {
                            let m = choose|m: int| 0 <= m < i && r_before[j] == bs[m];
                            assert(0 <= m < i + 1 && r@[j] == bs[m]);
                        }
                    }
                }
            }
            i = i + 1;
        }
        proof {
            assert(bs.take(n as int) =~= bs);
        }
        r
    }

    /// Overwrites the remaining quantity of the batch carrying `id`.
    /// Refused with `Conflict`, the store left as it was, exactly
    /// where no batch carries the id (it was removed concurrently).
    pub fn update_batch_quantity(&mut self, id: u32, quantity: u16) -> (r: Result<(), RepoError>)
        requires
            old(self).wf(),
        ensures
            final(self).wf(),
            !has_batch(old(self).batches@, id) ==> r == Err::<(), RepoError>(RepoError::Conflict)
                && *final(self) == *old(self),
            has_batch(old(self).batches@, id) ==> r == Ok::<(), RepoError>(()) && ({
                let j = batch_index(old(self).batches@, id);
                let b = old(self).batches@[j];
                final(self).batches@ == old(self).batches@.update(
                    j,
                    (StockBatch {
                        id: b.id,
                        barcode: b.barcode,
                        cost: b.cost,
                        remaining: quantity,
                        expiry: b.expiry,
                    }),
                )
            }) && final(self).products@ == old(self).products@ && final(self).ledger@ == old(self).ledger@ && final(self).next_batch_id == old(self).next_batch_id,
    {
        match find_batch_index(&self.batches, id) {
            None => Err(RepoError::Conflict),
            Some(j) => {
                let ghost before = self.batches@;
                proof {
                    assert(has_batch(before, id)) by {
                        assert(before[j as int].id == id);
                    }
                    let cj = batch_index(before, id);
                    assert(0 <= cj < before.len() && before[cj].id == id);
                    assert(cj == j as int) by {
                        if cj < j as int {
                            assert(before[cj].id < before[j as int].id);
                        }
                        if cj > j as int {
                            assert(before[j as int].id < before[cj].id);
                        }
                    }
                }
                self.batches[j].remaining = quantity;
                proof {
                    assert(ids_increasing(self.batches@)) by {
                        assert(forall|m: int|
                            0 <= m < self.batches@.len() ==> (#[trigger] self.batches@[m].id)
                                == before[m].id);
                    }
                }
                Ok(())
            },
        }
    }

    /// Applies one depletion-plan entry through the optimistic guard:
    /// the write lands only where the batch still shows the remaining
    /// quantity the plan observed.  Refused with
    /// [`SaleError::Concurrency`], the store left as it was, where the
    /// batch is gone or was changed concurrently — two sales cannot
    /// both consume the same units.
    pub fn apply_consumption(&mut self, c: &Consumption) -> (r: Result<(), SaleError>)
        requires
            old(self).wf(),
        ensures
            final(self).wf(),
            final(self).products@ == old(self).products@,
            final(self).ledger@ == old(self).ledger@,
            final(self).next_batch_id == old(self).next_batch_id,
            !can_apply(old(self).batches@, *c) ==> r == Err::<(), SaleError>(SaleError::Concurrency)
                && *final(self) == *old(self),
            can_apply(old(self).batches@, *c) ==> r == Ok::<(), SaleError>(()) && Some(
                final(self).batches@,
            ) == apply_consumption_spec(old(self).batches@, *c),
    {
        let ghost before = self.batches@;
        match find_batch_index(&self.batches, c.batch_id) {
            None => {
                proof {
                    assert(!can_apply(before, *c)) by {
                        if can_apply(before, *c) {
                            let w = choose|w: int|
                                0 <= w < before.len() && (#[trigger] before[w].id) == c.batch_id
                                    && before[w].remaining == c.prior_remaining && c.consumed
                                    <= c.prior_remaining;
                            assert(has_batch(before, c.batch_id)) by {
                                assert(before[w].id == c.batch_id);
                            }
                        }
                    }
                }
                Err(SaleError::Concurrency)
            },
            Some(j) => {
                proof {
                    assert(before[j as int].id == c.batch_id);
                    let cj = batch_index(before, c.batch_id);
                    assert(0 <= cj < before.len() && before[cj].id == c.batch_id) by {
                        assert(before[j as int].id == c.batch_id);
                    }
                    assert(cj == j as int) by {
                        if cj < j as int {
                            assert(before[cj].id < before[j as int].id);
                        }
                        if cj > j as int {
                            assert(before[j as int].id < before[cj].id);
                        }
                    }
                }
                if self.batches[j].remaining == c.prior_remaining && c.consumed
                    <= c.prior_remaining {
                    proof {
                        assert(can_apply(before, *c)) by {
                            assert(before[j as int].id == c.batch_id && before[j as int].remaining
                                == c.prior_remaining && c.consumed <= c.prior_remaining);
                        }
                        assert(batch_index(before, c.batch_id) == j as int);
                    }
                    self.batches[j].remaining = c.prior_remaining - c.consumed;
                    proof {
                        assert(ids_increasing(self.batches@)) by {
                            assert(forall|m: int|
                                0 <= m < self.batches@.len() ==> (#[trigger] self.batches@[m].id)
                                    == before[m].id);
                        }
                        assert(Some(self.batches@) == apply_consumption_spec(before, *c));
                    }
                    Ok(())
                } else {
                    proof {
                        assert(!can_apply(before, *c)) by {
                            if can_apply(before, *c) {
                                let w = choose|w: int|
                                    0 <= w < before.len() && (#[trigger] before[w].id) == c.batch_id
                                        && before[w].remaining == c.prior_remaining && c.consumed
                                        <= c.prior_remaining;
                                assert(w == j as int) by {
                                    if w < j as int {
                                        assert(before[w].id < before[j as int].id);
                                    }
                                    if w > j as int {
                                        assert(before[j as int].id < before[w].id);
                                    }
                                }
                            }
                        }
                    }
                    Err(SaleError::Concurrency)
                }
            },
        }
    }

    /// Appends the rows of a settled line item to the ledger.  Rows
    /// already present are never touched: the old ledger is a prefix
    /// of the new one, which is the audit-trail guarantee.
    pub fn append_ledger_entries(&mut self, entries: &Vec<LedgerEntry>)
        requires
            old(self).wf(),
        ensures
            final(self).wf(),
            final(self).ledger@ == old(self).ledger@ + entries@,
            final(self).products@ == old(self).products@,
            final(self).batches@ == old(self).batches@,
            final(self).next_batch_id == old(self).next_batch_id,
    {
        let ghost start = self.ledger@;
        let n = entries.len();
        let mut i: usize = 0;
        proof {
            assert(start + entries@.take(0) =~= start);
        }
        while i < n
            invariant
                old(self).wf(),
                n == entries@.len(),
                0 <= i <= n,
                self.ledger@ == start + entries@.take(i as int),
                self.products@ == old(self).products@,
                self.batches@ == old(self).batches@,
                self.next_batch_id == old(self).next_batch_id,
            decreases n - i,
        {
            let ghost cur = self.ledger@;
            self.ledger.push(entries[i].clone());
            proof {
                assert(entries@.take(i as int + 1) =~= entries@.take(i as int).push(
                    entries@[i as int],
                ));
                assert(cur.push(entries@[i as int]) =~= start + entries@.take(i as int + 1));
            }
            i = i + 1;
        }
        proof {
            assert(entries@.take(n as int) =~= entries@);
        }
    }

    /// Removes the product carrying `barcode` from the catalog, and
    /// with it, all of its stock batches (the cascade).  Ledger rows
    /// are kept: the audit trail outlives the product.  Removing an
    /// absent barcode is a no-op.
    pub fn delete_product(&mut self, barcode: &String)
        requires
            old(self).wf(),
        ensures
            final(self).wf(),
            final(self).products@ == products_without(old(self).products@, barcode@),
            final(self).batches@ == batches_without(old(self).batches@, barcode@),
            final(self).ledger@ == old(self).ledger@,
            final(self).next_batch_id == old(self).next_batch_id,
    {
        let ghost ps = self.products@;
        let ghost bs = self.batches@;

        let mut kept_products: Vec<Product> = Vec::new();
        let n = self.products.len();
        let mut i: usize = 0;
        proof {
            assert(ps.take(0) =~= Seq::<Product>::empty());
            reveal(Seq::filter);
        }
        while i < n
            invariant
                ps == self.products@,
                n == ps.len(),
                0 <= i <= n,
                barcodes_distinct(ps),
                kept_products@ == products_without(ps.take(i as int), barcode@),
                forall|j: int|
                    0 <= j < kept_products@.len() ==> exists|m: int|
                        0 <= m < i && (#[trigger] kept_products@[j]) == ps[m],
                barcodes_distinct(kept_products@),
            decreases n - i,
        {
            let ghost k_before = kept_products@;
            let keep = !self.products[i].barcode.eq(barcode);
            if keep {
                kept_products.push(self.products[i].clone());
            }
            proof {
                let prefix = ps.take(i as int);
                let prefix1 = ps.take(i as int + 1);
                assert(prefix1.drop_last() =~= prefix);
                assert(prefix1.last() == ps[i as int]);
                reveal(Seq::filter);
                assert(products_without(prefix1, barcode@) == if ps[i as int].barcode@ != barcode@ {
                    products_without(prefix, barcode@).push(ps[i as int])
                } else {
                    products_without(prefix, barcode@)
                });
                if keep {
                    assert(kept_products@ == k_before.push(ps[i as int]));
                    assert forall|j: int| 0 <= j < kept_products@.len() implies exists|m: int|
                        0 <= m < i + 1 && (#[trigger] kept_products@[j]) == ps[m] by {
                        if j < k_before.len() {
                            assert(kept_products@[j] == k_before[j]);
                            let m = choose|m: int| 0 <= m < i && k_before[j] == ps[m];
                            assert(0 <= m < i + 1 && kept_products@[j] == ps[m]);
                        } else {
                            assert(kept_products@[j] == ps[i as int]);
                        }
                    }
                    assert(barcodes_distinct(kept_products@)) by {
                        assert forall|j: int, k: int| 0 <= j < k < kept_products@.len() implies (
                        #[trigger] kept_products@[j].barcode@) != (
                        #[trigger] kept_products@[k].barcode@) by {
                            if k < k_before.len() {
                                assert(k_before[j].barcode@ != k_before[k].barcode@);
                            } else {
                                assert(kept_products@[j] == k_before[j]);
                                let m = choose|m: int| 0 <= m < i && k_before[j] == ps[m];
                                assert(ps[m].barcode@ != ps[i as int].barcode@);
                            }
                        }
                    }
                } else {
                    assert forall|j: int| 0 <= j < kept_products@.len() implies exists|m: int|
                        0 <= m < i + 1 && (#[trigger] kept_products@[j]) == ps[m] by {
                        let m = choose|m: int| 0 <= m < i && k_before[j] == ps[m];
                        assert(0 <= m < i + 1 && kept_products@[j] == ps[m]);
                    }
                }
            }
            i = i + 1;
        }
        proof {
            assert(ps.take(n as int) =~= ps);
        }
        self.products = kept_products;

        let mut kept_batches: Vec<StockBatch> = Vec::new();
        let nb = self.batches.len();
        let mut i2: usize = 0;
        proof {
            assert(bs.take(0) =~= Seq::<StockBatch>::empty());
            reveal(Seq::filter);
        }
        while i2 < nb
            invariant
                bs == self.batches@,
                nb == bs.len(),
                0 <= i2 <= nb,
                ids_increasing(bs),
                kept_batches@ == batches_without(bs.take(i2 as int), barcode@),
                drawn_from_prefix(kept_batches@, bs, i2 as int),
                ids_increasing(kept_batches@),
            decreases nb - i2,
        {
            let ghost k_before = kept_batches@;
            let keep = !self.batches[i2].barcode.eq(barcode);
            if keep {
                kept_batches.push(self.batches[i2].clone());
            }
            proof {
                let prefix = bs.take(i2 as int);
                let prefix1 = bs.take(i2 as int + 1);
                assert(prefix1.drop_last() =~= prefix);
                assert(prefix1.last() == bs[i2 as int]);
                reveal(Seq::filter);
                assert(batches_without(prefix1, barcode@) == if bs[i2 as int].barcode@
                    != barcode@ {
                    batches_without(prefix, barcode@).push(bs[i2 as int])
                } else {
                    batches_without(prefix, barcode@)
                });
                if keep {
                    assert(kept_batches@ == k_before.push(bs[i2 as int]));
                    assert(drawn_from_prefix(kept_batches@, bs, i2 as int + 1)) by {
                        assert forall|j: int| 0 <= j < kept_batches@.len() implies exists|m: int|
                            0 <= m < i2 + 1 && (#[trigger] kept_batches@[j]) == bs[m] by {
                            if j < k_before.len() {
                                assert(kept_batches@[j] == k_before[j]);
                                let m = choose|m: int| 0 <= m < i2 && k_before[j] == bs[m];
                                assert(0 <= m < i2 + 1 && kept_batches@[j] == bs[m]);
                            } else {
                                assert(kept_batches@[j] == bs[i2 as int]);
                            }
                        }
                    }
                    assert(ids_increasing(kept_batches@)) by {
                        assert forall|j: int, k: int| 0 <= j < k < kept_batches@.len() implies (
                        #[trigger] kept_batches@[j].id) < (#[trigger] kept_batches@[k].id) by {
                            if k < k_before.len() {
                                assert(k_before[j].id < k_before[k].id);
                            } else {
                                assert(kept_batches@[j] == k_before[j]);
                                let m = choose|m: int| 0 <= m < i2 && k_before[j] == bs[m];
                                assert(bs[m].id < bs[i2 as int].id);
                            }
                        }
                    }
                } else {
                    assert(drawn_from_prefix(kept_batches@, bs, i2 as int + 1)) by {
                        assert forall|j: int| 0 <= j < kept_batches@.len() implies exists|m: int|
                            0 <= m < i2 + 1 && (#[trigger] kept_batches@[j]) == bs[m] by {
                            let m = choose|m: int| 0 <= m < i2 && k_before[j] == bs[m];
                            assert(0 <= m < i2 + 1 && kept_batches@[j] == bs[m]);
                        }
                    }
                }
            }
            i2 = i2 + 1;
        }
        proof {
            assert(bs.take(nb as int) =~= bs);
        }
        self.batches = kept_batches;
        proof {
            assert forall|j: int| 0 <= j < self.batches@.len() implies (
            #[trigger] self.batches@[j].id) < self.next_batch_id by {
                let m = choose|m: int| 0 <= m < bs.len() && self.batches@[j] == bs[m];
                assert(bs[m].id < self.next_batch_id);
            }
        }
    }
}

/// Lost-update prevention at one batch: where a first sale consumes a
/// batch's full remaining quantity, a second one planned against the
/// same reading cannot apply any more — its optimistic guard fails,
/// and the remaining quantity, already zero, is never driven below
/// zero.
pub proof fn lemma_full_consumptions_exclude_each_other(
    bs: Seq<StockBatch>,
    c1: Consumption,
    c2: Consumption,
)
    requires
        ids_increasing(bs),
        c1.batch_id == c2.batch_id,
        c1.prior_remaining > 0,
        c2.prior_remaining == c1.prior_remaining,
        c1.consumed == c1.prior_remaining,
        c2.consumed > 0,
        can_apply(bs, c1),
    ensures
        apply_consumption_spec(bs, c1) matches Some(after) ==> !can_apply(after, c2),
{
    let j = batch_index(bs, c1.batch_id);
    let w = choose|w: int|
        0 <= w < bs.len() && (#[trigger] bs[w].id) == c1.batch_id && bs[w].remaining
            == c1.prior_remaining && c1.consumed <= c1.prior_remaining;
    assert(0 <= j < bs.len() && bs[j].id == c1.batch_id) by {
        assert(bs[w].id == c1.batch_id);
    }
    let after = apply_consumption_spec(bs, c1)->Some_0;
    assert(after[j].remaining == 0);
    assert(forall|m: int| 0 <= m < after.len() ==> (#[trigger] after[m].id) == bs[m].id);
    if can_apply(after, c2) {
        let v = choose|v: int|
            0 <= v < after.len() && (#[trigger] after[v].id) == c2.batch_id && after[v].remaining
                == c2.prior_remaining && c2.consumed <= c2.prior_remaining;
        assert(v == j) by {
            if v < j {
                assert(bs[v].id < bs[j].id);
            }
            if v > j {
                assert(bs[j].id < bs[v].id);
            }
        }
    }
}

} // verus!
