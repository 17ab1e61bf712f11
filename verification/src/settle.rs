//! Settlement of a sale request: per-line-item planning, and the
//! all-or-nothing application of a whole request to a [`Store`].
//!
//! [`plan_line_item`] is the compute step the transaction coordinator
//! runs per line item against fetched rows; [`settle_sale`] settles a
//! whole request against the in-memory store, committing every write
//! of the request or none: on any failure the store is left exactly as
//! it was, and the failure names the line item and the reason.

use vstd::prelude::*;

use crate::allocator::{
    consumed_for, lemma_consumed_for_absent, plan_spec, plan_sum, total_remaining, Consumption,
    allocate, lemma_consumed_for_push, lemma_plan_sum_push, lemma_total_remaining_nonneg,
    lemma_plan_consumes_exactly, lemma_plan_drains_all,
};
use crate::domain::{ids_increasing, Product, SaleError, Sell, StockBatch};
use crate::ledger::{entries_spec, post, LedgerEntry};
use crate::store::{has_product, product_named, sub_batches, Store};

verus! {

broadcast use vstd::seq_lib::group_seq_lib_default;

/// The outcome of planning one line item over the product's batches
/// (in policy order): a zero quantity is malformed; a quantity beyond
/// the total remaining is refused outright; otherwise the depletion
/// plan stands.
pub open spec fn line_plan_outcome(batches: Seq<StockBatch>, quantity: u16) -> Result<
    Seq<Consumption>,
    SaleError,
> {
    if quantity == 0 {
        Err(SaleError::Validation)
    } else if quantity as int > total_remaining(batches) {
        Err(
            SaleError::InsufficientStock {
                requested: quantity,
                available: total_remaining(batches) as u16,
            },
        )
    } else {
        Ok(plan_spec(batches, quantity as int))
    }
}

/// The whole run of batches after a plan is applied: each batch keeps
/// its identity and loses exactly what the plan draws from it.
pub open spec fn apply_plan(batches: Seq<StockBatch>, plan: Seq<Consumption>) -> Seq<StockBatch> {
    batches.map(
        |j: int, b: StockBatch|
            StockBatch {
                id: b.id,
                barcode: b.barcode,
                cost: b.cost,
                remaining: (b.remaining - consumed_for(plan, b.id)) as u16,
                expiry: b.expiry,
            },
    )
}

/// The outcome of one line item against the full catalog and batch
/// run: the updated batches and the new ledger rows, or the reason it
/// cannot settle.
pub open spec fn settle_item_spec(
    products: Seq<Product>,
    batches: Seq<StockBatch>,
    item: Sell,
    now: u64,
) -> Result<(Seq<StockBatch>, Seq<LedgerEntry>), SaleError> {
    if !has_product(products, item.barcode@) {
        Err(SaleError::UnknownProduct)
    } else {
        let p = product_named(products, item.barcode@);
        match line_plan_outcome(sub_batches(batches, item.barcode@), item.amount) {
            Err(e) => Err(e),
            Ok(plan) => Ok(
                (
                    apply_plan(batches, plan),
                    entries_spec(p.barcode, p.name, p.price, plan, now),
                ),
            ),
        }
    }
}

/// The outcome of a whole request, line item by line item in request
/// order, each one reading the batches as the ones before it left
/// them: the final batches and ledger, or the first failing item's
/// index and reason.
pub open spec fn settle_request_spec(
    products: Seq<Product>,
    batches: Seq<StockBatch>,
    ledger: Seq<LedgerEntry>,
    items: Seq<Sell>,
    now: u64,
) -> Result<(Seq<StockBatch>, Seq<LedgerEntry>), (int, SaleError)>
    decreases items.len(),
{
    if items.len() == 0 {
        Ok((batches, ledger))
    } else {
        match settle_item_spec(products, batches, items[0], now) {
            Err(e) => Err((0, e)),
            Ok(pr) => match settle_request_spec(
                products,
                pr.0,
                ledger + pr.1,
                items.drop_first(),
                now,
            ) {
                Ok(done) => Ok(done),
                Err(ie) => Err((ie.0 + 1, ie.1)),
            },
        }
    }
}

/// The writes of one planned line item: the depletion plan to apply
/// to the batch rows, and the ledger rows to append.
#[derive(Debug)]
pub struct LineItemWrites {
    pub plan: Vec<Consumption>,
    pub entries: Vec<LedgerEntry>,
}

/// Which line item of a request failed, and why.
#[derive(Debug, PartialEq, Eq)]
pub struct SaleFailure {
    /// Position of the line item within the request.
    pub index: usize,
    /// Its barcode.
    pub barcode: String,
    /// Why it cannot settle.
    pub error: SaleError,
}

impl Clone for SaleFailure {
    /// Field-for-field copy.
    fn clone(&self) -> (r: Self)
        ensures
            r == *self,
    {
        SaleFailure { index: self.index, barcode: self.barcode.clone(), error: self.error }
    }
}

/// Plans one line item from the product row and its batches (in
/// policy order, as fetched within the transaction): the depletion
/// plan and the ledger rows to write, or the exact refusal of
/// [`line_plan_outcome`].  Pure compute: the caller owns all I/O.
pub fn plan_line_item(
    product: &Product,
    batches: &Vec<StockBatch>,
    quantity: u16,
    now: u64,
) -> (r: Result<LineItemWrites, SaleError>)
    ensures
        match line_plan_outcome(batches@, quantity) {
            Ok(plan) => r matches Ok(w) && w.plan@ == plan && w.entries@ == entries_spec(
                product.barcode,
                product.name,
                product.price,
                plan,
                now,
            ),
            Err(e) => r == Err::<LineItemWrites, SaleError>(e),
        },
{
    if quantity == 0 {
        return Err(SaleError::Validation);
    }
    match allocate(quantity, batches) {
        Err(e) => {
            proof {
                lemma_total_remaining_nonneg(batches@);
            }
            Err(e)
        },
        Ok(plan) => {
            let entries = post(&product.barcode, &product.name, product.price, &plan, now);
            Ok(LineItemWrites { plan, entries })
        },
    }
}

/// Copies a run of batches row for row.
fn clone_batches(v: &Vec<StockBatch>) -> (r: Vec<StockBatch>)
    ensures
        r@ == v@,
{
    let n = v.len();
    let mut r: Vec<StockBatch> = Vec::new();
    let mut i: usize = 0;
    while i < n
        invariant
            n == v@.len(),
            0 <= i <= n,
            r@ == v@.take(i as int),
        decreases n - i,
    {
        r.push(v[i].clone());
        proof {
            assert(v@.take(i as int + 1) =~= v@.take(i as int).push(v@[i as int]));
        }
        i = i + 1;
    }
    proof {
        assert(v@.take(n as int) =~= v@);
    }
    r
}

/// One pass over the whole batch run for one line item: draws
/// `requested` units from the batches of `barcode` in policy order
/// and rebuilds the run with the drawn amounts taken out.  Returns
/// the rebuilt run and the depletion plan; fails closed, with the
/// total actually available and no change proposed at all, where the
/// product's batches cannot cover the request.
pub fn deplete(batches: &Vec<StockBatch>, barcode: &String, requested: u16) -> (r: Result<
    (Vec<StockBatch>, Vec<Consumption>),
    SaleError,
>)
    requires
        ids_increasing(batches@),
    ensures
        requested as int > total_remaining(sub_batches(batches@, barcode@)) ==> r == Err::<
            (Vec<StockBatch>, Vec<Consumption>),
            SaleError,
        >(
            SaleError::InsufficientStock {
                requested,
                available: total_remaining(sub_batches(batches@, barcode@)) as u16,
            },
        ),
        requested as int <= total_remaining(sub_batches(batches@, barcode@)) ==> (r matches Ok(p)
            && p.1@ == plan_spec(sub_batches(batches@, barcode@), requested as int) && p.0@
            == apply_plan(batches@, p.1@)),
{
    let ghost bs = batches@;
    let ghost code = barcode@;
    let n = batches.len();
    let mut nb: Vec<StockBatch> = Vec::new();
    let mut plan: Vec<Consumption> = Vec::new();
    let mut needed: u16 = requested;
    let mut i: usize = 0;
    proof {
        assert(bs.skip(0) =~= bs);
        assert(plan@ + plan_spec(sub_batches(bs, code), requested as int) =~= plan_spec(
            sub_batches(bs, code),
            requested as int,
        ));
    }
    while i < n
        invariant
            bs == batches@,
            code == barcode@,
            n == bs.len(),
            ids_increasing(bs),
            0 <= i <= n,
            needed <= requested,
            nb@.len() == i,
            plan_spec(sub_batches(bs, code), requested as int) == plan@ + plan_spec(
                sub_batches(bs.skip(i as int), code),
                needed as int,
            ),
            plan_sum(plan@) == requested - needed,
            forall|j: int|
                0 <= j < plan@.len() ==> exists|m: int|
                    0 <= m < i && (#[trigger] plan@[j].batch_id) == bs[m].id,
            forall|j: int|
                0 <= j < i ==> consumed_for(plan@, bs[j].id) <= (#[trigger] bs[j].remaining),
            forall|j: int|
                0 <= j < i ==> (#[trigger] nb@[j]) == (StockBatch {
                    id: bs[j].id,
                    barcode: bs[j].barcode,
                    cost: bs[j].cost,
                    remaining: (bs[j].remaining - consumed_for(plan@, bs[j].id)) as u16,
                    expiry: bs[j].expiry,
                }),
        decreases n - i,
    {
        let q: u16 = batches[i].remaining;
        let is_match = batches[i].barcode.eq(barcode);
        let take: u16 = if !is_match {
            0
        } else if q <= needed {
            q
        } else {
            needed
        };
        let ghost plan_before = plan@;
        let ghost head = bs[i as int];
        proof {
            // The plan so far never names this batch: every entry
            // names an earlier, strictly smaller id.
            assert forall|j: int| 0 <= j < plan_before.len() implies (
            #[trigger] plan_before[j].batch_id) != head.id by {
                let m = choose|m: int| 0 <= m < i && plan_before[j].batch_id == bs[m].id;
                assert(bs[m].id < head.id);
            }
            lemma_consumed_for_absent(plan_before, head.id);
            // Decompose the filtered suffix at this batch.
            let suffix = bs.skip(i as int);
            let suffix1 = bs.skip(i as int + 1);
            assert(suffix =~= seq![head] + suffix1);
        }
        let ghost nb_before = nb@;
        if is_match && take > 0 {
            plan.push(
                Consumption {
                    batch_id: batches[i].id,
                    consumed: take,
                    unit_cost: batches[i].cost,
                    prior_remaining: q,
                },
            );
        }
        nb.push(
            StockBatch {
                id: batches[i].id,
                barcode: batches[i].barcode.clone(),
                cost: batches[i].cost,
                remaining: q - take,
                expiry: batches[i].expiry,
            },
        );
        proof {
            reveal(Seq::filter);
            let suffix = bs.skip(i as int);
            let suffix1 = bs.skip(i as int + 1);
            assert(suffix =~= seq![head] + suffix1);
            let single = sub_batches(seq![head], code);
            assert(sub_batches(seq![head] + suffix1, code) == single + sub_batches(
                suffix1,
                code,
            ));
            assert(seq![head].drop_last() =~= Seq::<StockBatch>::empty());
            assert(sub_batches(Seq::<StockBatch>::empty(), code) =~= Seq::<StockBatch>::empty());
            assert(seq![head].last() == head);
            assert(single == if head.barcode@ == code {
                Seq::<StockBatch>::empty().push(head)
            } else {
                Seq::<StockBatch>::empty()
            });
            if is_match {
                assert(head.barcode@ == code);
                assert(single =~= seq![head]);
                assert(sub_batches(suffix, code) =~= seq![head] + sub_batches(suffix1, code));
                let sub_suffix = sub_batches(suffix, code);
                assert(sub_suffix[0] == head);
                assert(sub_suffix.drop_first() =~= sub_batches(suffix1, code));
                if needed > 0 && take > 0 {
                    let c = Consumption {
                        batch_id: head.id,
                        consumed: take,
                        unit_cost: head.cost,
                        prior_remaining: q,
                    };
                    assert(plan_spec(sub_suffix, needed as int) == seq![c] + plan_spec(
                        sub_batches(suffix1, code),
                        needed as int - take as int,
                    ));
                    assert(plan@ == plan_before.push(c));
                    assert(plan_before.push(c) + plan_spec(
                        sub_batches(suffix1, code),
                        needed as int - take as int,
                    ) =~= plan_before + (seq![c] + plan_spec(
                        sub_batches(suffix1, code),
                        needed as int - take as int,
                    )));
                    lemma_plan_sum_push(plan_before, c);
                    assert forall|j: int| 0 <= j < plan@.len() implies exists|m: int|
                        0 <= m < i + 1 && (#[trigger] plan@[j].batch_id) == bs[m].id by {
                        if j < plan_before.len() {
                            assert(plan@[j] == plan_before[j]);
                            let m = choose|m: int|
                                0 <= m < i && plan_before[j].batch_id == bs[m].id;
                            assert(0 <= m < i + 1 && plan@[j].batch_id == bs[m].id);
                        } else {
                            assert(plan@[j] == c);
                            assert(plan@[j].batch_id == bs[i as int].id);
                        }
                    }
                    assert forall|j: int| 0 <= j < i + 1 implies consumed_for(plan@, bs[j].id) <= (
                    #[trigger] bs[j].remaining) by {
                        lemma_consumed_for_push(plan_before, c, bs[j].id);
                        if j < i {
                            assert(bs[j].id < head.id);
                        }
                    }
                    assert forall|j: int| 0 <= j < i + 1 implies (#[trigger] nb@[j])
                        == (StockBatch {
                        id: bs[j].id,
                        barcode: bs[j].barcode,
                        cost: bs[j].cost,
                        remaining: (bs[j].remaining - consumed_for(plan@, bs[j].id)) as u16,
                        expiry: bs[j].expiry,
                    }) by {
                        lemma_consumed_for_push(plan_before, c, bs[j].id);
                        if j < i {
                            assert(bs[j].id < head.id);
                            assert(nb@[j] == nb_before[j]);
                        } else {
                            assert(consumed_for(plan_before, head.id) == 0);
                            assert(consumed_for(plan@, head.id) == take);
                        }
                    }
                } else {
                    // A matching batch that yields nothing: either
                    // nothing more is needed, or the batch is empty.
                    assert(take == 0);
                    if needed == 0 {
                        assert(plan_spec(sub_suffix, 0) =~= Seq::<Consumption>::empty());
                        assert(plan_spec(sub_batches(suffix1, code), 0) =~= Seq::<
                            Consumption,
                        >::empty());
                    } else {
                        assert(q == 0);
                        assert(plan_spec(sub_suffix, needed as int) == plan_spec(
                            sub_batches(suffix1, code),
                            needed as int,
                        ));
                    }
                    assert forall|j: int| 0 <= j < i + 1 implies (#[trigger] nb@[j])
                        == (StockBatch {
                        id: bs[j].id,
                        barcode: bs[j].barcode,
                        cost: bs[j].cost,
                        remaining: (bs[j].remaining - consumed_for(plan@, bs[j].id)) as u16,
                        expiry: bs[j].expiry,
                    }) by {
                        if j < i {
                            assert(nb@[j] == nb_before[j]);
                        } else {
                            assert(consumed_for(plan@, head.id) == 0);
                        }
                    }
                }
            } else {
                assert(head.barcode@ != code);
                assert(single =~= Seq::<StockBatch>::empty());
                assert(Seq::<StockBatch>::empty() + sub_batches(suffix1, code) =~= sub_batches(
                    suffix1,
                    code,
                ));
                assert(sub_batches(suffix, code) =~= sub_batches(suffix1, code));
                assert forall|j: int| 0 <= j < i + 1 implies (#[trigger] nb@[j]) == (StockBatch {
                    id: bs[j].id,
                    barcode: bs[j].barcode,
                    cost: bs[j].cost,
                    remaining: (bs[j].remaining - consumed_for(plan@, bs[j].id)) as u16,
                    expiry: bs[j].expiry,
                }) by {
                    if j < i {
                        assert(nb@[j] == nb_before[j]);
                    } else {
                        assert(consumed_for(plan@, head.id) == 0);
                    }
                }
            }
        }
        needed = needed - take;
        i = i + 1;
    }
    proof {
        reveal(Seq::filter);
        assert(bs.skip(n as int) =~= Seq::<StockBatch>::empty());
        assert(sub_batches(Seq::<StockBatch>::empty(), code) =~= Seq::<StockBatch>::empty());
        assert(plan@ + plan_spec(Seq::<StockBatch>::empty(), needed as int) =~= plan@);
        assert(plan@ == plan_spec(sub_batches(bs, code), requested as int));
        lemma_total_remaining_nonneg(sub_batches(bs, code));
    }
    if needed > 0 {
        proof {
            if requested as int <= total_remaining(sub_batches(bs, code)) {
                lemma_plan_consumes_exactly(sub_batches(bs, code), requested as int);
            }
            lemma_plan_drains_all(sub_batches(bs, code), requested as int);
        }
        let available: u16 = requested - needed;
        Err(SaleError::InsufficientStock { requested, available })
    } else {
        proof {
            if requested as int > total_remaining(sub_batches(bs, code)) {
                lemma_plan_drains_all(sub_batches(bs, code), requested as int);
            }
            assert(nb@ =~= apply_plan(bs, plan@));
        }
        Ok((nb, plan))
    }
}

/// Settles a whole sale request against the store, atomically: where
/// every line item can settle, in request order and each one seeing
/// the depletions of the ones before it, the batch rows take their
/// post-sale quantities and the ledger gains the request's rows; on
/// the first line item that cannot settle, the store is left exactly
/// as it was — no partial mutation survives — and the failure names
/// that item and the reason.
pub fn settle_sale(store: &mut Store, request: &Vec<Sell>, now: u64) -> (r: Result<
    (),
    SaleFailure,
>)
    requires
        old(store).wf(),
    ensures
        final(store).wf(),
        final(store).products@ == old(store).products@,
        final(store).next_batch_id == old(store).next_batch_id,
        match settle_request_spec(
            old(store).products@,
            old(store).batches@,
            old(store).ledger@,
            request@,
            now,
        ) {
            Ok(done) => r is Ok && final(store).batches@ == done.0 && final(store).ledger@
                == done.1,
            Err(ie) => r matches Err(f) && f.index as int == ie.0 && f.error == ie.1 && 0 <= ie.0
                < request@.len() && f.barcode@ == request@[ie.0].barcode@,
        },
        r is Err ==> *final(store) == *old(store),
{
    let ghost p0 = store.products@;
    let ghost b0 = store.batches@;
    let ghost l0 = store.ledger@;
    let ghost full = settle_request_spec(p0, b0, l0, request@, now);
    let n = request.len();
    let mut wb: Vec<StockBatch> = clone_batches(&store.batches);
    let mut wl: Vec<LedgerEntry> = Vec::new();
    let mut i: usize = 0;
    proof {
        assert(request@.skip(0) =~= request@);
        assert(l0 + wl@ =~= l0);
    }
    while i < n
        invariant
            *store == *old(store),
            old(store).wf(),
            p0 == store.products@,
            b0 == store.batches@,
            l0 == store.ledger@,
            full == settle_request_spec(p0, b0, l0, request@, now),
            n == request@.len(),
            0 <= i <= n,
            ids_increasing(wb@),
            wb@.len() == b0.len(),
            forall|j: int| 0 <= j < wb@.len() ==> (#[trigger] wb@[j].id) == b0[j].id,
            full == match settle_request_spec(p0, wb@, l0 + wl@, request@.skip(i as int), now) {
                Ok(done) => Ok::<(Seq<StockBatch>, Seq<LedgerEntry>), (int, SaleError)>(done),
                Err(ie) => Err::<(Seq<StockBatch>, Seq<LedgerEntry>), (int, SaleError)>(
                    ((ie.0 + i as int), ie.1),
                ),
            },
        decreases n - i,
    {
        let ghost items_left = request@.skip(i as int);
        let ghost item = request@[i as int];
        proof {
            assert(items_left[0] == item);
            assert(items_left.drop_first() =~= request@.skip(i as int + 1));
        }
        let product_opt = store.get_product(&request[i].barcode);
        match product_opt {
            None => {
                proof {
                    assert(settle_item_spec(p0, wb@, item, now) == Err::<
                        (Seq<StockBatch>, Seq<LedgerEntry>),
                        SaleError,
                    >(SaleError::UnknownProduct));
                }
                return Err(
                    SaleFailure {
                        index: i,
                        barcode: request[i].barcode.clone(),
                        error: SaleError::UnknownProduct,
                    },
                );
            },
            Some(p) => {
                proof {
                    assert(p == product_named(p0, item.barcode@));
                }
                if request[i].amount == 0 {
                    proof {
                        assert(settle_item_spec(p0, wb@, item, now) == Err::<
                            (Seq<StockBatch>, Seq<LedgerEntry>),
                            SaleError,
                        >(SaleError::Validation));
                    }
                    return Err(
                        SaleFailure {
                            index: i,
                            barcode: request[i].barcode.clone(),
                            error: SaleError::Validation,
                        },
                    );
                }
                match deplete(&wb, &request[i].barcode, request[i].amount) {
                    Err(e) => {
                        proof {
                            assert(settle_item_spec(p0, wb@, item, now) == Err::<
                                (Seq<StockBatch>, Seq<LedgerEntry>),
                                SaleError,
                            >(e));
                        }
                        return Err(
                            SaleFailure { index: i, barcode: request[i].barcode.clone(), error: e },
                        );
                    },
                    Ok((nb, plan)) => {
                        let mut entries = post(&p.barcode, &p.name, p.price, &plan, now);
                        let ghost es = entries@;
                        let ghost wb_before = wb@;
                        let ghost wl_before = wl@;
                        proof {
                            assert(settle_item_spec(p0, wb_before, item, now) == Ok::<
                                (Seq<StockBatch>, Seq<LedgerEntry>),
                                SaleError,
                            >((nb@, es)));
                        }
                        wb = nb;
                        wl.append(&mut entries);
                        proof {
                            assert(wl@ == wl_before + es);
                            assert((l0 + wl_before) + es =~= l0 + wl@);
                            let inner = settle_request_spec(
                                p0,
                                wb@,
                                l0 + wl@,
                                request@.skip(i as int + 1),
                                now,
                            );
                            let mid = settle_request_spec(p0, wb_before, l0 + wl_before, items_left, now);
                            assert(mid == match inner {
                                Ok(done) => Ok::<(Seq<StockBatch>, Seq<LedgerEntry>), (
                                    int,
                                    SaleError,
                                )>(done),
                                Err(ie) => Err::<(Seq<StockBatch>, Seq<LedgerEntry>), (
                                    int,
                                    SaleError,
                                )>(((ie.0 + 1), ie.1)),
                            }) by {
                                assert(items_left.len() > 0);
                                assert((l0 + wl_before) + es == l0 + wl@);
                            }
                            match inner {
                                Ok(done) => {
                                },
                                Err(ie) => {
                                    assert((ie.0 + 1) + i as int == ie.0 + (i as int + 1));
                                },
                            }
                            assert forall|j: int| 0 <= j < wb@.len() implies (#[trigger] wb@[j].id)
                                == b0[j].id by {
                                assert(wb@[j] == apply_plan(wb_before, plan@)[j]);
                            }
                            assert(ids_increasing(wb@)) by {
                                assert forall|j: int, k: int| 0 <= j < k < wb@.len() implies (
                                #[trigger] wb@[j].id) < (#[trigger] wb@[k].id) by {
                                    assert(wb@[j].id == b0[j].id && wb@[k].id == b0[k].id);
                                }
                            }
                        }
                        i = i + 1;
                    },
                }
            },
        }
    }
    proof {
        assert(request@.skip(n as int) =~= Seq::<Sell>::empty());
        assert(full == Ok::<(Seq<StockBatch>, Seq<LedgerEntry>), (int, SaleError)>(
            (wb@, l0 + wl@),
        ));
    }
    store.batches = wb;
    proof {
        assert(store.wf()) by {
            assert forall|j: int|
                0 <= j < store.batches@.len() implies (#[trigger] store.batches@[j].id)
                < store.next_batch_id by {
                assert(store.batches@[j].id == b0[j].id);
            }
        }
    }
    store.append_ledger_entries(&wl);
    Ok(())
}

} // verus!
