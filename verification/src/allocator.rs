//! The batch allocator: a pure planner that decides how a requested
//! quantity is drawn from the stock batches of one product.
//!
//! Batches must be supplied in policy order — FIFO, ascending batch id,
//! as the repository returns them.  The planner walks them in that
//! order, consumes `min(remaining, still needed)` from each, and stops
//! once the request is covered.  When the batches together hold fewer
//! units than requested it fails closed with
//! [`SaleError::InsufficientStock`] and no plan at all: a sale is never
//! silently under-filled.

use vstd::prelude::*;

use crate::domain::{SaleError, StockBatch};

verus! {

/// One step of a depletion plan: `consumed` units are drawn from the
/// batch `batch_id`, whose cost basis is `unit_cost` and whose
/// remaining quantity at planning time was `prior_remaining`.  The
/// prior quantity doubles as the optimistic version check of the write
/// path: a write applies only where the stored row still shows it.
#[derive(Clone, Copy, Debug, PartialEq, Eq, Structural)]
pub struct Consumption {
    pub batch_id: u32,
    pub consumed: u16,
    pub unit_cost: u32,
    pub prior_remaining: u16,
}

/// Total units remaining over a run of batches.
pub open spec fn total_remaining(batches: Seq<StockBatch>) -> int
    decreases batches.len(),
{
    if batches.len() == 0 {
        0
    } else {
        batches[0].remaining + total_remaining(batches.drop_first())
    }
}

/// The depletion plan for drawing `needed` units from `batches` in the
/// given order: each batch yields `min(remaining, still needed)`,
/// exhausted batches are passed over, and planning stops when nothing
/// more is needed.  Entries exist only for batches that actually yield
/// units.
pub open spec fn plan_spec(batches: Seq<StockBatch>, needed: int) -> Seq<Consumption>
    decreases batches.len(),
{
    if batches.len() == 0 || needed <= 0 {
        Seq::empty()
    } else {
        let b = batches[0];
        let take = if b.remaining <= needed {
            b.remaining as int
        } else {
            needed
        };
        let rest = plan_spec(batches.drop_first(), needed - take);
        if take > 0 {
            seq![
                Consumption {
                    batch_id: b.id,
                    consumed: take as u16,
                    unit_cost: b.cost,
                    prior_remaining: b.remaining,
                },
            ] + rest
        } else {
            rest
        }
    }
}

/// The number of units a plan consumes in total.
pub open spec fn plan_sum(plan: Seq<Consumption>) -> int
    decreases plan.len(),
{
    if plan.len() == 0 {
        0
    } else {
        plan[0].consumed + plan_sum(plan.drop_first())
    }
}

/// The number of units a plan draws from the batch with id `id`.
pub open spec fn consumed_for(plan: Seq<Consumption>, id: u32) -> int
    decreases plan.len(),
{
    if plan.len() == 0 {
        0
    } else {
        (if plan[0].batch_id == id {
            plan[0].consumed as int
        } else {
            0
        }) + consumed_for(plan.drop_first(), id)
    }
}

/// The plan visits batches in the order given: it is an
/// order-preserving selection of the batches, and each entry repeats
/// its batch's id, cost and prior quantity and draws a positive amount
/// within what the batch held.
pub open spec fn plan_follows(batches: Seq<StockBatch>, plan: Seq<Consumption>) -> bool
    decreases batches.len(),
{
    if plan.len() == 0 {
        true
    } else if batches.len() == 0 {
        false
    } else {
        ||| {
            &&& plan[0].batch_id == batches[0].id
            &&& plan[0].unit_cost == batches[0].cost
            &&& plan[0].prior_remaining == batches[0].remaining
            &&& 0 < plan[0].consumed <= batches[0].remaining
            &&& plan_follows(batches.drop_first(), plan.drop_first())
        }
        ||| plan_follows(batches.drop_first(), plan)
    }
}

/// Appending an entry adds its consumption to the total.
pub proof fn lemma_plan_sum_push(plan: Seq<Consumption>, c: Consumption)
    ensures
        plan_sum(plan.push(c)) == plan_sum(plan) + c.consumed,
    decreases plan.len(),
{
    let p = plan.push(c);
    if plan.len() == 0 {
        assert(p[0] == c);
        assert(p.drop_first() =~= Seq::<Consumption>::empty());
        assert(plan_sum(p) == c.consumed + plan_sum(p.drop_first()));
    } else {
        assert(p[0] == plan[0]);
        assert(p.drop_first() =~= plan.drop_first().push(c));
        lemma_plan_sum_push(plan.drop_first(), c);
        assert(plan_sum(p) == p[0].consumed + plan_sum(p.drop_first()));
        assert(plan_sum(plan) == plan[0].consumed + plan_sum(plan.drop_first()));
    }
}

/// Appending an entry adds its consumption to its own batch's tally
/// and leaves every other batch's tally unchanged.
pub proof fn lemma_consumed_for_push(plan: Seq<Consumption>, c: Consumption, id: u32)
    ensures
        consumed_for(plan.push(c), id) == consumed_for(plan, id) + (if c.batch_id == id {
            c.consumed as int
        } else {
            0
        }),
    decreases plan.len(),
{
    let p = plan.push(c);
    if plan.len() == 0 {
        assert(p[0] == c);
        assert(p.drop_first() =~= Seq::<Consumption>::empty());
        assert(consumed_for(p, id) == (if c.batch_id == id {
            c.consumed as int
        } else {
            0
        }) + consumed_for(p.drop_first(), id));
    } else {
        assert(p[0] == plan[0]);
        assert(p.drop_first() =~= plan.drop_first().push(c));
        lemma_consumed_for_push(plan.drop_first(), c, id);
        assert(consumed_for(p, id) == (if p[0].batch_id == id {
            p[0].consumed as int
        } else {
            0
        }) + consumed_for(p.drop_first(), id));
        assert(consumed_for(plan, id) == (if plan[0].batch_id == id {
            plan[0].consumed as int
        } else {
            0
        }) + consumed_for(plan.drop_first(), id));
    }
}

/// A batch no entry names has a tally of zero.
pub proof fn lemma_consumed_for_absent(plan: Seq<Consumption>, id: u32)
    requires
        forall|j: int| 0 <= j < plan.len() ==> #[trigger] plan[j].batch_id != id,
    ensures
        consumed_for(plan, id) == 0,
    decreases plan.len(),
{
    if plan.len() > 0 {
        lemma_consumed_for_absent(plan.drop_first(), id);
    }
}

/// No run of batches holds a negative total.
pub proof fn lemma_total_remaining_nonneg(batches: Seq<StockBatch>)
    ensures
        total_remaining(batches) >= 0,
    decreases batches.len(),
{
    if batches.len() > 0 {
        lemma_total_remaining_nonneg(batches.drop_first());
    }
}

/// Where the batches cover the request, the plan consumes exactly the
/// requested quantity — neither oversell nor silent under-fill.
pub proof fn lemma_plan_consumes_exactly(batches: Seq<StockBatch>, needed: int)
    requires
        0 <= needed <= total_remaining(batches),
    ensures
        plan_sum(plan_spec(batches, needed)) == needed,
    decreases batches.len(),
{
    if batches.len() == 0 || needed <= 0 {
    } else {
        let b = batches[0];
        let take = if b.remaining <= needed {
            b.remaining as int
        } else {
            needed
        };
        lemma_total_remaining_nonneg(batches.drop_first());
        lemma_plan_consumes_exactly(batches.drop_first(), needed - take);
        if take > 0 {
            let c = Consumption {
                batch_id: b.id,
                consumed: take as u16,
                unit_cost: b.cost,
                prior_remaining: b.remaining,
            };
            let rest = plan_spec(batches.drop_first(), needed - take);
            assert((seq![c] + rest).drop_first() =~= rest);
        }
    }
}

/// Where the batches cannot cover the request, the plan drains them
/// completely: it consumes exactly the total that was available.
pub proof fn lemma_plan_drains_all(batches: Seq<StockBatch>, needed: int)
    requires
        needed >= total_remaining(batches),
        needed >= 0,
    ensures
        plan_sum(plan_spec(batches, needed)) == total_remaining(batches),
    decreases batches.len(),
{
    if batches.len() == 0 || needed <= 0 {
        lemma_total_remaining_nonneg(batches);
    } else {
        let b = batches[0];
        let take = if b.remaining <= needed {
            b.remaining as int
        } else {
            needed
        };
        lemma_total_remaining_nonneg(batches.drop_first());
        lemma_plan_drains_all(batches.drop_first(), needed - take);
        if take > 0 {
            let c = Consumption {
                batch_id: b.id,
                consumed: take as u16,
                unit_cost: b.cost,
                prior_remaining: b.remaining,
            };
            let rest = plan_spec(batches.drop_first(), needed - take);
            assert((seq![c] + rest).drop_first() =~= rest);
        }
    }
}

/// The plan consumes batches in policy order: its entries select
/// batches in the order given, each drawing a positive amount that is
/// at most what the batch held, so every batch's post-sale remainder
/// `prior_remaining - consumed` is non-negative.
pub proof fn lemma_plan_in_policy_order(batches: Seq<StockBatch>, needed: int)
    ensures
        plan_follows(batches, plan_spec(batches, needed)),
    decreases batches.len(),
{
    if batches.len() == 0 || needed <= 0 {
    } else {
        let b = batches[0];
        let take = if b.remaining <= needed {
            b.remaining as int
        } else {
            needed
        };
        lemma_plan_in_policy_order(batches.drop_first(), needed - take);
        if take > 0 {
            let c = Consumption {
                batch_id: b.id,
                consumed: take as u16,
                unit_cost: b.cost,
                prior_remaining: b.remaining,
            };
            let rest = plan_spec(batches.drop_first(), needed - take);
            let whole = seq![c] + rest;
            assert(whole.drop_first() =~= rest);
            assert(whole[0] == c);
        }
    }
}

/// Every entry of a plan draws a positive amount bounded by the prior
/// quantity it records.
pub proof fn lemma_plan_entry_bounds(batches: Seq<StockBatch>, needed: int)
    ensures
        forall|j: int|
            0 <= j < plan_spec(batches, needed).len() ==> {
                let c = #[trigger] plan_spec(batches, needed)[j];
                0 < c.consumed <= c.prior_remaining
            },
    decreases batches.len(),
{
    if batches.len() == 0 || needed <= 0 {
    } else {
        let b = batches[0];
        let take = if b.remaining <= needed {
            b.remaining as int
        } else {
            needed
        };
        lemma_plan_entry_bounds(batches.drop_first(), needed - take);
        let rest = plan_spec(batches.drop_first(), needed - take);
        if take > 0 {
            let c = Consumption {
                batch_id: b.id,
                consumed: take as u16,
                unit_cost: b.cost,
                prior_remaining: b.remaining,
            };
            let whole = seq![c] + rest;
            assert(whole.drop_first() =~= rest);
            assert(forall|j: int| 1 <= j < whole.len() ==> whole[j] == rest[j - 1]);
        }
    }
}

/// Computes the depletion plan for `requested` units over `batches`,
/// which must come in policy order (as [`crate::store::Store::list_batches`]
/// returns them).  Returns the exact plan where stock suffices; fails
/// with [`SaleError::InsufficientStock`] naming the total actually
/// available — and returns no partial plan — where it does not.
pub fn allocate(requested: u16, batches: &Vec<StockBatch>) -> (r: Result<
    Vec<Consumption>,
    SaleError,
>)
    ensures
        requested as int <= total_remaining(batches@) ==> (r matches Ok(plan) && plan@
            == plan_spec(batches@, requested as int)),
        requested as int > total_remaining(batches@) ==> r == Err::<Vec<Consumption>, SaleError>(
            SaleError::InsufficientStock {
                requested,
                available: total_remaining(batches@) as u16,
            },
        ),
{
    let ghost bs = batches@;
    let n = batches.len();
    let mut i: usize = 0;
    let mut needed: u16 = requested;
    let mut plan: Vec<Consumption> = Vec::new();
    proof {
        assert(bs.skip(0) =~= bs);
    }
    while needed > 0 && i < n
        invariant
            bs == batches@,
            n == bs.len(),
            0 <= i <= n,
            needed <= requested,
            plan_spec(bs, requested as int) == plan@ + plan_spec(bs.skip(i as int), needed as int),
            plan_sum(plan@) == requested - needed,
        decreases n - i,
    {
        let q: u16 = batches[i].remaining;
        let take: u16 = if q <= needed {
            q
        } else {
            needed
        };
        let ghost plan_before = plan@;
        let ghost suffix = bs.skip(i as int);
        if take > 0 {
            plan.push(
                Consumption {
                    batch_id: batches[i].id,
                    consumed: take,
                    unit_cost: batches[i].cost,
                    prior_remaining: q,
                },
            );
        }
        proof {
            let c = Consumption {
                batch_id: bs[i as int].id,
                consumed: take,
                unit_cost: bs[i as int].cost,
                prior_remaining: q,
            };
            assert(suffix[0] == bs[i as int]);
            assert(suffix.drop_first() =~= bs.skip(i as int + 1));
            let rest = plan_spec(bs.skip(i as int + 1), needed - take);
            if take > 0 {
                assert(plan_spec(suffix, needed as int) == seq![c] + rest);
                assert(plan@ =~= plan_before.push(c));
                assert(plan_before.push(c) + rest =~= plan_before + (seq![c] + rest));
                lemma_plan_sum_push(plan_before, c);
            } else {
                assert(plan_spec(suffix, needed as int) == rest);
            }
        }
        needed = needed - take;
        i = i + 1;
    }
    if needed > 0 {
        // Every batch was scanned and drained, so what the plan
        // consumed is all there was; the request exceeds it.
        proof {
            assert(bs.skip(n as int) =~= Seq::<StockBatch>::empty());
            assert(plan@ == plan_spec(bs, requested as int));
            lemma_total_remaining_nonneg(bs);
            if requested as int <= total_remaining(bs) {
                lemma_plan_consumes_exactly(bs, requested as int);
            } else {
                lemma_plan_drains_all(bs, requested as int);
            }
        }
        let available: u16 = requested - needed;
        Err(SaleError::InsufficientStock { requested, available })
    } else {
        proof {
            assert(plan@ + plan_spec(bs.skip(i as int), 0) =~= plan@);
            lemma_total_remaining_nonneg(bs.skip(i as int));
            if requested as int > total_remaining(bs) {
                lemma_plan_drains_all(bs, requested as int);
                assert(plan_sum(plan@) == requested);
            }
        }
        Ok(plan)
    }
}

} // verus!
