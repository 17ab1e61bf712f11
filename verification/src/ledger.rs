//! The ledger poster: turns a depletion plan into the immutable
//! financial rows of the sale.
//!
//! One row is posted per plan entry — that is, per batch touched —
//! never one aggregated row per line item, so each row keeps the true
//! cost basis of the batch it came from.  Per unit, profit is the net
//! part of the price minus the batch's cost basis, and VAT is the rest
//! of the price (see [`crate::money`]).

use vstd::prelude::*;

use crate::allocator::{
    lemma_plan_consumes_exactly, plan_spec, plan_sum, total_remaining, Consumption,
};
use crate::domain::StockBatch;
use crate::money::{net_of_vat_spec, unit_profit, unit_profit_spec, vat_of, vat_of_spec};

verus! {

/// One immutable row of the sales ledger: the realized cost, price,
/// profit and VAT of `quantity` units drawn from one stock batch.
/// Rows are only ever appended, never updated or removed.
#[derive(Debug, PartialEq, Eq)]
pub struct LedgerEntry {
    pub barcode: String,
    pub name: String,
    /// Cost basis per unit of the batch the units came from.
    pub unit_cost: u32,
    /// VAT-inclusive sale price per unit.
    pub unit_price: u32,
    /// Units drawn from that batch.
    pub quantity: u16,
    /// Per-unit profit: the net part of the price minus the cost
    /// basis.  Negative where the cost exceeds the net price.
    pub profit: i64,
    /// Per-unit VAT: the price minus its net part.
    pub vat: u32,
    /// Seconds since the epoch at which the sale was recorded.
    pub created_at: u64,
}

impl Clone for LedgerEntry {
    /// Field-for-field copy.
    fn clone(&self) -> (r: Self)
        ensures
            r == *self,
    {
        LedgerEntry {
            barcode: self.barcode.clone(),
            name: self.name.clone(),
            unit_cost: self.unit_cost,
            unit_price: self.unit_price,
            quantity: self.quantity,
            profit: self.profit,
            vat: self.vat,
            created_at: self.created_at,
        }
    }
}

/// The ledger row derived from one plan entry.
pub open spec fn entry_spec(
    barcode: String,
    name: String,
    unit_price: u32,
    c: Consumption,
    created_at: u64,
) -> LedgerEntry {
    LedgerEntry {
        barcode,
        name,
        unit_cost: c.unit_cost,
        unit_price,
        quantity: c.consumed,
        profit: unit_profit_spec(unit_price as int, c.unit_cost as int) as i64,
        vat: vat_of_spec(unit_price as int) as u32,
        created_at,
    }
}

/// The ledger rows derived from a whole plan, one per entry, in plan
/// order.
pub open spec fn entries_spec(
    barcode: String,
    name: String,
    unit_price: u32,
    plan: Seq<Consumption>,
    created_at: u64,
) -> Seq<LedgerEntry> {
    plan.map(|j: int, c: Consumption| entry_spec(barcode, name, unit_price, c, created_at))
}

/// The number of units a run of ledger rows records.
pub open spec fn total_quantity(entries: Seq<LedgerEntry>) -> int
    decreases entries.len(),
{
    if entries.len() == 0 {
        0
    } else {
        entries[0].quantity + total_quantity(entries.drop_first())
    }
}

/// The rows of a plan record, in total, exactly the units the plan
/// consumes, one row per plan entry.
pub proof fn lemma_entries_quantity_total(
    barcode: String,
    name: String,
    unit_price: u32,
    plan: Seq<Consumption>,
    created_at: u64,
)
    ensures
        entries_spec(barcode, name, unit_price, plan, created_at).len() == plan.len(),
        total_quantity(entries_spec(barcode, name, unit_price, plan, created_at)) == plan_sum(
            plan,
        ),
    decreases plan.len(),
{
    let entries = entries_spec(barcode, name, unit_price, plan, created_at);
    if plan.len() > 0 {
        assert(entries.drop_first() =~= entries_spec(
            barcode,
            name,
            unit_price,
            plan.drop_first(),
            created_at,
        ));
        lemma_entries_quantity_total(barcode, name, unit_price, plan.drop_first(), created_at);
        assert(total_quantity(entries) == entries[0].quantity + total_quantity(
            entries.drop_first(),
        ));
    }
}

/// After a covered sale, the ledger gains one row per batch touched —
/// the plan's entries name distinct batches in policy order — and the
/// quantities of those rows sum to exactly the requested quantity.
pub proof fn lemma_ledger_covers_request(
    batches: Seq<StockBatch>,
    requested: int,
    barcode: String,
    name: String,
    unit_price: u32,
    created_at: u64,
)
    requires
        0 <= requested <= total_remaining(batches),
    ensures
        ({
            let plan = plan_spec(batches, requested);
            let entries = entries_spec(barcode, name, unit_price, plan, created_at);
            entries.len() == plan.len() && total_quantity(entries) == requested
        }),
{
    lemma_plan_consumes_exactly(batches, requested);
    lemma_entries_quantity_total(
        barcode,
        name,
        unit_price,
        plan_spec(batches, requested),
        created_at,
    );
}

/// Derives the ledger rows of one settled line item from its depletion
/// plan: one row per entry, each carrying that batch's cost basis, the
/// product's price, and the per-unit profit and VAT at the fixed rate.
pub fn post(
    barcode: &String,
    name: &String,
    unit_price: u32,
    plan: &Vec<Consumption>,
    created_at: u64,
) -> (entries: Vec<LedgerEntry>)
    ensures
        entries@ == entries_spec(*barcode, *name, unit_price, plan@, created_at),
{
    let ghost full = entries_spec(*barcode, *name, unit_price, plan@, created_at);
    let mut entries: Vec<LedgerEntry> = Vec::new();
    let mut i: usize = 0;
    while i < plan.len()
        invariant
            0 <= i <= plan@.len(),
            full == entries_spec(*barcode, *name, unit_price, plan@, created_at),
            entries@ == full.take(i as int),
        decreases plan@.len() - i,
    {
        let profit: i64 = unit_profit(unit_price, plan[i].unit_cost);
        let vat: u32 = vat_of(unit_price);
        let e = LedgerEntry {
            barcode: barcode.clone(),
            name: name.clone(),
            unit_cost: plan[i].unit_cost,
            unit_price,
            quantity: plan[i].consumed,
            profit,
            vat,
            created_at,
        };
        proof {
            assert(full[i as int] == entry_spec(
                *barcode,
                *name,
                unit_price,
                plan@[i as int],
                created_at,
            ));
            assert(e == full[i as int]);
            assert(full.take(i as int + 1) =~= full.take(i as int).push(full[i as int]));
        }
        entries.push(e);
        i = i + 1;
    }
    proof {
        assert(full.take(plan@.len() as int) =~= full);
    }
    entries
}

} // verus!
