//! The data model: products, stock batches, sale line items, calendar
//! dates and the error taxonomy.
//!
//! Monetary amounts are integers in hundredths of the currency unit
//! (see [`crate::money`]); stock quantities are unsigned integers.

use vstd::prelude::*;

verus! {

/// A calendar date of the proleptic Gregorian calendar, held as plain
/// year, month and day numbers.  A value is only meaningful when
/// [`valid_date`] holds of its fields; [`Date::from_ymd`] is the
/// checked constructor.
#[derive(Clone, Copy, Debug, PartialEq, Eq, Structural)]
pub struct Date {
    pub year: u32,
    pub month: u32,
    pub day: u32,
}

/// Whether `y` is a leap year of the Gregorian calendar.
pub open spec fn is_leap_year(y: int) -> bool {
    y % 4 == 0 && (y % 100 != 0 || y % 400 == 0)
}

/// The number of days of month `m` in year `y` (for `m` in `1..=12`).
pub open spec fn days_in_month(y: int, m: int) -> int {
    if m == 2 {
        if is_leap_year(y) {
            29
        } else {
            28
        }
    } else if m == 4 || m == 6 || m == 9 || m == 11 {
        30
    } else {
        31
    }
}

/// Whether year, month and day form a Gregorian calendar date.
pub open spec fn valid_date(y: int, m: int, d: int) -> bool {
    &&& 1 <= m <= 12
    &&& 1 <= d <= days_in_month(y, m)
}

impl Date {
    /// The fields form a real calendar date.
    pub open spec fn wf(self) -> bool {
        valid_date(self.year as int, self.month as int, self.day as int)
    }

    /// Builds a date from plain numbers; `None` exactly on a malformed
    /// year-month-day triple.
    pub fn from_ymd(year: u32, month: u32, day: u32) -> (r: Option<Date>)
        ensures
            r is Some <==> valid_date(year as int, month as int, day as int),
            r matches Some(d) ==> d == (Date { year, month, day }),
    {
        if month < 1 || month > 12 {
            return None;
        }
        let leap: bool = year % 4 == 0 && (year % 100 != 0 || year % 400 == 0);
        let limit: u32 = if month == 2 {
            if leap {
                29
            } else {
                28
            }
        } else if month == 4 || month == 6 || month == 9 || month == 11 {
            30
        } else {
            31
        };
        if day < 1 || day > limit {
            None
        } else {
            Some(Date { year, month, day })
        }
    }
}

/// A catalog entry: a unique barcode, a display name and the
/// VAT-inclusive unit price in hundredths.
#[derive(Debug, PartialEq, Eq)]
pub struct Product {
    pub barcode: String,
    pub name: String,
    pub price: u32,
}

impl Clone for Product {
    /// Field-for-field copy.
    fn clone(&self) -> (r: Self)
        ensures
            r == *self,
    {
        Product { barcode: self.barcode.clone(), name: self.name.clone(), price: self.price }
    }
}

/// One restock event: a quantity of stock of one product, bought at
/// one cost basis, with an optional expiry date.  The batch id orders
/// batches by creation (a lower id is an older batch), which is the
/// depletion policy.
#[derive(Debug, PartialEq, Eq)]
pub struct StockBatch {
    /// Creation-ordered identifier, unique over the store.
    pub id: u32,
    /// The product this batch belongs to.
    pub barcode: String,
    /// Cost basis per unit, in hundredths.
    pub cost: u32,
    /// Units still unsold.  Never negative by type; only the
    /// settlement write path lowers it.
    pub remaining: u16,
    /// Expiry date, where the product has one.
    pub expiry: Option<Date>,
}

impl Clone for StockBatch {
    /// Field-for-field copy.
    fn clone(&self) -> (r: Self)
        ensures
            r == *self,
    {
        StockBatch {
            id: self.id,
            barcode: self.barcode.clone(),
            cost: self.cost,
            remaining: self.remaining,
            expiry: self.expiry,
        }
    }
}

/// Batch ids strictly increase along the run: the policy (FIFO) order,
/// and in particular all ids are distinct.
pub open spec fn ids_increasing(batches: Seq<StockBatch>) -> bool {
    forall|j: int, k: int|
        0 <= j < k < batches.len() ==> #[trigger] batches[j].id < #[trigger] batches[k].id
}

/// One line item of a sale request: which product, and how many units.
/// A quantity of zero is rejected at settlement with
/// [`SaleError::Validation`].
#[derive(Debug, PartialEq, Eq)]
pub struct Sell {
    pub barcode: String,
    pub amount: u16,
}

impl Clone for Sell {
    /// Field-for-field copy.
    fn clone(&self) -> (r: Self)
        ensures
            r == *self,
    {
        Sell { barcode: self.barcode.clone(), amount: self.amount }
    }
}

/// Why a line item cannot settle.
#[derive(Clone, Copy, Debug, PartialEq, Eq, Structural)]
pub enum SaleError {
    /// The request itself is malformed: a non-positive quantity.
    Validation,
    /// No product carries the line item's barcode.
    UnknownProduct,
    /// The product's batches hold fewer units than requested; nothing
    /// was consumed.
    InsufficientStock { requested: u16, available: u16 },
    /// A concurrent transaction changed a batch between read and
    /// write (the optimistic row check failed).
    Concurrency,
    /// The storage layer failed to persist a write.
    Persistence,
}

/// Why a repository operation was refused.
#[derive(Clone, Copy, Debug, PartialEq, Eq, Structural)]
pub enum RepoError {
    /// A row with the same key already exists, or the row to write was
    /// changed or removed by another party.
    Conflict,
    /// The referenced product does not exist.
    NotFound,
}

} // verus!
