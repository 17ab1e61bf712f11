//! Fixed-point money arithmetic for VAT and profit.
//!
//! Every monetary amount is an integer number of hundredths of the
//! currency unit.  A unit price is VAT-inclusive; the net (pre-tax)
//! part is `price / (1 + rate)`, rounded to the nearest hundredth.
//! With the fixed rate of 7% the divisor `107 / 100` is used, so the
//! net amount is the integer nearest to `100 * price / 107` (the
//! divisor is odd, so no ties can arise).

use vstd::prelude::*;

verus! {

/// The system-wide VAT rate, in percent of the net amount.
pub const VAT_RATE_PERCENT: u32 = 7;

/// Gross hundredths per hundred net hundredths: `100 + VAT_RATE_PERCENT`.
pub const GROSS_PER_HUNDRED: u32 = 100 + VAT_RATE_PERCENT;

/// The net (VAT-exclusive) part of a VAT-inclusive price, rounded to
/// the nearest hundredth: the integer quotient of `200 * price + 107`
/// by `214` is the nearest integer to `100 * price / 107`.
pub open spec fn net_of_vat_spec(price: int) -> int {
    (200 * price + GROSS_PER_HUNDRED) / (2 * GROSS_PER_HUNDRED as int)
}

/// The VAT part of a VAT-inclusive price: what is left of the price
/// once the net part is taken out.
pub open spec fn vat_of_spec(price: int) -> int {
    price - net_of_vat_spec(price)
}

/// Per-unit profit realized when a unit bought at `unit_cost` is sold
/// at the VAT-inclusive `price`: the net part of the price minus the
/// cost basis.  May be negative.
pub open spec fn unit_profit_spec(price: int, unit_cost: int) -> int {
    net_of_vat_spec(price) - unit_cost
}

/// The net part is the nearest multiple: `107 * net` differs from
/// `100 * price` by at most half of `107`, and the net part never
/// exceeds the price.
pub proof fn lemma_net_nearest(price: int)
    requires
        price >= 0,
    ensures
        0 <= net_of_vat_spec(price) <= price,
        -107 < 2 * (107 * net_of_vat_spec(price) - 100 * price) <= 107,
{
    let numer = 200 * price + 107;
    let n = net_of_vat_spec(price);
    vstd::arithmetic::div_mod::lemma_fundamental_div_mod(numer, 214);
    vstd::arithmetic::div_mod::lemma_mod_division_less_than_divisor(numer, 214);
    assert(numer == 214 * n + numer % 214);
    assert(0 <= numer % 214 < 214);
    assert(n <= price) by {
        if n > price {
            assert(214 * n >= 214 * (price + 1)) by (nonlinear_arith)
                requires n >= price + 1;
        }
    }
    assert(n >= 0) by {
        if n < 0 {
            assert(214 * n <= 214 * -1) by (nonlinear_arith)
                requires n <= -1;
        }
    }
}

/// Where the division is exact, the net part is exact: if `107`
/// divides `100 * price`, then `107 * net == 100 * price`, so VAT and
/// profit are computed without any rounding.
pub proof fn lemma_net_exact_when_divisible(price: int)
    requires
        price >= 0,
        (100 * price) % 107 == 0,
    ensures
        107 * net_of_vat_spec(price) == 100 * price,
{
    let n = net_of_vat_spec(price);
    let m = (100 * price) / 107;
    vstd::arithmetic::div_mod::lemma_fundamental_div_mod(100 * price, 107);
    assert(100 * price == 107 * m);
    lemma_net_nearest(price);
    assert(2 * (107 * n - 107 * m) <= 107);
    assert(-107 < 2 * (107 * n - 107 * m));
    assert(n == m) by {
        if n > m {
            assert(107 * n >= 107 * (m + 1)) by (nonlinear_arith)
                requires n >= m + 1;
        }
        if n < m {
            assert(107 * n <= 107 * (m - 1)) by (nonlinear_arith)
                requires n <= m - 1;
        }
    }
}

/// The net (VAT-exclusive) part of the VAT-inclusive `price`, both in
/// hundredths, rounded to the nearest hundredth.
pub fn net_of_vat(price: u32) -> (net: u32)
    ensures
        net == net_of_vat_spec(price as int),
        net <= price,
{
    let numer: u64 = 200 * (price as u64) + GROSS_PER_HUNDRED as u64;
    let q: u64 = numer / (2 * GROSS_PER_HUNDRED as u64);
    proof {
        lemma_net_nearest(price as int);
    }
    q as u32
}

/// The VAT part of the VAT-inclusive `price`, in hundredths: the price
/// minus its net part.
pub fn vat_of(price: u32) -> (vat: u32)
    ensures
        vat == vat_of_spec(price as int),
{
    proof {
        lemma_net_nearest(price as int);
    }
    price - net_of_vat(price)
}

/// The per-unit profit of selling at the VAT-inclusive `price` a unit
/// whose cost basis is `unit_cost`, both in hundredths.  Negative when
/// the net part of the price does not cover the cost.
pub fn unit_profit(price: u32, unit_cost: u32) -> (profit: i64)
    ensures
        profit == unit_profit_spec(price as int, unit_cost as int),
{
    net_of_vat(price) as i64 - unit_cost as i64
}

} // verus!
