//! VAT and profit arithmetic on concrete prices.

use sunminimart_server::money::{net_of_vat, unit_profit, vat_of};

/// price 107.00, cost 50.00 at the fixed 7% rate: the net part is
/// exactly 100.00, so profit is 50.00 and VAT is 7.00.
#[test]
fn vat_arithmetic_is_exact_on_divisible_price() {
    let price: u32 = 10700;
    assert_eq!(net_of_vat(price), 10000);
    assert_eq!(vat_of(price), 700);
    assert_eq!(unit_profit(price, 5000), 5000);
}

/// price 100.00: 10000 / 1.07 = 9345.79..., rounded to the nearest
/// hundredth, 93.46; VAT is the rest.
#[test]
fn vat_arithmetic_rounds_to_nearest_hundredth() {
    let price: u32 = 10000;
    assert_eq!(net_of_vat(price), 9346);
    assert_eq!(vat_of(price), 654);
}

/// A unit sold below its cost basis yields a negative profit.
#[test]
fn profit_is_negative_below_cost() {
    let price: u32 = 107;
    assert_eq!(net_of_vat(price), 100);
    assert_eq!(unit_profit(price, 200), -100);
}

/// A zero price has no net, no VAT, and a profit of minus the cost.
#[test]
fn zero_price_has_zero_parts() {
    assert_eq!(net_of_vat(0), 0);
    assert_eq!(vat_of(0), 0);
    assert_eq!(unit_profit(0, 300), -300);
}
