//! Order data model and the order-type quantity semantics.

use vstd::prelude::*;

verus! {

/// Operation kind of an order; each kind has its own quantity transform
/// and availability-check policy.
#[derive(Clone, Copy, Debug, PartialEq, Eq, Structural)]
pub enum OrderType {
    StockIn,
    StockOut,
    Return,
    Exchange,
    Calibration,
    CalibrationStrict,
    Verification,
    VerificationStrict,
}

/// Currency tag carried on an order header; the engine never computes
/// with it.
#[derive(Clone, Copy, Debug, PartialEq, Eq, Structural)]
pub enum OrderCurrency {
    Unknown,
    USD,
    CNY,
    HKD,
    EUR,
    GBP,
    JPY,
}

/// Settlement state of an order, derived from its totals.
/// `NotRequired` marks an order that asks for no payment at all.
#[derive(Clone, Copy, Debug, PartialEq, Eq, Structural)]
pub enum OrderPaymentStatus {
    NotRequired,
    Unsettled,
    PartialSettled,
    Settled,
}

/// One line of an order.  `exchanged` marks the return leg of an
/// Exchange order; under every other order type it means "skip this
/// item".  Prices and amounts are integers in the currency's minor unit.
#[derive(Clone, Copy, Debug, PartialEq, Eq, Structural)]
pub struct OrderItem {
    pub sku_id: i64,
    pub quantity: i64,
    pub price: i64,
    pub exchanged: bool,
}

/// An order: header plus an optional item list.  `is_record` orders are
/// stored for history but never touch inventory or checks.
#[derive(Clone, Debug)]
pub struct Order {
    pub id: i64,
    pub from_guest_order_id: i64,
    pub created_by_user_id: i64,
    pub updated_by_user_id: i64,
    pub warehouse_id: i64,
    pub currency: OrderCurrency,
    pub total_amount: i64,
    pub total_amount_settled: i64,
    pub order_payment_status: OrderPaymentStatus,
    pub person_related_id: i64,
    pub person_in_charge_id: i64,
    pub date: i64,
    pub last_updated_date: i64,
    pub description: String,
    pub order_type: OrderType,
    pub order_category_id: i64,
    pub is_record: bool,
    pub non_payment: bool,
    pub items: Option<Vec<OrderItem>>,
}

/// The quantity an inventory row holds after `item` is applied to it
/// under `order_type`, in unbounded integer arithmetic.
pub open spec fn spec_calc_quantity(current: int, item: OrderItem, order_type: OrderType) -> int {
    match order_type {
        OrderType::Return | OrderType::StockIn => if !item.exchanged {
            current + item.quantity
        } else {
            current
        },
        OrderType::StockOut => if !item.exchanged {
            current - item.quantity
        } else {
            current
        },
        OrderType::Exchange => if item.exchanged {
            current + item.quantity
        } else {
            current - item.quantity
        },
        OrderType::Calibration | OrderType::CalibrationStrict => if !item.exchanged {
            item.quantity as int
        } else {
            current
        },
        OrderType::Verification | OrderType::VerificationStrict => current,
    }
}

/// Pure quantity transform: (current quantity, item, order type) to the
/// new quantity.  StockIn and Return add, StockOut subtracts, Exchange
/// adds or subtracts depending on the leg, Calibration sets absolutely,
/// Verification never mutates.
pub fn calc_quantity_by_order_type(inventory_quantity: i64, item: &OrderItem, order_type: OrderType) -> (r: i64)
    requires
        i64::MIN <= spec_calc_quantity(inventory_quantity as int, *item, order_type) <= i64::MAX,
    ensures
        r == spec_calc_quantity(inventory_quantity as int, *item, order_type),
{
    let mut q = inventory_quantity;
    match order_type {
        OrderType::Return | OrderType::StockIn => {
            if !item.exchanged {
                q = q + item.quantity;
            }
        },
        OrderType::StockOut => {
            if !item.exchanged {
                q = q - item.quantity;
            }
        },
        OrderType::Exchange => {
            if item.exchanged {
                q = q + item.quantity;
            } else {
                q = q - item.quantity;
            }
        },
        OrderType::Calibration | OrderType::CalibrationStrict => {
            if !item.exchanged {
                q = item.quantity;
            }
        },
        OrderType::Verification | OrderType::VerificationStrict => {},
    }
    q
}

} // verus!
