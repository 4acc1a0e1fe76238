use elerp_core::check::check;
use elerp_core::check::ItemNotAvailable;
use elerp_core::inventory::Inventory;
use elerp_core::inventory::InventoryProduct;
use elerp_core::lifecycle::is_check_pass;
use elerp_core::order::Order;
use elerp_core::order::OrderCurrency;
use elerp_core::order::OrderItem;
use elerp_core::order::OrderPaymentStatus;
use elerp_core::order::OrderType;

fn check_order(order_type: OrderType, items: Vec<OrderItem>) -> Order {
    Order {
        id: 0,
        from_guest_order_id: 0,
        created_by_user_id: 0,
        updated_by_user_id: 0,
        warehouse_id: 5,
        currency: OrderCurrency::USD,
        total_amount: 0,
        total_amount_settled: 0,
        order_payment_status: OrderPaymentStatus::NotRequired,
        person_related_id: 0,
        person_in_charge_id: 0,
        date: 10,
        last_updated_date: 10,
        description: String::new(),
        order_type,
        order_category_id: 1,
        is_record: false,
        non_payment: false,
        items: Some(items),
    }
}

fn check_item(sku_id: i64, quantity: i64) -> OrderItem {
    OrderItem { sku_id, quantity, price: 0, exchanged: false }
}

fn row(warehouse_id: i64, sku_id: i64, quantity: i64) -> InventoryProduct {
    InventoryProduct { warehouse_id, sku_id, sku_category_id: 11, quantity }
}

fn seeded_inventory(rows: Vec<InventoryProduct>) -> Inventory {
    let mut inv = Inventory::new();
    for r in rows {
        inv.insert_row(r);
    }
    inv
}

#[test]
fn test_check_stock_out_shortage() {
    let inv = seeded_inventory(vec![row(5, 1, 10), row(5, 2, 3)]);
    // sku 1 is short by aggregation (7 + 4 > 10); sku 2 suffices;
    // sku 3 is absent and so short for any positive requirement
    let order = check_order(
        OrderType::StockOut,
        vec![check_item(1, 7), check_item(1, 4), check_item(2, 3), check_item(3, 1)],
    );
    let full = check(&order, false, &inv);
    assert_eq!(
        full.items_not_available,
        vec![
            ItemNotAvailable { sku_id: 1, require_quantity: 11, actual_quantity: 10 },
            ItemNotAvailable { sku_id: 3, require_quantity: 1, actual_quantity: 0 },
        ]
    );
    let fast = check(&order, true, &inv);
    assert_eq!(
        fast.items_not_available,
        vec![ItemNotAvailable { sku_id: 1, require_quantity: 11, actual_quantity: 10 }]
    );
    assert!(!is_check_pass(&order, &inv));
}

#[test]
fn test_check_stock_out_exact_fit_passes() {
    let inv = seeded_inventory(vec![row(5, 1, 11)]);
    let order = check_order(OrderType::StockOut, vec![check_item(1, 7), check_item(1, 4)]);
    assert!(check(&order, false, &inv).items_not_available.is_empty());
    assert!(is_check_pass(&order, &inv));
}

#[test]
fn test_check_exchanged_items_not_counted() {
    let inv = seeded_inventory(vec![row(5, 1, 5)]);
    // the exchanged (return) leg of an Exchange order needs no stock
    let order = check_order(
        OrderType::Exchange,
        vec![check_item(1, 5), OrderItem { sku_id: 1, quantity: 50, price: 0, exchanged: true }],
    );
    assert!(check(&order, false, &inv).items_not_available.is_empty());
}

#[test]
fn test_check_stock_in_always_passes() {
    let inv = Inventory::new();
    for order_type in [
        OrderType::StockIn,
        OrderType::Return,
        OrderType::Calibration,
        OrderType::CalibrationStrict,
    ] {
        let order = check_order(order_type, vec![check_item(1, 1000000)]);
        assert!(check(&order, false, &inv).items_not_available.is_empty());
    }
}

#[test]
fn test_check_record_order_passes() {
    let inv = Inventory::new();
    let mut order = check_order(OrderType::StockOut, vec![check_item(1, 1000)]);
    order.is_record = true;
    assert!(check(&order, false, &inv).items_not_available.is_empty());
}

#[test]
fn test_check_no_items_passes() {
    let inv = Inventory::new();
    let mut order = check_order(OrderType::StockOut, vec![]);
    order.items = None;
    assert!(check(&order, false, &inv).items_not_available.is_empty());
}

#[test]
fn test_check_verification_equality() {
    let inv = seeded_inventory(vec![row(5, 1, 10), row(5, 2, 3)]);
    let matching = check_order(OrderType::Verification, vec![check_item(1, 10), check_item(2, 3)]);
    assert!(check(&matching, false, &inv).items_not_available.is_empty());

    // equality, not a threshold: both too much and too little mismatch
    let off = check_order(OrderType::Verification, vec![check_item(1, 9), check_item(2, 4)]);
    let r = check(&off, false, &inv);
    assert_eq!(
        r.items_not_available,
        vec![
            ItemNotAvailable { sku_id: 1, require_quantity: 9, actual_quantity: 10 },
            ItemNotAvailable { sku_id: 2, require_quantity: 4, actual_quantity: 3 },
        ]
    );
}

#[test]
fn test_check_verification_strict_closure() {
    // items exactly match and nothing else is nonzero: the order passes
    let inv = seeded_inventory(vec![row(5, 1, 10), row(5, 2, 0), row(6, 7, 4)]);
    let order = check_order(OrderType::VerificationStrict, vec![check_item(1, 10)]);
    assert!(check(&order, false, &inv).items_not_available.is_empty());

    // one unlisted nonzero sku elsewhere in the warehouse: exactly one
    // violation in fast mode, and all such violations in full mode
    let intruded = seeded_inventory(vec![row(5, 1, 10), row(5, 2, 8), row(5, 3, 9), row(6, 7, 4)]);
    let fast = check(&order, true, &intruded);
    assert_eq!(
        fast.items_not_available,
        vec![ItemNotAvailable { sku_id: 2, require_quantity: 0, actual_quantity: 8 }]
    );
    let full = check(&order, false, &intruded);
    assert_eq!(
        full.items_not_available,
        vec![
            ItemNotAvailable { sku_id: 2, require_quantity: 0, actual_quantity: 8 },
            ItemNotAvailable { sku_id: 3, require_quantity: 0, actual_quantity: 9 },
        ]
    );
}

#[test]
fn test_check_verification_strict_mismatch_first() {
    let inv = seeded_inventory(vec![row(5, 1, 10), row(5, 2, 8)]);
    let order = check_order(OrderType::VerificationStrict, vec![check_item(1, 4)]);
    let fast = check(&order, true, &inv);
    assert_eq!(
        fast.items_not_available,
        vec![ItemNotAvailable { sku_id: 1, require_quantity: 4, actual_quantity: 10 }]
    );
    let full = check(&order, false, &inv);
    assert_eq!(full.items_not_available.len(), 2);
    assert_eq!(
        full.items_not_available[1],
        ItemNotAvailable { sku_id: 2, require_quantity: 0, actual_quantity: 8 }
    );
}
