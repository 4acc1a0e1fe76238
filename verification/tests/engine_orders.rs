use elerp_core::error::EngineError;
use elerp_core::events::EventBus;
use elerp_core::events::WebSocketFlags;
use elerp_core::inventory::Inventory;
use elerp_core::lifecycle;
use elerp_core::lifecycle::OrderStore;
use elerp_core::order::Order;
use elerp_core::order::OrderCurrency;
use elerp_core::order::OrderItem;
use elerp_core::order::OrderPaymentStatus;
use elerp_core::order::OrderType;
use elerp_core::sku::SkuRegistry;
use elerp_core::sku::SKU;
use elerp_core::user::ActionType;
use elerp_core::user::UserInfo;
use elerp_core::user::UserType;

fn test_user() -> UserInfo {
    UserInfo {
        id: 77,
        alias: "Admin".to_owned(),
        username: "admin".to_owned(),
        password: "admin123".to_owned(),
        user_type: UserType::Admin,
        permission: 0,
        is_connected: true,
    }
}

fn test_sku(id: i64, category: i64) -> SKU {
    SKU {
        id,
        sku_category_id: category,
        name: format!("sku #{id}"),
        description: String::new(),
        color: None,
        text_color: None,
    }
}

fn test_registry() -> SkuRegistry {
    let mut skus = SkuRegistry::new();
    skus.add(test_sku(1, 11));
    skus.add(test_sku(2, 11));
    skus
}

fn item(sku_id: i64, quantity: i64, price: i64, exchanged: bool) -> OrderItem {
    OrderItem { sku_id, quantity, price, exchanged }
}

fn order_with(
    order_type: OrderType,
    date: i64,
    is_record: bool,
    items: Vec<OrderItem>,
) -> Order {
    Order {
        id: 0,
        from_guest_order_id: 0,
        created_by_user_id: 0,
        updated_by_user_id: 0,
        warehouse_id: 5,
        currency: OrderCurrency::USD,
        total_amount: 0,
        total_amount_settled: 0,
        order_payment_status: OrderPaymentStatus::NotRequired,
        person_related_id: 0,
        person_in_charge_id: 0,
        date,
        last_updated_date: date,
        description: "Testing order".to_owned(),
        order_type,
        order_category_id: 1,
        is_record,
        non_payment: false,
        items: Some(items),
    }
}

fn quantity_of(inv: &Inventory, warehouse_id: i64, sku_id: i64) -> Option<i64> {
    inv.get(warehouse_id, sku_id).map(|p| p.quantity)
}

#[test]
fn test_order_preprocess() {
    let user = test_user();
    let mut order = order_with(
        OrderType::StockIn,
        0,
        false,
        vec![item(1, 100, 18, true), item(2, 250, 10, false)],
    );
    lifecycle::preprocess(&mut order, &user, true, 42, 1000);
    assert_eq!(order.created_by_user_id, user.id);
    assert_eq!(order.updated_by_user_id, user.id);
    assert_eq!(order.person_in_charge_id, 42);
    assert_eq!(order.from_guest_order_id, 0);
    assert!(order.date > 0);
    let kept = order.items.as_ref().unwrap();
    assert_eq!(kept.len(), 1);
    assert_eq!(kept[0].sku_id, 2);
    assert_eq!(kept[0].quantity, 250);
    assert_eq!(kept[0].price, 10);
    assert!(!kept[0].exchanged);
    assert_eq!(order.total_amount, 2500);
    assert_eq!(order.total_amount_settled, 0);
    assert_eq!(order.order_payment_status, OrderPaymentStatus::Unsettled);

    order.non_payment = true;
    lifecycle::preprocess(&mut order, &user, true, 42, 1001);
    assert_eq!(order.total_amount, 2500);
    assert_eq!(order.order_payment_status, OrderPaymentStatus::NotRequired);

    order.items.take();
    order.non_payment = false;
    lifecycle::preprocess(&mut order, &user, true, 42, 1002);
    assert_eq!(order.total_amount, 0);
    assert_eq!(order.order_payment_status, OrderPaymentStatus::NotRequired);
}

#[test]
fn order_test_module() {
    let skus = test_registry();
    let mut inv = Inventory::new();
    let mut orders = OrderStore::new();
    let mut bus = EventBus::new();
    let max: i64 = 9;

    // a record order never touches inventory, removed or not
    let record = order_with(
        OrderType::StockOut,
        1,
        true,
        vec![item(1, 100, 18, false), item(2, 250, 10, false)],
    );
    let r = lifecycle::add(record, &mut inv, &skus, &mut orders, &mut bus).unwrap();
    assert!(quantity_of(&inv, 5, 1).is_none());
    assert!(quantity_of(&inv, 5, 2).is_none());
    lifecycle::remove(r.id, true, false, &mut inv, &skus, &mut orders, &mut bus).unwrap();
    assert!(quantity_of(&inv, 5, 1).is_none());
    assert!(quantity_of(&inv, 5, 2).is_none());

    // stock in <max> orders
    for n in 0..max {
        let order = order_with(
            OrderType::StockIn,
            10 + n,
            false,
            vec![item(1, 100, 18, false), item(2, 250, 10, false)],
        );
        let r = lifecycle::add(order, &mut inv, &skus, &mut orders, &mut bus).unwrap();
        assert_eq!(r.total_amount, 4300);
        assert_eq!(r.total_amount_settled, 0);
        // status follows the totals: a positive total on a payable order
        // starts unsettled, whatever the order type
        assert_eq!(r.order_payment_status, OrderPaymentStatus::Unsettled);
        assert_eq!(quantity_of(&inv, 5, 1), Some(100 * (n + 1)));
        assert_eq!(quantity_of(&inv, 5, 2), Some(250 * (n + 1)));
        assert!(orders.is_exists(r.id));
        assert!(!orders.is_exists(r.id + 1));
    }
    assert_eq!(orders.count() as i64, max);
    let sku1_qty = 100 * max;
    let sku2_qty = 250 * max;

    // a stock out halves both, its removal restores them
    let out = order_with(
        OrderType::StockOut,
        30,
        false,
        vec![item(1, 50 * max, 1, false), item(2, 125 * max, 5, false)],
    );
    let out = lifecycle::add(out, &mut inv, &skus, &mut orders, &mut bus).unwrap();
    assert_eq!(out.order_payment_status, OrderPaymentStatus::Unsettled);
    assert_eq!(quantity_of(&inv, 5, 1), Some(sku1_qty / 2));
    assert_eq!(quantity_of(&inv, 5, 2), Some(sku2_qty / 2));
    lifecycle::remove(out.id, true, false, &mut inv, &skus, &mut orders, &mut bus).unwrap();
    assert_eq!(quantity_of(&inv, 5, 1), Some(sku1_qty));
    assert_eq!(quantity_of(&inv, 5, 2), Some(sku2_qty));

    // an exchange moves both legs; its recall flips them back
    let exchange = order_with(
        OrderType::Exchange,
        31,
        false,
        vec![item(1, 50 * max, 0, false), item(2, 125 * max, 0, true)],
    );
    let exchange = lifecycle::add(exchange, &mut inv, &skus, &mut orders, &mut bus).unwrap();
    assert_eq!(exchange.order_payment_status, OrderPaymentStatus::NotRequired);
    assert_eq!(quantity_of(&inv, 5, 1), Some(sku1_qty / 2));
    assert_eq!(quantity_of(&inv, 5, 2), Some(125 * max + sku2_qty));
    lifecycle::remove(exchange.id, true, false, &mut inv, &skus, &mut orders, &mut bus).unwrap();
    assert_eq!(quantity_of(&inv, 5, 1), Some(sku1_qty));
    assert_eq!(quantity_of(&inv, 5, 2), Some(sku2_qty));

    // a calibration sets absolutely; removing it replays the history
    let calibration = order_with(
        OrderType::Calibration,
        32,
        false,
        vec![item(1, 999, 0, false), item(2, 666, 0, false)],
    );
    let calibration = lifecycle::add(calibration, &mut inv, &skus, &mut orders, &mut bus).unwrap();
    assert_eq!(quantity_of(&inv, 5, 1), Some(999));
    assert_eq!(quantity_of(&inv, 5, 2), Some(666));

    let top_up = order_with(
        OrderType::StockIn,
        33,
        false,
        vec![item(1, 1, 0, false), item(2, 334, 0, false)],
    );
    let top_up = lifecycle::add(top_up, &mut inv, &skus, &mut orders, &mut bus).unwrap();
    assert_eq!(quantity_of(&inv, 5, 1), Some(1000));
    assert_eq!(quantity_of(&inv, 5, 2), Some(1000));

    lifecycle::remove(calibration.id, true, false, &mut inv, &skus, &mut orders, &mut bus).unwrap();
    assert_eq!(quantity_of(&inv, 5, 1), Some(100 * max + 1));
    assert_eq!(quantity_of(&inv, 5, 2), Some(250 * max + 334));

    lifecycle::remove(top_up.id, true, false, &mut inv, &skus, &mut orders, &mut bus).unwrap();
    assert_eq!(quantity_of(&inv, 5, 1), Some(100 * max));
    assert_eq!(quantity_of(&inv, 5, 2), Some(250 * max));

    // a strict calibration zeroes what it does not touch
    let strict = order_with(OrderType::CalibrationStrict, 34, false, vec![item(1, 1314, 0, false)]);
    let strict = lifecycle::add(strict, &mut inv, &skus, &mut orders, &mut bus).unwrap();
    assert_eq!(quantity_of(&inv, 5, 1), Some(1314));
    assert_eq!(quantity_of(&inv, 5, 2), Some(0));
    lifecycle::remove(strict.id, true, false, &mut inv, &skus, &mut orders, &mut bus).unwrap();
    assert_eq!(quantity_of(&inv, 5, 1), Some(100 * max));
    assert_eq!(quantity_of(&inv, 5, 2), Some(250 * max));

    // unwind every stock-in by its standard id
    for n in 0..max {
        let id = lifecycle::get_standard_id(n + 1);
        assert!(orders.is_exists(id));
        lifecycle::remove(id, true, false, &mut inv, &skus, &mut orders, &mut bus).unwrap();
        assert!(!orders.is_exists(id));
        assert_eq!(quantity_of(&inv, 5, 1), Some(100 * max - 100 * (n + 1)));
        assert_eq!(quantity_of(&inv, 5, 2), Some(250 * max - 250 * (n + 1)));
    }
    assert_eq!(quantity_of(&inv, 5, 1), Some(0));
    assert_eq!(quantity_of(&inv, 5, 2), Some(0));
}

fn remove_after_calibration(strict: bool) {
    let skus = test_registry();
    let mut inv = Inventory::new();
    let mut orders = OrderStore::new();
    let mut bus = EventBus::new();

    let stock_in = order_with(
        OrderType::StockIn,
        10,
        false,
        vec![item(1, 100, 18, false), item(2, 250, 10, false)],
    );
    let stock_in = lifecycle::add(stock_in, &mut inv, &skus, &mut orders, &mut bus).unwrap();

    let stock_out = order_with(
        OrderType::StockOut,
        11,
        false,
        vec![item(1, 10, 18, false), item(2, 10, 10, false)],
    );
    let stock_out = lifecycle::add(stock_out, &mut inv, &skus, &mut orders, &mut bus).unwrap();
    assert_eq!(quantity_of(&inv, 5, 1), Some(90));
    assert_eq!(quantity_of(&inv, 5, 2), Some(240));

    let calibration = order_with(
        if strict {
            OrderType::CalibrationStrict
        } else {
            OrderType::Calibration
        },
        12,
        false,
        vec![item(1, 5, 18, false), item(2, 6, 10, false)],
    );
    lifecycle::add(calibration, &mut inv, &skus, &mut orders, &mut bus).unwrap();
    assert_eq!(quantity_of(&inv, 5, 1), Some(5));
    assert_eq!(quantity_of(&inv, 5, 2), Some(6));

    // a later calibration guards both removals: quantities stay put
    lifecycle::remove(stock_out.id, true, false, &mut inv, &skus, &mut orders, &mut bus).unwrap();
    assert_eq!(quantity_of(&inv, 5, 1), Some(5));
    assert_eq!(quantity_of(&inv, 5, 2), Some(6));

    lifecycle::remove(stock_in.id, true, false, &mut inv, &skus, &mut orders, &mut bus).unwrap();
    assert_eq!(quantity_of(&inv, 5, 1), Some(5));
    assert_eq!(quantity_of(&inv, 5, 2), Some(6));
}

#[test]
fn test_remove_after_calibration() {
    remove_after_calibration(false);
}

#[test]
fn test_remove_after_calibration_strict() {
    remove_after_calibration(true);
}

#[test]
fn test_delta_undo() {
    // StockIn(S, 100) then StockOut(S, 30) leaves 70; removing the
    // stock-out without an intervening calibration restores 100
    let skus = test_registry();
    let mut inv = Inventory::new();
    let mut orders = OrderStore::new();
    let mut bus = EventBus::new();

    let stock_in = order_with(OrderType::StockIn, 10, false, vec![item(1, 100, 1, false)]);
    lifecycle::add(stock_in, &mut inv, &skus, &mut orders, &mut bus).unwrap();
    let stock_out = order_with(OrderType::StockOut, 11, false, vec![item(1, 30, 1, false)]);
    let stock_out = lifecycle::add(stock_out, &mut inv, &skus, &mut orders, &mut bus).unwrap();
    assert_eq!(quantity_of(&inv, 5, 1), Some(70));

    lifecycle::remove(stock_out.id, true, false, &mut inv, &skus, &mut orders, &mut bus).unwrap();
    assert_eq!(quantity_of(&inv, 5, 1), Some(100));
}

#[test]
fn test_add_unknown_sku_fails() {
    let skus = test_registry();
    let mut inv = Inventory::new();
    let mut orders = OrderStore::new();
    let mut bus = EventBus::new();

    let order = order_with(OrderType::StockIn, 10, false, vec![item(3, 4, 1, false)]);
    let r = lifecycle::add(order, &mut inv, &skus, &mut orders, &mut bus);
    assert_eq!(r.unwrap_err(), EngineError::SkuNotFound);
    assert_eq!(orders.count(), 0);
    assert!(inv.all_rows().is_empty());
    assert!(bus.events().is_empty());
}

#[test]
fn test_update_affected_zero() {
    let mut inv = Inventory::new();
    let r = inv.update_quantity(5, 1, 9);
    assert_eq!(r.unwrap_err(), EngineError::UpdateAffectedZero);
}

#[test]
fn test_recalc_all_idempotent() {
    // replaying the same scope and history twice yields identical rows
    let skus = test_registry();
    let mut inv = Inventory::new();
    let mut orders = OrderStore::new();
    let mut bus = EventBus::new();

    let a = order_with(OrderType::StockIn, 10, false, vec![item(1, 7, 1, false)]);
    lifecycle::add(a, &mut inv, &skus, &mut orders, &mut bus).unwrap();
    let b = order_with(OrderType::StockOut, 11, false, vec![item(1, 2, 1, false)]);
    lifecycle::add(b, &mut inv, &skus, &mut orders, &mut bus).unwrap();
    let c = order_with(OrderType::StockIn, 12, false, vec![item(2, 3, 1, false)]);
    lifecycle::add(c, &mut inv, &skus, &mut orders, &mut bus).unwrap();

    let history: Vec<Order> = orders.orders().clone();
    elerp_core::recalc::recalc_all(&mut inv, &skus, &history, None, None, None, &mut bus).unwrap();
    let first: Vec<_> = inv.all_rows().clone();
    elerp_core::recalc::recalc_all(&mut inv, &skus, &history, None, None, None, &mut bus).unwrap();
    let second: Vec<_> = inv.all_rows().clone();
    assert_eq!(first, second);
    assert_eq!(quantity_of(&inv, 5, 1), Some(5));
    assert_eq!(quantity_of(&inv, 5, 2), Some(3));
}

#[test]
fn test_update_order_header() {
    let skus = test_registry();
    let mut inv = Inventory::new();
    let mut orders = OrderStore::new();
    let mut bus = EventBus::new();

    let order = order_with(OrderType::StockIn, 10, false, vec![item(1, 4, 1, false)]);
    let added = lifecycle::add(order, &mut inv, &skus, &mut orders, &mut bus).unwrap();

    let mut edit = order_with(OrderType::StockIn, 10, false, vec![]);
    edit.description = "Edited".to_owned();
    edit.person_related_id = 9;
    let updated = lifecycle::update(added.id, edit, ActionType::Admin, &mut orders, &mut bus);
    let updated = updated.unwrap();
    assert_eq!(updated.id, added.id);
    let stored = orders.get(added.id).unwrap();
    assert_eq!(stored.description, "Edited");
    assert_eq!(stored.person_related_id, 9);
    // the item list and the inventory stay untouched
    assert_eq!(stored.items.as_ref().unwrap().len(), 1);
    assert_eq!(quantity_of(&inv, 5, 1), Some(4));

    assert!(lifecycle::update(999, order_with(OrderType::StockIn, 1, false, vec![]), ActionType::System, &mut orders, &mut bus).is_none());
}

#[test]
fn test_event_bus_publication_order() {
    let skus = test_registry();
    let mut inv = Inventory::new();
    let mut orders = OrderStore::new();
    let mut bus = EventBus::new();

    let stock_in = order_with(OrderType::StockIn, 10, false, vec![item(1, 4, 1, false)]);
    let stock_in = lifecycle::add(stock_in, &mut inv, &skus, &mut orders, &mut bus).unwrap();
    let calibration = order_with(OrderType::Calibration, 11, false, vec![item(1, 9, 1, false)]);
    let calibration = lifecycle::add(calibration, &mut inv, &skus, &mut orders, &mut bus).unwrap();

    // removing the calibration replays the history, which publishes
    // the recalculation event before the removal event
    lifecycle::remove(calibration.id, true, true, &mut inv, &skus, &mut orders, &mut bus).unwrap();
    // removing a plain stock-in publishes only the removal
    lifecycle::remove(stock_in.id, true, true, &mut inv, &skus, &mut orders, &mut bus).unwrap();

    assert_eq!(
        bus.events().as_slice(),
        &[
            WebSocketFlags::AddOrder(stock_in.id),
            WebSocketFlags::AddOrder(calibration.id),
            WebSocketFlags::RecalcOrders,
            WebSocketFlags::RemoveOrder(calibration.id),
            WebSocketFlags::RemoveOrder(stock_in.id),
        ]
    );
}

#[test]
fn test_order_store_queries() {
    let skus = test_registry();
    let mut inv = Inventory::new();
    let mut orders = OrderStore::new();
    let mut bus = EventBus::new();

    let stock_out = order_with(OrderType::StockIn, 10, false, vec![item(1, 4, 1, false)]);
    let added = lifecycle::add(stock_out, &mut inv, &skus, &mut orders, &mut bus).unwrap();
    assert_eq!(
        orders.get_order_payment_status(added.id),
        Some(OrderPaymentStatus::Unsettled)
    );
    assert_eq!(orders.get_order_payment_status(added.id + 1), None);
    assert!(!orders.is_from_guest_order(added.id));
    assert!(!orders.is_from_guest_order(99999));
}

#[test]
fn test_add_status_follows_totals() {
    let skus = test_registry();
    let mut inv = Inventory::new();
    let mut orders = OrderStore::new();
    let mut bus = EventBus::new();

    // positive total, payment asked for: unsettled, even for a stock-in
    let stock_in = order_with(OrderType::StockIn, 10, false, vec![item(1, 2, 3, false)]);
    let r = lifecycle::add(stock_in, &mut inv, &skus, &mut orders, &mut bus).unwrap();
    assert_eq!(r.order_payment_status, OrderPaymentStatus::Unsettled);

    // non-payment order: no payment owed regardless of the total
    let mut free = order_with(OrderType::StockOut, 11, false, vec![item(1, 1, 3, false)]);
    free.non_payment = true;
    let r = lifecycle::add(free, &mut inv, &skus, &mut orders, &mut bus).unwrap();
    assert_eq!(r.order_payment_status, OrderPaymentStatus::NotRequired);

    // zero total: no payment owed
    let gratis = order_with(OrderType::StockOut, 12, false, vec![item(1, 1, 0, false)]);
    let r = lifecycle::add(gratis, &mut inv, &skus, &mut orders, &mut bus).unwrap();
    assert_eq!(r.order_payment_status, OrderPaymentStatus::NotRequired);
}

#[test]
fn test_remove_reports_dropped_items() {
    let skus = test_registry();
    let mut inv = Inventory::new();
    let mut orders = OrderStore::new();
    let mut bus = EventBus::new();

    // an order stored without item lines is removed, but the flag
    // reports that no item line was dropped
    let mut bare = order_with(OrderType::StockIn, 10, false, vec![]);
    bare.items = None;
    let bare = lifecycle::add(bare, &mut inv, &skus, &mut orders, &mut bus).unwrap();
    let r = lifecycle::remove(bare.id, true, false, &mut inv, &skus, &mut orders, &mut bus);
    assert_eq!(r.unwrap(), false);
    assert!(!orders.is_exists(bare.id));

    // one with items reports true
    let full = order_with(OrderType::StockIn, 11, false, vec![item(1, 2, 1, false)]);
    let full = lifecycle::add(full, &mut inv, &skus, &mut orders, &mut bus).unwrap();
    let r = lifecycle::remove(full.id, true, false, &mut inv, &skus, &mut orders, &mut bus);
    assert_eq!(r.unwrap(), true);

    // an unknown id reports false untouched
    let r = lifecycle::remove(424242, true, false, &mut inv, &skus, &mut orders, &mut bus);
    assert_eq!(r.unwrap(), false);
}
