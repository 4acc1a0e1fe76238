use elerp_core::error::GuestConfirmError;
use elerp_core::events::EventBus;
use elerp_core::guest;
use elerp_core::guest::GuestOrder;
use elerp_core::guest::GuestOrderStatus;
use elerp_core::guest::GuestOrderStore;
use elerp_core::guest::GUEST_ORDER_TTL_SECONDS;
use elerp_core::inventory::Inventory;
use elerp_core::lifecycle;
use elerp_core::lifecycle::OrderStore;
use elerp_core::order::Order;
use elerp_core::order::OrderCurrency;
use elerp_core::order::OrderItem;
use elerp_core::order::OrderPaymentStatus;
use elerp_core::order::OrderType;
use elerp_core::sku::SkuRegistry;
use elerp_core::sku::SKU;
use elerp_core::user::UserInfo;
use elerp_core::user::UserType;

fn guest_user() -> UserInfo {
    UserInfo {
        id: 3,
        alias: "Clerk".to_owned(),
        username: "clerk".to_owned(),
        password: "secret".to_owned(),
        user_type: UserType::General,
        permission: 0,
        is_connected: true,
    }
}

fn guest_draft(order_type: OrderType, items: Option<Vec<OrderItem>>) -> GuestOrder {
    GuestOrder {
        id: 0,
        created_by_user_id: 0,
        person_in_charge_id: 0,
        date: 0,
        confirmed_date: 0,
        sub_token: "testing".to_owned(),
        currency: OrderCurrency::USD,
        warehouse_id: 5,
        person_related_id: 2,
        description: String::new(),
        order_type,
        is_record: false,
        non_payment: false,
        guest_order_status: GuestOrderStatus::Expired,
        order_id: 0,
        order_category_id: 1,
        items,
    }
}

fn guest_item(sku_id: i64, quantity: i64) -> OrderItem {
    OrderItem { sku_id, quantity, price: 1, exchanged: false }
}

fn guest_registry() -> SkuRegistry {
    let mut skus = SkuRegistry::new();
    skus.add(SKU {
        id: 1,
        sku_category_id: 11,
        name: "sku #1".to_owned(),
        description: String::new(),
        color: None,
        text_color: None,
    });
    skus
}

#[test]
fn guest_test_order_preprocess() {
    let user = guest_user();
    let mut draft = guest_draft(OrderType::StockOut, Some(vec![]));
    guest::preprocess(&mut draft, &user, 9);
    assert_eq!(draft.created_by_user_id, user.id);
    assert_eq!(draft.person_in_charge_id, 9);
    assert!(draft.items.is_none());
}

#[test]
fn guest_test_module() {
    let skus = guest_registry();
    let mut inv = Inventory::new();
    let mut orders = OrderStore::new();
    let mut guests = GuestOrderStore::new();
    let mut bus = EventBus::new();
    let now: i64 = 1000;

    let mut draft = guest_draft(OrderType::StockOut, Some(vec![guest_item(1, 5)]));
    let payload = guest_draft(OrderType::StockOut, Some(vec![guest_item(1, 5)]));
    guest::preprocess(&mut draft, &guest_user(), 9);

    let staged = guests.add("testing_changed", draft, now, &mut bus);
    assert!(staged.date > 0);
    assert!(staged.confirmed_date > 0);
    assert_eq!(staged.sub_token, "testing_changed");
    assert_eq!(staged.guest_order_status, GuestOrderStatus::Pending);

    // stock is empty: the stock-out draft cannot confirm, the guest
    // order stays pending and may be resubmitted
    let result = guest::confirm(
        &mut guests,
        staged.id,
        payload,
        now,
        &mut inv,
        &skus,
        &mut orders,
        &mut bus,
    )
    .unwrap();
    assert!(!result.check_result.items_not_available.is_empty());
    assert!(result.order.is_none());
    assert_eq!(
        guests.get(staged.id, now).unwrap().guest_order_status,
        GuestOrderStatus::Pending
    );

    // a calibration draft needs no stock and confirms
    let cal_payload = guest_draft(OrderType::Calibration, Some(vec![guest_item(1, 5)]));
    let mut cal = guest_draft(OrderType::Calibration, None);
    guest::preprocess(&mut cal, &guest_user(), 9);
    let cal_staged = guests.add("testing_changed", cal, now, &mut bus);
    let result = guest::confirm(
        &mut guests,
        cal_staged.id,
        cal_payload,
        now,
        &mut inv,
        &skus,
        &mut orders,
        &mut bus,
    )
    .unwrap();
    assert!(result.check_result.items_not_available.is_empty());
    let confirmed = result.order.unwrap();
    assert_eq!(confirmed.guest_order_status, GuestOrderStatus::Confirmed);
    assert!(confirmed.order_id > 0);
    assert_eq!(inv.get(5, 1).unwrap().quantity, 5);

    // with stock present the stock-out draft confirms and deducts
    let out_payload = guest_draft(OrderType::StockOut, Some(vec![guest_item(1, 3)]));
    let mut out = guest_draft(OrderType::StockOut, None);
    guest::preprocess(&mut out, &guest_user(), 9);
    let out_staged = guests.add("testing_changed", out, now, &mut bus);
    let result = guest::confirm(
        &mut guests,
        out_staged.id,
        out_payload,
        now,
        &mut inv,
        &skus,
        &mut orders,
        &mut bus,
    )
    .unwrap();
    assert!(result.check_result.items_not_available.is_empty());
    assert!(result.order.is_some());
    assert_eq!(inv.get(5, 1).unwrap().quantity, 2);

    // a record draft is stored for history but never touches stock
    let mut rec_payload = guest_draft(OrderType::StockOut, Some(vec![guest_item(1, 3)]));
    rec_payload.is_record = true;
    let mut rec = guest_draft(OrderType::StockOut, None);
    rec.is_record = true;
    guest::preprocess(&mut rec, &guest_user(), 9);
    let rec_staged = guests.add("testing_changed", rec, now, &mut bus);
    let result = guest::confirm(
        &mut guests,
        rec_staged.id,
        rec_payload,
        now,
        &mut inv,
        &skus,
        &mut orders,
        &mut bus,
    )
    .unwrap();
    assert!(result.check_result.items_not_available.is_empty());
    assert!(result.order.is_some());
    assert_eq!(inv.get(5, 1).unwrap().quantity, 2);

    // a confirmed guest order is terminal
    let again = guest::confirm(
        &mut guests,
        cal_staged.id,
        guest_draft(OrderType::Calibration, None),
        now,
        &mut inv,
        &skus,
        &mut orders,
        &mut bus,
    );
    assert_eq!(again.unwrap_err(), GuestConfirmError::GuestOrderConfirmed);

    // an unknown id is rejected
    let missing = guest::confirm(
        &mut guests,
        99999,
        guest_draft(OrderType::Calibration, None),
        now,
        &mut inv,
        &skus,
        &mut orders,
        &mut bus,
    );
    assert_eq!(missing.unwrap_err(), GuestConfirmError::OrderNotFound);
}

#[test]
fn test_guest_order_lazy_expiry() {
    let mut guests = GuestOrderStore::new();
    let mut bus = EventBus::new();
    let created: i64 = 1000;

    let mut draft = guest_draft(OrderType::StockOut, None);
    guest::preprocess(&mut draft, &guest_user(), 9);
    let staged = guests.add("tok", draft, created, &mut bus);

    // read before the time-to-live: still pending
    let at_limit = created + GUEST_ORDER_TTL_SECONDS;
    let read = guests.get(staged.id, at_limit).unwrap();
    assert_eq!(read.guest_order_status, GuestOrderStatus::Pending);

    // first read past the time-to-live flips it to Expired
    let late = created + GUEST_ORDER_TTL_SECONDS + 1;
    let read = guests.get(staged.id, late).unwrap();
    assert_eq!(read.guest_order_status, GuestOrderStatus::Expired);

    // and the flip is persisted: an early read now sees Expired too
    let read = guests.get(staged.id, created).unwrap();
    assert_eq!(read.guest_order_status, GuestOrderStatus::Expired);
}

#[test]
fn test_guest_order_expired_confirm_rejected() {
    let skus = guest_registry();
    let mut inv = Inventory::new();
    let mut orders = OrderStore::new();
    let mut guests = GuestOrderStore::new();
    let mut bus = EventBus::new();

    let mut draft = guest_draft(OrderType::Calibration, None);
    guest::preprocess(&mut draft, &guest_user(), 9);
    let staged = guests.add("tok", draft, 1000, &mut bus);

    let late = 1000 + GUEST_ORDER_TTL_SECONDS + 1;
    let r = guest::confirm(
        &mut guests,
        staged.id,
        guest_draft(OrderType::Calibration, Some(vec![guest_item(1, 5)])),
        late,
        &mut inv,
        &skus,
        &mut orders,
        &mut bus,
    );
    assert_eq!(r.unwrap_err(), GuestConfirmError::GuestOrderExpired);
    // nothing was persisted beyond the lazy expiry itself
    assert!(inv.all_rows().is_empty());
    assert_eq!(orders.count(), 0);
    assert_eq!(
        guests.get(staged.id, late).unwrap().guest_order_status,
        GuestOrderStatus::Expired
    );
}

#[test]
fn test_guest_order_remove() {
    let mut guests = GuestOrderStore::new();
    let mut bus = EventBus::new();
    let mut draft = guest_draft(OrderType::StockOut, None);
    guest::preprocess(&mut draft, &guest_user(), 9);
    let staged = guests.add("tok", draft, 1000, &mut bus);
    assert_eq!(guests.count(), 1);
    assert!(guests.remove(staged.id, false, &mut bus));
    assert_eq!(guests.count(), 0);
    assert!(!guests.remove(staged.id, false, &mut bus));
}

#[test]
fn test_confirmed_order_links_back() {
    let skus = guest_registry();
    let mut inv = Inventory::new();
    let mut orders = OrderStore::new();
    let mut guests = GuestOrderStore::new();
    let mut bus = EventBus::new();

    let mut draft = guest_draft(OrderType::Calibration, None);
    guest::preprocess(&mut draft, &guest_user(), 9);
    let staged = guests.add("tok", draft, 1000, &mut bus);
    let result = guest::confirm(
        &mut guests,
        staged.id,
        guest_draft(OrderType::Calibration, Some(vec![guest_item(1, 8)])),
        1000,
        &mut inv,
        &skus,
        &mut orders,
        &mut bus,
    )
    .unwrap();
    let confirmed = result.order.unwrap();
    let stored: &Order = orders.get(confirmed.order_id).unwrap();
    assert_eq!(stored.from_guest_order_id, staged.id);
    assert_eq!(stored.order_type, OrderType::Calibration);
    // a payment is owed: the order asks for one and its total is positive
    assert_eq!(stored.order_payment_status, OrderPaymentStatus::Unsettled);
    assert_eq!(inv.get(5, 1).unwrap().quantity, 8);
}
