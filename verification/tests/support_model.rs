use elerp_core::error::CustomErrorCode;
use elerp_core::i64_safe_max;
use elerp_core::inventory::vec_contains_i64;
use elerp_core::lifecycle::add_payment;
use elerp_core::lifecycle::calc_payment_status;
use elerp_core::lifecycle::calc_total_amount;
use elerp_core::lifecycle::get_standard_id;
use elerp_core::lifecycle::remove_payment;
use elerp_core::order::calc_quantity_by_order_type;
use elerp_core::order::Order;
use elerp_core::order::OrderCurrency;
use elerp_core::order::OrderItem;
use elerp_core::order::OrderPaymentStatus;
use elerp_core::order::OrderType;
use elerp_core::overlay::VirtualInventory;
use elerp_core::overlay::VirtualInventoryProduct;
use elerp_core::pagination::Pagination;
use elerp_core::user::ActionType;
use elerp_core::user::AuthenticatedUser;
use elerp_core::user::GetUsersQuery;
use elerp_core::user::UserInfo;
use elerp_core::user::UserType;
use elerp_core::user::ADD_ORDER;
use elerp_core::user::MANAGE_AREA;
use elerp_core::user::MANAGE_SKU;

fn plain_item(quantity: i64, exchanged: bool) -> OrderItem {
    OrderItem { sku_id: 1, quantity, price: 0, exchanged }
}

#[test]
fn test_calc_quantity_by_order_type() {
    let regular = plain_item(10, false);
    let returned = plain_item(10, true);

    assert_eq!(calc_quantity_by_order_type(5, &regular, OrderType::StockIn), 15);
    assert_eq!(calc_quantity_by_order_type(5, &returned, OrderType::StockIn), 5);
    assert_eq!(calc_quantity_by_order_type(5, &regular, OrderType::Return), 15);
    assert_eq!(calc_quantity_by_order_type(5, &regular, OrderType::StockOut), -5);
    assert_eq!(calc_quantity_by_order_type(5, &returned, OrderType::StockOut), 5);
    assert_eq!(calc_quantity_by_order_type(5, &regular, OrderType::Exchange), -5);
    assert_eq!(calc_quantity_by_order_type(5, &returned, OrderType::Exchange), 15);
    // calibration sets absolutely, whatever the prior value
    assert_eq!(calc_quantity_by_order_type(123456, &regular, OrderType::Calibration), 10);
    assert_eq!(calc_quantity_by_order_type(-3, &regular, OrderType::CalibrationStrict), 10);
    assert_eq!(calc_quantity_by_order_type(123456, &returned, OrderType::Calibration), 123456);
    assert_eq!(calc_quantity_by_order_type(7, &regular, OrderType::Verification), 7);
    assert_eq!(calc_quantity_by_order_type(7, &regular, OrderType::VerificationStrict), 7);
}

#[test]
fn test_calc_total_amount() {
    let items = vec![
        OrderItem { sku_id: 1, quantity: 100, price: 18, exchanged: false },
        OrderItem { sku_id: 2, quantity: 250, price: 10, exchanged: false },
        OrderItem { sku_id: 3, quantity: 9, price: 1000, exchanged: true },
    ];
    assert_eq!(calc_total_amount(&items), 4300);
    assert_eq!(calc_total_amount(&Vec::new()), 0);
}

#[test]
fn test_calc_payment_status() {
    assert_eq!(calc_payment_status(0, 100), OrderPaymentStatus::Unsettled);
    assert_eq!(calc_payment_status(-5, 100), OrderPaymentStatus::Unsettled);
    assert_eq!(calc_payment_status(1, 100), OrderPaymentStatus::PartialSettled);
    assert_eq!(calc_payment_status(99, 100), OrderPaymentStatus::PartialSettled);
    assert_eq!(calc_payment_status(100, 100), OrderPaymentStatus::Settled);
    assert_eq!(calc_payment_status(120, 100), OrderPaymentStatus::Settled);
}

fn payable_order() -> Order {
    Order {
        id: 10001,
        from_guest_order_id: 0,
        created_by_user_id: 0,
        updated_by_user_id: 0,
        warehouse_id: 5,
        currency: OrderCurrency::USD,
        total_amount: 1314,
        total_amount_settled: 0,
        order_payment_status: OrderPaymentStatus::Unsettled,
        person_related_id: 0,
        person_in_charge_id: 0,
        date: 10,
        last_updated_date: 10,
        description: String::new(),
        order_type: OrderType::StockOut,
        order_category_id: 1,
        is_record: false,
        non_payment: false,
        items: None,
    }
}

fn payment_of(amount: i64) -> elerp_core::lifecycle::OrderPayment {
    elerp_core::lifecycle::OrderPayment {
        id: 0,
        created_by_user_id: 1,
        person_in_charge_id: 1,
        warehouse_id: 5,
        order_id: 10001,
        total_amount: amount,
        creation_date: 100,
        actual_date: 100,
        remark: "HelloWorld".to_owned(),
    }
}

#[test]
fn test_payment_settlement() {
    let mut order = payable_order();
    add_payment(&mut order, &payment_of(314)).unwrap();
    assert_eq!(order.total_amount_settled, 314);
    assert_eq!(order.order_payment_status, OrderPaymentStatus::PartialSettled);

    add_payment(&mut order, &payment_of(1000)).unwrap();
    assert_eq!(order.total_amount_settled, 1314);
    assert_eq!(order.order_payment_status, OrderPaymentStatus::Settled);

    // a settled order takes no further payment
    let r = add_payment(&mut order, &payment_of(1));
    assert_eq!(r.unwrap_err(), CustomErrorCode::OrderPaymentSettled);
    assert_eq!(order.total_amount_settled, 1314);

    // removal applies the inverse arithmetic, symmetrically
    remove_payment(&mut order, &payment_of(1000));
    assert_eq!(order.total_amount_settled, 314);
    assert_eq!(order.order_payment_status, OrderPaymentStatus::PartialSettled);
    remove_payment(&mut order, &payment_of(314));
    assert_eq!(order.total_amount_settled, 0);
    assert_eq!(order.order_payment_status, OrderPaymentStatus::Unsettled);
}

#[test]
fn test_virtual_inventory_product() {
    let mut p = VirtualInventoryProduct::new(11, 40, 40);
    assert_eq!(p.quantity(), 40);
    assert_eq!(p.latest_quantity(), 40);
    assert_eq!(p.change(25), 25);
    // the working value moves, the persisted one stays
    assert_eq!(p.latest_quantity(), 25);
    assert_eq!(p.quantity(), 40);
    assert_eq!(p.sku_category_id, 11);
}

#[test]
fn test_virtual_inventory_caches_reads() {
    let mut store = elerp_core::inventory::Inventory::new();
    store.insert_row(elerp_core::inventory::InventoryProduct {
        warehouse_id: 5,
        sku_id: 1,
        sku_category_id: 11,
        quantity: 8,
    });
    let mut cache = VirtualInventory::new(4);

    let p = cache.get_or_load(5, 1, &store).unwrap();
    assert_eq!(p.quantity(), 8);
    assert_eq!(p.latest_quantity(), 8);
    cache.set_working(5, 1, 3);

    // the cached entry answers later reads, working value included,
    // and an absent row is cached as absent
    let p = cache.get_or_load(5, 1, &store).unwrap();
    assert_eq!(p.quantity(), 8);
    assert_eq!(p.latest_quantity(), 3);
    assert!(cache.get_or_load(5, 2, &store).is_none());
    assert!(cache.get_or_load(5, 2, &store).is_none());
}

#[test]
fn test_pagination() {
    let p = Pagination::new(3, 20);
    assert_eq!(p.offset(), 60);
    assert_eq!(p.limit(), 20);

    let p = Pagination::new_with_offset(7, 20);
    assert_eq!(p.offset(), 7);

    let p = Pagination::new(-4, -1).correct();
    assert_eq!(p.offset(), 0);
    assert_eq!(p.limit(), 0);

    let p = Pagination::max();
    assert_eq!(p.offset(), 0);
    assert_eq!(p.limit(), i64::MAX);

    let mut p = Pagination::new(-1, 100);
    assert_eq!(p.next().offset(), 0);
    assert_eq!(p.next().offset(), 100);
    assert!(p.contain(101));
    assert!(!p.contain(100));
    p.set_offset(5);
    assert_eq!(p.offset(), 5);
}

#[test]
fn test_standard_ids() {
    assert_eq!(get_standard_id(1), 10001);
    assert_eq!(get_standard_id(9), 10009);
    assert_eq!(i64_safe_max(), i64::MAX - 1);
}

fn general_user(permission: i64) -> AuthenticatedUser {
    AuthenticatedUser {
        user: UserInfo {
            id: 8,
            alias: "G".to_owned(),
            username: "g".to_owned(),
            password: "pw".to_owned(),
            user_type: UserType::General,
            permission,
            is_connected: true,
        },
        token: "tok".to_owned(),
    }
}

#[test]
fn test_permissions() {
    let admin = AuthenticatedUser {
        user: UserInfo {
            id: 1,
            alias: "A".to_owned(),
            username: "a".to_owned(),
            password: "pw".to_owned(),
            user_type: UserType::Admin,
            permission: 0,
            is_connected: true,
        },
        token: "tok".to_owned(),
    };
    assert!(admin.fail_if_not_admin().is_ok());
    assert!(admin.is_manage_area().is_ok());
    assert!(admin.is_add_order().is_ok());

    let clerk = general_user(MANAGE_AREA | ADD_ORDER);
    assert_eq!(clerk.fail_if_not_admin().unwrap_err(), CustomErrorCode::NoPermission);
    assert!(clerk.is_manage_area().is_ok());
    assert!(clerk.is_add_order().is_ok());
    assert_eq!(clerk.is_manage_sku().unwrap_err(), CustomErrorCode::NoPermission);
    assert_eq!(clerk.is_manage_person().unwrap_err(), CustomErrorCode::NoPermission);
    assert_eq!(clerk.is_manage_warehouse().unwrap_err(), CustomErrorCode::NoPermission);
    assert_eq!(clerk.is_manage_sku_category().unwrap_err(), CustomErrorCode::NoPermission);
    assert_eq!(clerk.is_manage_order_status().unwrap_err(), CustomErrorCode::NoPermission);
    assert_eq!(clerk.is_update_remove_order().unwrap_err(), CustomErrorCode::NoPermission);
    assert_eq!(clerk.is_add_order_payment().unwrap_err(), CustomErrorCode::NoPermission);
    assert_eq!(clerk.is_update_remove_order_payment().unwrap_err(), CustomErrorCode::NoPermission);
    assert!(general_user(MANAGE_SKU).is_manage_sku().is_ok());
}

#[test]
fn test_as_action_type() {
    let admin = UserInfo {
        id: 1,
        alias: "A".to_owned(),
        username: "a".to_owned(),
        password: "pw".to_owned(),
        user_type: UserType::Admin,
        permission: 0,
        is_connected: true,
    };
    assert_eq!(admin.as_action_type(false), ActionType::Admin);
    let mut g = admin.clone();
    g.user_type = UserType::General;
    g.id = 9;
    assert_eq!(g.as_action_type(true), ActionType::GeneralAllowed(9));
    assert_eq!(g.as_action_type(false), ActionType::General(9));
}

#[test]
fn emptpy() {
    let q = GetUsersQuery::emptpy();
    assert!(q.alias.is_none());
    assert!(q.username.is_none());
    assert!(q.user_type.is_none());
    assert!(q.sorters.is_none());
}

#[test]
fn test_vec_contains() {
    let v = vec![3i64, 5, 8];
    assert!(vec_contains_i64(&v, 5));
    assert!(!vec_contains_i64(&v, 4));
}
