//! The order lifecycle: the store of real orders (the replayable
//! history, kept in ascending date order), adding, removing and
//! updating orders, and the settlement arithmetic on their totals.

use vstd::prelude::*;

use crate::error::CustomErrorCode;
use crate::error::EngineError;
use crate::events::EventBus;
use crate::events::WebSocketFlags;
use crate::inventory::Inventory;
use crate::mutate::change;
use crate::mutate::change_base;
use crate::mutate::change_in_range;
use crate::mutate::skus_resolvable;
use crate::mutate::spec_change;
use crate::order::Order;
use crate::order::OrderItem;
use crate::order::OrderPaymentStatus;
use crate::order::OrderType;
use crate::recalc::recall;
use crate::recalc::recall_map;
use crate::recalc::recall_ok;
use crate::recalc::recall_pre;
use crate::sku::SkuRegistry;
use crate::user::ActionType;
use crate::user::UserInfo;

verus! {

/// First identifier the store hands out, one past the standard base.
pub const STANDARD_ID_NUM: i64 = 10000;

/// The standard id a creation index maps to.
pub fn get_standard_id(id: i64) -> (r: i64)
    requires
        id <= i64::MAX - STANDARD_ID_NUM,
    ensures
        r == STANDARD_ID_NUM + id,
{
    STANDARD_ID_NUM + id
}

/// The amount one item contributes to an order's total: nothing for an
/// exchanged leg, quantity times price otherwise.
pub open spec fn item_amount(it: OrderItem) -> int {
    if it.exchanged {
        0
    } else {
        it.quantity * it.price
    }
}

/// An order's total amount: the sum over its non-exchanged items.
pub open spec fn spec_total_amount(items: Seq<OrderItem>) -> int
    decreases items.len(),
{
    if items.len() == 0 {
        0
    } else {
        spec_total_amount(items.drop_last()) + item_amount(items.last())
    }
}

/// Every item amount and every partial total fits the machine integer.
pub open spec fn total_in_range(items: Seq<OrderItem>) -> bool
    decreases items.len(),
{
    if items.len() == 0 {
        true
    } else {
        &&& total_in_range(items.drop_last())
        &&& i64::MIN <= item_amount(items.last()) <= i64::MAX
        &&& i64::MIN <= spec_total_amount(items) <= i64::MAX
    }
}

proof fn lemma_total_in_range_prefix(items: Seq<OrderItem>, i: int)
    requires
        total_in_range(items),
        0 <= i <= items.len(),
    ensures
        total_in_range(items.take(i)),
    decreases items.len() - i,
{
    if i == items.len() {
        assert(items.take(i) == items);
    } else {
        lemma_total_in_range_prefix(items, i + 1);
        assert(items.take(i + 1).drop_last() == items.take(i));
    }
}

/// Sum the non-exchanged items' amounts.
pub fn calc_total_amount(items: &Vec<OrderItem>) -> (r: i64)
    requires
        total_in_range(items@),
    ensures
        r == spec_total_amount(items@),
{
    let ghost gitems = items@;
    let n = items.len();
    let mut total: i64 = 0;
    let mut i: usize = 0;
    proof {
        assert(gitems.take(0) =~= Seq::<OrderItem>::empty());
    }
    while i < n
        invariant
            gitems == items@,
            total_in_range(gitems),
            n == gitems.len(),
            i <= n,
            total == spec_total_amount(gitems.take(i as int)),
        decreases n - i,
    {
        proof {
            assert(gitems.take(i as int + 1).drop_last() == gitems.take(i as int));
            assert(gitems.take(i as int + 1).last() == gitems[i as int]);
            lemma_total_in_range_prefix(gitems, i as int + 1);
        }
        let item = items[i];
        if !item.exchanged {
            total = total + item.quantity * item.price;
        }
        i = i + 1;
    }
    proof {
        assert(gitems.take(n as int) == gitems);
    }
    total
}

/// The settlement status an order's totals imply once a payment is
/// involved: settled in full, in part, or not at all.
pub open spec fn spec_payment_status(settled: int, total: int) -> OrderPaymentStatus {
    if settled >= total {
        OrderPaymentStatus::Settled
    } else if settled > 0 {
        OrderPaymentStatus::PartialSettled
    } else {
        OrderPaymentStatus::Unsettled
    }
}

pub fn calc_payment_status(total_amount_settled: i64, total_amount: i64) -> (r: OrderPaymentStatus)
    ensures
        r == spec_payment_status(total_amount_settled as int, total_amount as int),
{
    if total_amount_settled >= total_amount {
        OrderPaymentStatus::Settled
    } else if total_amount_settled > 0 {
        OrderPaymentStatus::PartialSettled
    } else {
        OrderPaymentStatus::Unsettled
    }
}

/// One payment row against an order.
#[derive(Clone, Debug)]
pub struct OrderPayment {
    pub id: i64,
    pub created_by_user_id: i64,
    pub person_in_charge_id: i64,
    pub warehouse_id: i64,
    pub order_id: i64,
    pub total_amount: i64,
    pub creation_date: i64,
    pub actual_date: i64,
    pub remark: String,
}

/// Book one payment against an order.  A settled order takes no
/// further payment; otherwise the settled total grows and the status is
/// recomputed from the totals.
pub fn add_payment(order: &mut Order, payment: &OrderPayment) -> (r: Result<(), CustomErrorCode>)
    requires
        i64::MIN <= old(order).total_amount_settled + payment.total_amount <= i64::MAX,
    ensures
        r is Ok <==> old(order).order_payment_status != OrderPaymentStatus::Settled,
        r is Err ==> *final(order) == *old(order) && r == Result::<(), CustomErrorCode>::Err(
            CustomErrorCode::OrderPaymentSettled,
        ),
        r is Ok ==> *final(order) == (Order {
            total_amount_settled: (old(order).total_amount_settled + payment.total_amount) as i64,
            order_payment_status: spec_payment_status(
                old(order).total_amount_settled + payment.total_amount,
                old(order).total_amount as int,
            ),
            ..*old(order)
        }),
{
    if order.order_payment_status == OrderPaymentStatus::Settled {
        return Result::Err(CustomErrorCode::OrderPaymentSettled);
    }
    order.total_amount_settled = order.total_amount_settled + payment.total_amount;
    order.order_payment_status = calc_payment_status(order.total_amount_settled, order.total_amount);
    Result::Ok(())
}

/// Remove one payment from an order: the inverse arithmetic of
/// `add_payment`, with the status recomputed symmetrically.
pub fn remove_payment(order: &mut Order, payment: &OrderPayment)
    requires
        i64::MIN <= old(order).total_amount_settled - payment.total_amount <= i64::MAX,
    ensures
        *final(order) == (Order {
            total_amount_settled: (old(order).total_amount_settled - payment.total_amount) as i64,
            order_payment_status: spec_payment_status(
                old(order).total_amount_settled - payment.total_amount,
                old(order).total_amount as int,
            ),
            ..*old(order)
        }),
{
    order.total_amount_settled = order.total_amount_settled - payment.total_amount;
    order.order_payment_status = calc_payment_status(order.total_amount_settled, order.total_amount);
}

/// Whether preprocessing keeps an item: delta order types demand a
/// positive quantity, only Exchange keeps exchanged legs, and the sku
/// must be set.
pub open spec fn spec_keep_item(it: OrderItem, order_type: OrderType) -> bool {
    &&& (match order_type {
        OrderType::StockIn | OrderType::StockOut | OrderType::Return => it.quantity > 0,
        _ => true,
    })
    &&& (order_type == OrderType::Exchange || !it.exchanged)
    &&& it.sku_id > 0
}

/// The items preprocessing keeps, in order.
pub open spec fn spec_filter_items(items: Seq<OrderItem>, order_type: OrderType) -> Seq<OrderItem>
    decreases items.len(),
{
    if items.len() == 0 {
        Seq::empty()
    } else {
        let pre = spec_filter_items(items.drop_last(), order_type);
        if spec_keep_item(items.last(), order_type) {
            pre.push(items.last())
        } else {
            pre
        }
    }
}

fn filter_items(items: &Vec<OrderItem>, order_type: OrderType) -> (r: Vec<OrderItem>)
    ensures
        r@ == spec_filter_items(items@, order_type),
{
    let ghost gitems = items@;
    let n = items.len();
    let mut out: Vec<OrderItem> = Vec::new();
    let mut i: usize = 0;
    proof {
        assert(gitems.take(0) =~= Seq::<OrderItem>::empty());
        assert(out@ =~= spec_filter_items(gitems.take(0), order_type));
    }
    while i < n
        invariant
            gitems == items@,
            n == gitems.len(),
            i <= n,
            out@ == spec_filter_items(gitems.take(i as int), order_type),
        decreases n - i,
    {
        proof {
            assert(gitems.take(i as int + 1).drop_last() == gitems.take(i as int));
            assert(gitems.take(i as int + 1).last() == gitems[i as int]);
        }
        let item = items[i];
        let pass_quantity = match order_type {
            OrderType::StockIn | OrderType::StockOut | OrderType::Return => item.quantity > 0,
            _ => true,
        };
        let pass_exchange = if order_type != OrderType::Exchange {
            !item.exchanged
        } else {
            true
        };
        if pass_quantity && pass_exchange && item.sku_id > 0 {
            out.push(item);
        }
        i = i + 1;
    }
    proof {
        assert(gitems.take(n as int) == gitems);
    }
    out
}

/// Normalise an order before it is checked or stored: drop the items
/// the filter rejects, recompute the total, stamp the user and the
/// clock, and derive the initial payment status from the totals.
pub fn preprocess(
    order: &mut Order,
    user: &UserInfo,
    initial: bool,
    person_in_charge_id: i64,
    now: i64,
)
    requires
        match old(order).items {
            Option::Some(v) => total_in_range(
                spec_filter_items(v@, old(order).order_type),
            ),
            Option::None => true,
        },
    ensures
        ({
            let o = *final(order);
            let total = match old(order).items {
                Option::Some(v) => spec_total_amount(
                    spec_filter_items(v@, old(order).order_type),
                ),
                Option::None => 0,
            };
            &&& (match (old(order).items, o.items) {
                (Option::Some(v), Option::Some(w)) => w@ == spec_filter_items(
                    v@,
                    old(order).order_type,
                ),
                (Option::None, Option::None) => true,
                _ => false,
            })
            &&& o.total_amount == total
            &&& o.total_amount_settled == 0
            &&& o.updated_by_user_id == user.id
            &&& o.last_updated_date == now
            &&& o.person_in_charge_id == person_in_charge_id
            &&& o.from_guest_order_id == 0
            &&& o.created_by_user_id == if initial {
                user.id
            } else {
                old(order).created_by_user_id
            }
            &&& o.date == if initial {
                now
            } else {
                old(order).date
            }
            &&& o.order_payment_status == if !o.non_payment && total > 0 {
                OrderPaymentStatus::Unsettled
            } else {
                OrderPaymentStatus::NotRequired
            }
            &&& o.id == old(order).id
            &&& o.warehouse_id == old(order).warehouse_id
            &&& o.currency == old(order).currency
            &&& o.person_related_id == old(order).person_related_id
            &&& o.description == old(order).description
            &&& o.order_type == old(order).order_type
            &&& o.order_category_id == old(order).order_category_id
            &&& o.is_record == old(order).is_record
            &&& o.non_payment == old(order).non_payment
        }),
{
    let kept: Option<Vec<OrderItem>> = match &order.items {
        Option::Some(v) => Option::Some(filter_items(v, order.order_type)),
        Option::None => Option::None,
    };
    order.items = kept;
    order.total_amount = match &order.items {
        Option::Some(v) => calc_total_amount(v),
        Option::None => 0,
    };
    order.updated_by_user_id = user.id;
    if initial {
        order.date = now;
        order.created_by_user_id = user.id;
    }
    order.last_updated_date = now;
    order.person_in_charge_id = person_in_charge_id;
    order.from_guest_order_id = 0;
    order.total_amount_settled = 0;
    order.order_payment_status = if !order.non_payment && order.total_amount > 0 {
        OrderPaymentStatus::Unsettled
    } else {
        OrderPaymentStatus::NotRequired
    };
}

/// Item lists equal in content.
pub open spec fn same_items(a: Option<Vec<OrderItem>>, b: Option<Vec<OrderItem>>) -> bool {
    match (a, b) {
        (Option::Some(x), Option::Some(y)) => x@ == y@,
        (Option::None, Option::None) => true,
        _ => false,
    }
}

/// Orders equal in every field, items compared by content.
pub open spec fn same_order(a: Order, b: Order) -> bool {
    &&& a.id == b.id
    &&& a.from_guest_order_id == b.from_guest_order_id
    &&& a.created_by_user_id == b.created_by_user_id
    &&& a.updated_by_user_id == b.updated_by_user_id
    &&& a.warehouse_id == b.warehouse_id
    &&& a.currency == b.currency
    &&& a.total_amount == b.total_amount
    &&& a.total_amount_settled == b.total_amount_settled
    &&& a.order_payment_status == b.order_payment_status
    &&& a.person_related_id == b.person_related_id
    &&& a.person_in_charge_id == b.person_in_charge_id
    &&& a.date == b.date
    &&& a.last_updated_date == b.last_updated_date
    &&& a.description == b.description
    &&& a.order_type == b.order_type
    &&& a.order_category_id == b.order_category_id
    &&& a.is_record == b.is_record
    &&& a.non_payment == b.non_payment
    &&& same_items(a.items, b.items)
}

fn copy_items(v: &Vec<OrderItem>) -> (r: Vec<OrderItem>)
    ensures
        r@ == v@,
{
    let n = v.len();
    let mut out: Vec<OrderItem> = Vec::new();
    let mut i: usize = 0;
    while i < n
        invariant
            n == v@.len(),
            i <= n,
            out@ == v@.take(i as int),
        decreases n - i,
    {
        out.push(v[i]);
        proof {
            assert(out@ =~= v@.take(i as int + 1));
        }
        i = i + 1;
    }
    proof {
        assert(v@.take(n as int) == v@);
    }
    out
}

/// The greatest id a history holds, or the standard base for an empty
/// one.
pub open spec fn max_id(orders: Seq<Order>) -> int
    decreases orders.len(),
{
    if orders.len() == 0 {
        STANDARD_ID_NUM as int
    } else {
        let pre = max_id(orders.drop_last());
        if orders.last().id as int > pre {
            orders.last().id as int
        } else {
            pre
        }
    }
}

/// The id the next stored order takes.
pub open spec fn spec_next_id(orders: Seq<Order>) -> int {
    max_id(orders) + 1
}

/// Where an order of the given date lands in a date-sorted history:
/// after every order dated at or before it.
pub open spec fn insert_pos(orders: Seq<Order>, date: i64) -> int
    decreases orders.len(),
{
    if orders.len() == 0 {
        0
    } else if orders.last().date <= date {
        orders.len() as int
    } else {
        insert_pos(orders.drop_last(), date)
    }
}

proof fn lemma_insert_pos_bounds(orders: Seq<Order>, date: i64)
    ensures
        0 <= insert_pos(orders, date) <= orders.len(),
    decreases orders.len(),
{
    if orders.len() > 0 && orders.last().date > date {
        lemma_insert_pos_bounds(orders.drop_last(), date);
    }
}

proof fn lemma_insert_pos_split(orders: Seq<Order>, date: i64)
    requires
        forall|a: int, b: int|
            0 <= a < b < orders.len() ==> (#[trigger] orders[a]).date <= (#[trigger] orders[b]).date,
    ensures
        0 <= insert_pos(orders, date) <= orders.len(),
        forall|j: int| 0 <= j < insert_pos(orders, date) ==> (#[trigger] orders[j]).date <= date,
        forall|j: int|
            insert_pos(orders, date) <= j < orders.len() ==> (#[trigger] orders[j]).date > date,
    decreases orders.len(),
{
    lemma_insert_pos_bounds(orders, date);
    if orders.len() > 0 {
        if orders.last().date <= date {
            assert forall|j: int| 0 <= j < orders.len() implies (#[trigger] orders[j]).date
                <= date by {
                if j < orders.len() - 1 {
                    assert(orders[j].date <= orders[orders.len() - 1].date);
                }
            }
        } else {
            assert forall|a: int, b: int|
                0 <= a < b < orders.drop_last().len() implies (
            #[trigger] orders.drop_last()[a]).date <= (#[trigger] orders.drop_last()[b]).date by {
                assert(orders.drop_last()[a] == orders[a]);
                assert(orders.drop_last()[b] == orders[b]);
            }
            lemma_insert_pos_split(orders.drop_last(), date);
            assert forall|j: int|
                insert_pos(orders, date) <= j < orders.len() implies (
            #[trigger] orders[j]).date > date by {
                if j < orders.len() - 1 {
                    assert(orders.drop_last()[j] == orders[j]);
                }
            }
            assert forall|j: int| 0 <= j < insert_pos(orders, date) implies (
            #[trigger] orders[j]).date <= date by {
                assert(orders.drop_last()[j] == orders[j]);
            }
        }
    }
}

/// The last position in a history holding the given order id, if any;
/// ids are unique, so it is the only one.
pub open spec fn find_order(orders: Seq<Order>, id: i64) -> Option<int>
    decreases orders.len(),
{
    if orders.len() == 0 {
        Option::None
    } else if orders.last().id == id {
        Option::Some(orders.len() - 1)
    } else {
        find_order(orders.drop_last(), id)
    }
}

proof fn lemma_find_order(orders: Seq<Order>, id: i64)
    ensures
        match find_order(orders, id) {
            Option::Some(i) => 0 <= i < orders.len() && orders[i].id == id,
            Option::None => forall|j: int| 0 <= j < orders.len() ==> (#[trigger] orders[j]).id != id,
        },
    decreases orders.len(),
{
    if orders.len() > 0 && orders.last().id != id {
        lemma_find_order(orders.drop_last(), id);
        match find_order(orders.drop_last(), id) {
            Option::Some(i) => {
                assert(orders.drop_last()[i] == orders[i]);
            },
            Option::None => {
                assert forall|j: int| 0 <= j < orders.len() implies (#[trigger] orders[j]).id
                    != id by {
                    if j < orders.len() - 1 {
                        assert(orders.drop_last()[j] == orders[j]);
                    }
                }
            },
        }
    }
}

/// The store of real orders: the full replayable history, kept in
/// ascending date order with unique ids.
#[derive(Clone, Debug)]
pub struct OrderStore {
    orders: Vec<Order>,
}

impl View for OrderStore {
    type V = Seq<Order>;

    closed spec fn view(&self) -> Seq<Order> {
        self.orders@
    }
}

impl OrderStore {
    /// Invariant: unique in-range ids, dates ascending.
    pub open spec fn wf(&self) -> bool {
        &&& forall|a: int, b: int|
            0 <= a < b < self@.len() ==> (#[trigger] self@[a]).id != (#[trigger] self@[b]).id
        &&& forall|i: int|
            0 <= i < self@.len() ==> STANDARD_ID_NUM < (#[trigger] self@[i]).id < i64::MAX
        &&& forall|a: int, b: int|
            0 <= a < b < self@.len() ==> (#[trigger] self@[a]).date <= (#[trigger] self@[b]).date
    }

    pub fn new() -> (r: Self)
        ensures
            r.wf(),
            r@ == Seq::<Order>::empty(),
    {
        OrderStore { orders: Vec::new() }
    }

    /// The history, oldest date first.
    pub fn orders(&self) -> (r: &Vec<Order>)
        ensures
            r@ == self@,
    {
        &self.orders
    }

    pub fn count(&self) -> (r: usize)
        ensures
            r == self@.len(),
    {
        self.orders.len()
    }

    /// Whether an order with the id is stored.
    pub fn is_exists(&self, id: i64) -> (r: bool)
        ensures
            r == (find_order(self@, id) is Some),
    {
        proof {
            lemma_find_order(self@, id);
        }
        let n = self.orders.len();
        let mut i: usize = 0;
        while i < n
            invariant
                n == self@.len(),
                i <= n,
                forall|j: int| 0 <= j < i ==> (#[trigger] self@[j]).id != id,
            decreases n - i,
        {
            if self.orders[i].id == id {
                proof {
                    if find_order(self@, id) is None {
                        lemma_find_order(self@, id);
                    }
                }
                return true;
            }
            i = i + 1;
        }
        false
    }

    /// The stored order under the id, if any.
    pub fn get(&self, id: i64) -> (r: Option<&Order>)
        requires
            self.wf(),
        ensures
            match r {
                Option::Some(o) => find_order(self@, id) matches Option::Some(i) && *o == self@[i],
                Option::None => find_order(self@, id) is None,
            },
    {
        proof {
            lemma_find_order(self@, id);
        }
        let n = self.orders.len();
        let mut i: usize = 0;
        while i < n
            invariant
                self.wf(),
                n == self@.len(),
                i <= n,
                forall|j: int| 0 <= j < i ==> (#[trigger] self@[j]).id != id,
            decreases n - i,
        {
            if self.orders[i].id == id {
                proof {
                    lemma_find_order(self@, id);
                    let fi = find_order(self@, id)->0;
                    if fi != i as int {
                        assert(self@[fi].id == id);
                        assert(false);
                    }
                }
                return Option::Some(&self.orders[i]);
            }
            i = i + 1;
        }
        Option::None
    }

    /// The settlement status of a stored order.
    pub fn get_order_payment_status(&self, id: i64) -> (r: Option<OrderPaymentStatus>)
        requires
            self.wf(),
        ensures
            match find_order(self@, id) {
                Option::Some(i) => r == Option::Some(self@[i].order_payment_status),
                Option::None => r is None,
            },
    {
        match self.get(id) {
            Option::Some(o) => Option::Some(o.order_payment_status),
            Option::None => Option::None,
        }
    }

    /// Whether a stored order was created from a guest order.
    pub fn is_from_guest_order(&self, id: i64) -> (r: bool)
        requires
            self.wf(),
        ensures
            r == (match find_order(self@, id) {
                Option::Some(i) => self@[i].from_guest_order_id > 0,
                Option::None => false,
            }),
    {
        match self.get(id) {
            Option::Some(o) => o.from_guest_order_id > 0,
            Option::None => false,
        }
    }

    fn next_id(&self) -> (r: i64)
        requires
            self.wf(),
            spec_next_id(self@) <= i64::MAX,
        ensures
            r == spec_next_id(self@),
    {
        let ghost gorders = self@;
        let n = self.orders.len();
        let mut cur: i64 = STANDARD_ID_NUM;
        let mut i: usize = 0;
        proof {
            assert(gorders.take(0) =~= Seq::<Order>::empty());
        }
        while i < n
            invariant
                self.wf(),
                gorders == self@,
                n == gorders.len(),
                i <= n,
                cur as int == max_id(gorders.take(i as int)),
                cur <= i64::MAX - 1,
            decreases n - i,
        {
            proof {
                assert(gorders.take(i as int + 1).drop_last() == gorders.take(i as int));
                assert(gorders.take(i as int + 1).last() == gorders[i as int]);
                lemma_max_id_le(gorders, i as int + 1);
            }
            let o_id = self.orders[i].id;
            if o_id > cur {
                cur = o_id;
            }
            i = i + 1;
        }
        proof {
            assert(gorders.take(n as int) == gorders);
        }
        cur + 1
    }

    fn insert_sorted(&mut self, o: Order)
        requires
            old(self).wf(),
            STANDARD_ID_NUM < o.id < i64::MAX,
            forall|j: int| 0 <= j < old(self)@.len() ==> (#[trigger] old(self)@[j]).id != o.id,
        ensures
            final(self).wf(),
            final(self)@ == old(self)@.insert(insert_pos(old(self)@, o.date), o),
    {
        let ghost gorders = self@;
        let n = self.orders.len();
        let mut i: usize = n;
        proof {
            assert(gorders.take(n as int) == gorders);
        }
        while i > 0 && self.orders[i - 1].date > o.date
            invariant
                gorders == self@,
                n == gorders.len(),
                i <= n,
                insert_pos(gorders, o.date) == insert_pos(gorders.take(i as int), o.date),
                forall|j: int| i <= j < n ==> (#[trigger] gorders[j]).date > o.date,
            decreases i,
        {
            proof {
                assert(gorders.take(i as int).drop_last() == gorders.take(i as int - 1));
                assert(gorders.take(i as int).last() == gorders[i as int - 1]);
            }
            i = i - 1;
        }
        proof {
            lemma_insert_pos_bounds(gorders.take(i as int), o.date);
            if i > 0 {
                assert(gorders.take(i as int).last() == gorders[i as int - 1]);
                assert(insert_pos(gorders.take(i as int), o.date) == i as int);
            } else {
                assert(gorders.take(0) =~= Seq::<Order>::empty());
            }
            assert(insert_pos(gorders, o.date) == i as int);
            lemma_insert_pos_split(gorders, o.date);
            gorders.insert_ensures(i as int, o);
        }
        self.orders.insert(i, o);
        proof {
            let ns = self@;
            assert(ns == gorders.insert(i as int, o));
            assert forall|a: int, b: int| 0 <= a < b < ns.len() implies (#[trigger] ns[a]).id != (
            #[trigger] ns[b]).id by {
                lemma_insert_index_facts(gorders, i as int, o, a);
                lemma_insert_index_facts(gorders, i as int, o, b);
            }
            assert forall|t: int| 0 <= t < ns.len() implies STANDARD_ID_NUM < (
            #[trigger] ns[t]).id < i64::MAX by {
                lemma_insert_index_facts(gorders, i as int, o, t);
            }
            assert forall|a: int, b: int| 0 <= a < b < ns.len() implies (#[trigger] ns[a]).date <= (
            #[trigger] ns[b]).date by {
                lemma_insert_index_facts(gorders, i as int, o, a);
                lemma_insert_index_facts(gorders, i as int, o, b);
            }
        }
    }
}

proof fn lemma_max_id_ge(orders: Seq<Order>, j: int)
    requires
        0 <= j < orders.len(),
    ensures
        orders[j].id as int <= max_id(orders),
    decreases orders.len(),
{
    if j == orders.len() - 1 {
    } else {
        lemma_max_id_ge(orders.drop_last(), j);
        assert(orders.drop_last()[j] == orders[j]);
    }
}

pub proof fn lemma_max_id_lower(orders: Seq<Order>)
    ensures
        max_id(orders) >= STANDARD_ID_NUM,
    decreases orders.len(),
{
    if orders.len() > 0 {
        lemma_max_id_lower(orders.drop_last());
    }
}

proof fn lemma_max_id_le(orders: Seq<Order>, i: int)
    requires
        0 <= i <= orders.len(),
    ensures
        max_id(orders.take(i)) <= max_id(orders),
    decreases orders.len() - i,
{
    if i == orders.len() {
        assert(orders.take(i) == orders);
    } else {
        lemma_max_id_le(orders, i + 1);
        assert(orders.take(i + 1).drop_last() == orders.take(i));
    }
}

proof fn lemma_insert_index_facts(orders: Seq<Order>, pos: int, o: Order, t: int)
    requires
        0 <= pos <= orders.len(),
        0 <= t < orders.len() + 1,
    ensures
        orders.insert(pos, o)[t] == if t < pos {
            orders[t]
        } else if t == pos {
            o
        } else {
            orders[t - 1]
        },
{
    orders.insert_ensures(pos, o);
}

/// The inventory effect adding an order commits: nothing for a record
/// order or one without items, the full mutation otherwise.
pub open spec fn add_inventory_map(
    order: Order,
    m: Map<(int, int), (int, int)>,
    cats: Map<int, int>,
) -> Map<(int, int), (int, int)> {
    match order.items {
        Option::Some(v) => if !order.is_record {
            spec_change(m, cats, order.warehouse_id, v@, order.order_type)
        } else {
            m
        },
        Option::None => m,
    }
}

/// When adding an order succeeds: always, unless the mutation meets an
/// unknown sku.
pub open spec fn add_ok(order: Order, cats: Map<int, int>) -> bool {
    match order.items {
        Option::Some(v) => order.is_record || skus_resolvable(v@, cats, order.order_type),
        Option::None => true,
    }
}

/// The machine bounds adding an order needs.
pub open spec fn add_pre(
    order: Order,
    m: Map<(int, int), (int, int)>,
    cats: Map<int, int>,
) -> bool {
    match order.items {
        Option::Some(v) => {
            &&& (!order.is_record ==> change_in_range(
                change_base(m, order.warehouse_id, order.order_type),
                cats,
                order.warehouse_id as int,
                v@,
                order.order_type,
            ))
            &&& total_in_range(v@)
        },
        Option::None => true,
    }
}

/// The history grew by exactly one stored order equal in content to
/// `expected`, filed at its date position.
pub open spec fn appended_order(prev: Seq<Order>, cur: Seq<Order>, expected: Order) -> bool {
    exists|so: Order|
        #[trigger] same_order(so, expected) && cur == prev.insert(
            insert_pos(prev, expected.date),
            so,
        )
}

/// The payment status a freshly added order starts in, derived from
/// the totals alone: a payment is owed exactly when the order asks for
/// one and its total is positive.
pub open spec fn spec_add_status(order: Order, total: int) -> OrderPaymentStatus {
    if !order.non_payment && total > 0 {
        OrderPaymentStatus::Unsettled
    } else {
        OrderPaymentStatus::NotRequired
    }
}

/// Store a preprocessed order: commit its inventory deltas (unless it
/// is a record order), compute its total, assign its id, file it into
/// the history and publish the event.  A fatal mutation error leaves
/// every store untouched.
pub fn add(
    order: Order,
    inventory: &mut Inventory,
    skus: &SkuRegistry,
    orders: &mut OrderStore,
    bus: &mut EventBus,
) -> (r: Result<Order, EngineError>)
    requires
        old(inventory).wf(),
        skus.wf(),
        old(orders).wf(),
        spec_next_id(old(orders)@) < i64::MAX,
        add_pre(order, old(inventory)@, skus@),
    ensures
        final(inventory).wf(),
        final(orders).wf(),
        r is Ok <==> add_ok(order, skus@),
        r is Err ==> *final(inventory) == *old(inventory) && *final(orders) == *old(orders)
            && *final(bus) == *old(bus) && r == Result::<Order, EngineError>::Err(
            EngineError::SkuNotFound,
        ),
        r matches Ok(ro) ==> ({
            let total = match order.items {
                Option::Some(v) => spec_total_amount(v@),
                Option::None => 0,
            };
            &&& final(inventory)@ == add_inventory_map(order, old(inventory)@, skus@)
            &&& ro.id == spec_next_id(old(orders)@)
            &&& ro.total_amount == total
            &&& ro.total_amount_settled == 0
            &&& ro.order_payment_status == spec_add_status(order, total)
            &&& same_order(
                ro,
                Order {
                    id: ro.id,
                    total_amount: ro.total_amount,
                    total_amount_settled: 0,
                    order_payment_status: ro.order_payment_status,
                    ..order
                },
            )
            &&& appended_order(
                old(orders)@,
                final(orders)@,
                Order {
                    id: ro.id,
                    total_amount: ro.total_amount,
                    total_amount_settled: 0,
                    order_payment_status: ro.order_payment_status,
                    ..order
                },
            )
            &&& final(bus)@ == old(bus)@.push(WebSocketFlags::AddOrder(ro.id))
        }),
{
    let total: i64 = match &order.items {
        Option::Some(items) => {
            if !order.is_record {
                match change(inventory, skus, order.warehouse_id, items, order.order_type) {
                    Result::Ok(()) => {},
                    Result::Err(e) => {
                        return Result::Err(e);
                    },
                }
            }
            calc_total_amount(items)
        },
        Option::None => 0,
    };
    let status = if !order.non_payment && total > 0 {
        OrderPaymentStatus::Unsettled
    } else {
        OrderPaymentStatus::NotRequired
    };
    let nid = orders.next_id();
    let items_copy: Option<Vec<OrderItem>> = match &order.items {
        Option::Some(v) => Option::Some(copy_items(v)),
        Option::None => Option::None,
    };
    let desc_copy = order.description.clone();
    let stored = Order {
        id: nid,
        from_guest_order_id: order.from_guest_order_id,
        created_by_user_id: order.created_by_user_id,
        updated_by_user_id: order.updated_by_user_id,
        warehouse_id: order.warehouse_id,
        currency: order.currency,
        total_amount: total,
        total_amount_settled: 0,
        order_payment_status: status,
        person_related_id: order.person_related_id,
        person_in_charge_id: order.person_in_charge_id,
        date: order.date,
        last_updated_date: order.last_updated_date,
        description: desc_copy,
        order_type: order.order_type,
        order_category_id: order.order_category_id,
        is_record: order.is_record,
        non_payment: order.non_payment,
        items: items_copy,
    };
    let ghost gstored = stored;
    proof {
        assert forall|j: int| 0 <= j < orders@.len() implies (#[trigger] orders@[j]).id
            != gstored.id by {
            lemma_max_id_ge(orders@, j);
        }
    }
    orders.insert_sorted(stored);
    bus.notice(WebSocketFlags::AddOrder(nid));
    let result = Order {
        id: nid,
        total_amount: total,
        total_amount_settled: 0,
        order_payment_status: status,
        ..order
    };
    proof {
        assert(same_order(gstored, result));
        assert(same_order(
            gstored,
            Order {
                id: nid,
                total_amount: total,
                total_amount_settled: 0,
                order_payment_status: status,
                ..order
            },
        ));
        assert(appended_order(
            old(orders)@,
            orders@,
            Order {
                id: nid,
                total_amount: total,
                total_amount_settled: 0,
                order_payment_status: status,
                ..order
            },
        ));
    }
    Result::Ok(result)
}

/// Whether the order passes the availability check against the store.
pub fn is_check_pass(order: &Order, store: &Inventory) -> (r: bool)
    requires
        store.wf(),
        crate::check::check_pre(*order),
    ensures
        r == (crate::check::spec_check_full(*order, *store).len() == 0),
{
    let result = crate::check::check(order, true, store);
    proof {
        assert(result@.len() == result.items_not_available@.len());
    }
    result.items_not_available.is_empty()
}

/// Remove one order: reverse its inventory effect (unless told not to,
/// or superseded by a later calibration), drop it from the history and
/// publish the event.  A fatal reversal error leaves every store
/// untouched.  The returned flag reports whether any item line was
/// dropped with the order, so an order stored without items yields
/// `false` even though its row is gone.
pub fn remove(
    id: i64,
    do_recall: bool,
    notice: bool,
    inventory: &mut Inventory,
    skus: &SkuRegistry,
    orders: &mut OrderStore,
    bus: &mut EventBus,
) -> (r: Result<bool, EngineError>)
    requires
        old(inventory).wf(),
        skus.wf(),
        old(orders).wf(),
        match find_order(old(orders)@, id) {
            Option::Some(i) => do_recall ==> recall_pre(
                old(orders)@[i],
                old(inventory)@,
                skus@,
                old(orders)@,
            ),
            Option::None => true,
        },
    ensures
        final(inventory).wf(),
        final(orders).wf(),
        find_order(old(orders)@, id) is None ==> r == Result::<bool, EngineError>::Ok(false)
            && *final(inventory) == *old(inventory) && *final(orders) == *old(orders) && *final(bus)
            == *old(bus),
        find_order(old(orders)@, id) matches Option::Some(i) ==> {
            &&& (r is Ok <==> (!do_recall || recall_ok(old(orders)@[i], skus@, old(orders)@)))
            &&& r is Ok ==> ({
                let after_recall = if do_recall && crate::recalc::recall_publishes(
                    old(orders)@[i],
                    old(orders)@,
                ) {
                    old(bus)@.push(WebSocketFlags::RecalcOrders)
                } else {
                    old(bus)@
                };
                r == Result::<bool, EngineError>::Ok(
                    crate::recalc::items_of(old(orders)@[i]).len() > 0,
                ) && final(orders)@ == old(orders)@.remove(i) && final(inventory)@ == (
                if do_recall {
                    recall_map(old(orders)@[i], old(inventory)@, skus@, old(orders)@)
                } else {
                    old(inventory)@
                }) && final(bus)@ == (if notice {
                    after_recall.push(WebSocketFlags::RemoveOrder(id))
                } else {
                    after_recall
                })
            })
            &&& r is Err ==> *final(inventory) == *old(inventory) && *final(orders) == *old(orders)
                && *final(bus) == *old(bus) && r == Result::<bool, EngineError>::Err(
                EngineError::SkuNotFound,
            )
        },
{
    proof {
        lemma_find_order(orders@, id);
    }
    let n = orders.orders.len();
    let mut i: usize = 0;
    while i < n
        invariant
            *orders == *old(orders),
            *inventory == *old(inventory),
            *bus == *old(bus),
            old(orders).wf(),
            old(inventory).wf(),
            skus.wf(),
            match find_order(old(orders)@, id) {
                Option::Some(fi) => do_recall ==> recall_pre(
                    old(orders)@[fi],
                    old(inventory)@,
                    skus@,
                    old(orders)@,
                ),
                Option::None => true,
            },
            n == orders@.len(),
            i <= n,
            forall|j: int| 0 <= j < i ==> (#[trigger] orders@[j]).id != id,
        decreases n - i,
    {
        if orders.orders[i].id == id {
            proof {
                lemma_find_order(orders@, id);
                let fi = find_order(orders@, id)->0;
                if fi != i as int {
                    assert(orders@[fi].id == id);
                    assert(false);
                }
            }
            if do_recall {
                match recall(&orders.orders[i], inventory, skus, &orders.orders, bus) {
                    Result::Ok(_) => {},
                    Result::Err(e) => {
                        return Result::Err(e);
                    },
                }
            }
            let removed = self_remove(orders, i);
            let had_items = match &removed.items {
                Option::Some(v) => v.len() > 0,
                Option::None => false,
            };
            if notice {
                bus.notice(WebSocketFlags::RemoveOrder(id));
            }
            return Result::Ok(had_items);
        }
        i = i + 1;
    }
    proof {
        lemma_find_order(orders@, id);
    }
    Result::Ok(false)
}

fn self_remove(orders: &mut OrderStore, i: usize) -> (r: Order)
    requires
        old(orders).wf(),
        i < old(orders)@.len(),
    ensures
        final(orders).wf(),
        final(orders)@ == old(orders)@.remove(i as int),
        r == old(orders)@[i as int],
{
    let r = orders.orders.remove(i);
    proof {
        let ns = orders@;
        let os = old(orders)@;
        assert forall|a: int, b: int| 0 <= a < b < ns.len() implies (#[trigger] ns[a]).id != (
        #[trigger] ns[b]).id && (#[trigger] ns[a]).date <= (#[trigger] ns[b]).date by {
            assert(ns[a] == if a < i as int {
                os[a]
            } else {
                os[a + 1]
            });
            assert(ns[b] == if b < i as int {
                os[b]
            } else {
                os[b + 1]
            });
        }
        assert forall|t: int| 0 <= t < ns.len() implies STANDARD_ID_NUM < (#[trigger] ns[t]).id
            < i64::MAX by {
            assert(ns[t] == if t < i as int {
                os[t]
            } else {
                os[t + 1]
            });
        }
    }
    r
}

/// The stored order after an update, per the action type: a general
/// user edits the descriptive header, an admin may also move the date,
/// the system may also rewrite the settlement fields.
pub open spec fn merge_update(stored: Order, v: Order, action: ActionType) -> Order {
    match action {
        ActionType::General(_) | ActionType::GeneralAllowed(_) => Order {
            updated_by_user_id: v.updated_by_user_id,
            last_updated_date: v.last_updated_date,
            person_related_id: v.person_related_id,
            person_in_charge_id: v.person_in_charge_id,
            description: v.description,
            currency: v.currency,
            order_category_id: v.order_category_id,
            ..stored
        },
        ActionType::Admin => Order {
            updated_by_user_id: v.updated_by_user_id,
            last_updated_date: v.last_updated_date,
            date: v.date,
            person_related_id: v.person_related_id,
            person_in_charge_id: v.person_in_charge_id,
            description: v.description,
            currency: v.currency,
            order_category_id: v.order_category_id,
            ..stored
        },
        ActionType::System => Order {
            date: v.date,
            person_related_id: v.person_related_id,
            person_in_charge_id: v.person_in_charge_id,
            description: v.description,
            currency: v.currency,
            order_category_id: v.order_category_id,
            total_amount_settled: v.total_amount_settled,
            order_payment_status: v.order_payment_status,
            ..stored
        },
    }
}

/// Update a stored order's header fields per the action type.  The
/// item list and the inventory are never touched; the edited order is
/// refiled by date.  Yields the input with the id set, or nothing when
/// the id is unknown.
pub fn update(
    id: i64,
    v: Order,
    action: ActionType,
    orders: &mut OrderStore,
    bus: &mut EventBus,
) -> (r: Option<Order>)
    requires
        old(orders).wf(),
    ensures
        final(orders).wf(),
        find_order(old(orders)@, id) is None ==> r is None && *final(orders) == *old(orders)
            && *final(bus) == *old(bus),
        find_order(old(orders)@, id) matches Option::Some(i) ==> ({
            let merged = merge_update(old(orders)@[i], Order { id, ..v }, action);
            &&& (r matches Option::Some(ro) && same_order(ro, Order { id, ..v }))
            &&& exists|so: Order|
                #[trigger] same_order(so, merged) && final(orders)@ == old(orders)@.remove(
                    i,
                ).insert(insert_pos(old(orders)@.remove(i), merged.date), so)
            &&& final(bus)@ == old(bus)@.push(WebSocketFlags::UpdateOrder(id))
        }),
{
    proof {
        lemma_find_order(orders@, id);
    }
    let n = orders.orders.len();
    let mut i: usize = 0;
    while i < n
        invariant
            *orders == *old(orders),
            *bus == *old(bus),
            old(orders).wf(),
            n == orders@.len(),
            i <= n,
            forall|j: int| 0 <= j < i ==> (#[trigger] orders@[j]).id != id,
        decreases n - i,
    {
        if orders.orders[i].id == id {
            proof {
                lemma_find_order(orders@, id);
                let fi = find_order(orders@, id)->0;
                if fi != i as int {
                    assert(orders@[fi].id == id);
                    assert(false);
                }
            }
            let stored = self_remove(orders, i);
            let merged = apply_update(stored, &v, id, action);
            let ghost gmerged = merged;
            proof {
                assert(forall|j: int|
                    0 <= j < orders@.len() ==> (#[trigger] orders@[j]).id != id);
            }
            orders.insert_sorted(merged);
            bus.notice(WebSocketFlags::UpdateOrder(id));
            let result = Order { id, ..v };
            proof {
                assert(same_order(result, Order { id, ..v }));
            }
            return Option::Some(result);
        }
        i = i + 1;
    }
    proof {
        lemma_find_order(orders@, id);
    }
    Option::None
}

fn apply_update(stored: Order, v: &Order, id: i64, action: ActionType) -> (r: Order)
    ensures
        same_order(r, merge_update(stored, Order { id, ..*v }, action)),
        r.id == stored.id,
        r.date == (match action {
            ActionType::General(_) | ActionType::GeneralAllowed(_) => stored.date,
            _ => v.date,
        }),
{
    let desc = v.description.clone();
    match action {
        ActionType::General(_) | ActionType::GeneralAllowed(_) => Order {
            updated_by_user_id: v.updated_by_user_id,
            last_updated_date: v.last_updated_date,
            person_related_id: v.person_related_id,
            person_in_charge_id: v.person_in_charge_id,
            description: desc,
            currency: v.currency,
            order_category_id: v.order_category_id,
            ..stored
        },
        ActionType::Admin => Order {
            updated_by_user_id: v.updated_by_user_id,
            last_updated_date: v.last_updated_date,
            date: v.date,
            person_related_id: v.person_related_id,
            person_in_charge_id: v.person_in_charge_id,
            description: desc,
            currency: v.currency,
            order_category_id: v.order_category_id,
            ..stored
        },
        ActionType::System => Order {
            date: v.date,
            person_related_id: v.person_related_id,
            person_in_charge_id: v.person_in_charge_id,
            description: desc,
            currency: v.currency,
            order_category_id: v.order_category_id,
            total_amount_settled: v.total_amount_settled,
            order_payment_status: v.order_payment_status,
            ..stored
        },
    }
}

} // verus!
