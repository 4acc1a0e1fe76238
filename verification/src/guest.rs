//! Guest orders: staged drafts behind a per-submission token, confirmed
//! into real orders or lazily expired.
//!
//! A pending guest order that is read after its time-to-live has passed
//! flips to Expired on that read and is persisted as such; Confirmed
//! and Expired are terminal.  Confirmation checks the merged draft in
//! full, persists nothing when items are unavailable, and otherwise
//! stores the real order and marks the guest order confirmed.

use vstd::prelude::*;

use crate::check::check;
use crate::check::check_pre;
use crate::check::spec_check_full;
use crate::check::CheckOrderResult;
use crate::error::EngineError;
use crate::error::GuestConfirmError;
use crate::events::EventBus;
use crate::events::WebSocketFlags;
use crate::inventory::Inventory;
use crate::lifecycle::add_inventory_map;
use crate::lifecycle::add_ok;
use crate::lifecycle::add_pre;
use crate::lifecycle::same_order;
use crate::lifecycle::spec_add_status;
use crate::lifecycle::spec_next_id;
use crate::lifecycle::spec_total_amount;
use crate::lifecycle::OrderStore;
use crate::lifecycle::STANDARD_ID_NUM;
use crate::order::Order;
use crate::order::OrderCurrency;
use crate::order::OrderItem;
use crate::order::OrderPaymentStatus;
use crate::order::OrderType;
use crate::sku::SkuRegistry;
use crate::user::UserInfo;

verus! {

/// How long a pending guest order stays confirmable, in seconds.
pub const GUEST_ORDER_TTL_SECONDS: i64 = 28800;

#[derive(Clone, Copy, Debug, PartialEq, Eq, Structural)]
pub enum GuestOrderStatus {
    Confirmed,
    Pending,
    Expired,
}

impl Default for GuestOrderStatus {
    fn default() -> (r: Self)
        ensures
            r == GuestOrderStatus::Pending,
    {
        GuestOrderStatus::Pending
    }
}

/// A staged draft order behind a submission token.
#[derive(Clone, Debug)]
pub struct GuestOrder {
    pub id: i64,
    pub created_by_user_id: i64,
    pub person_in_charge_id: i64,
    pub date: i64,
    pub confirmed_date: i64,
    pub sub_token: String,
    pub currency: OrderCurrency,
    pub warehouse_id: i64,
    pub person_related_id: i64,
    pub description: String,
    pub order_type: OrderType,
    pub is_record: bool,
    pub non_payment: bool,
    pub guest_order_status: GuestOrderStatus,
    pub order_id: i64,
    pub order_category_id: i64,
    pub items: Option<Vec<OrderItem>>,
}

/// What a confirmation attempt yields: the check outcome and, on
/// success, the confirmed guest order.
#[derive(Clone, Debug)]
pub struct GuestOrderConfirm {
    pub check_result: CheckOrderResult,
    pub order: Option<GuestOrder>,
}

/// Normalise a staged draft before it is stored: stamp its creator and
/// the person in charge, and drop any submitted items — items arrive
/// only with the confirmation payload.
pub fn preprocess(order: &mut GuestOrder, user: &UserInfo, person_in_charge_id: i64)
    ensures
        *final(order) == (GuestOrder {
            created_by_user_id: user.id,
            person_in_charge_id,
            items: Option::None,
            ..*old(order)
        }),
{
    order.created_by_user_id = user.id;
    order.person_in_charge_id = person_in_charge_id;
    order.items = Option::None;
}

/// The real order a guest order confirms into, given the payload's
/// description and items and the confirmation time.
pub open spec fn spec_draft(
    g: GuestOrder,
    description: String,
    items: Option<Vec<OrderItem>>,
    now: i64,
) -> Order {
    Order {
        id: 0,
        from_guest_order_id: g.id,
        created_by_user_id: g.created_by_user_id,
        updated_by_user_id: g.created_by_user_id,
        warehouse_id: g.warehouse_id,
        currency: g.currency,
        total_amount: 0,
        total_amount_settled: 0,
        order_payment_status: OrderPaymentStatus::NotRequired,
        person_related_id: g.person_related_id,
        person_in_charge_id: g.person_in_charge_id,
        date: now,
        last_updated_date: now,
        description: description,
        order_type: g.order_type,
        order_category_id: g.order_category_id,
        is_record: g.is_record,
        non_payment: g.non_payment,
        items: items,
    }
}

/// The last position holding the given guest order id, if any.
pub open spec fn find_guest(orders: Seq<GuestOrder>, id: i64) -> Option<int>
    decreases orders.len(),
{
    if orders.len() == 0 {
        Option::None
    } else if orders.last().id == id {
        Option::Some(orders.len() - 1)
    } else {
        find_guest(orders.drop_last(), id)
    }
}

proof fn lemma_find_guest(orders: Seq<GuestOrder>, id: i64)
    ensures
        match find_guest(orders, id) {
            Option::Some(i) => 0 <= i < orders.len() && orders[i].id == id,
            Option::None => forall|j: int| 0 <= j < orders.len() ==> (#[trigger] orders[j]).id != id,
        },
    decreases orders.len(),
{
    if orders.len() > 0 && orders.last().id != id {
        lemma_find_guest(orders.drop_last(), id);
        match find_guest(orders.drop_last(), id) {
            Option::Some(i) => {
                assert(orders.drop_last()[i] == orders[i]);
            },
            Option::None => {
                assert forall|j: int| 0 <= j < orders.len() implies (#[trigger] orders[j]).id
                    != id by {
                    if j < orders.len() - 1 {
                        assert(orders.drop_last()[j] == orders[j]);
                    }
                }
            },
        }
    }
}

/// The greatest guest order id stored, or the standard base.
pub open spec fn max_guest_id(orders: Seq<GuestOrder>) -> int
    decreases orders.len(),
{
    if orders.len() == 0 {
        STANDARD_ID_NUM as int
    } else {
        let pre = max_guest_id(orders.drop_last());
        if orders.last().id as int > pre {
            orders.last().id as int
        } else {
            pre
        }
    }
}

/// The id the next stored guest order takes.
pub open spec fn spec_next_guest_id(orders: Seq<GuestOrder>) -> int {
    max_guest_id(orders) + 1
}

proof fn lemma_max_guest_id_ge(orders: Seq<GuestOrder>, j: int)
    requires
        0 <= j < orders.len(),
    ensures
        orders[j].id as int <= max_guest_id(orders),
    decreases orders.len(),
{
    if j < orders.len() - 1 {
        lemma_max_guest_id_ge(orders.drop_last(), j);
        assert(orders.drop_last()[j] == orders[j]);
    }
}

/// Whether the read of a pending guest order at the given time flips
/// it to Expired.
pub open spec fn expires_at(g: GuestOrder, now: i64) -> bool {
    g.guest_order_status == GuestOrderStatus::Pending && now > g.date + GUEST_ORDER_TTL_SECONDS
}

/// What a read returns for a stored guest order: the stored fields with
/// the lazily-evaluated status, the items never included.
pub open spec fn read_view(g: GuestOrder, now: i64) -> GuestOrder {
    GuestOrder {
        guest_order_status: if expires_at(g, now) {
            GuestOrderStatus::Expired
        } else {
            g.guest_order_status
        },
        items: Option::None,
        ..g
    }
}

/// The store of staged guest orders.
#[derive(Clone, Debug)]
pub struct GuestOrderStore {
    orders: Vec<GuestOrder>,
}

impl View for GuestOrderStore {
    type V = Seq<GuestOrder>;

    closed spec fn view(&self) -> Seq<GuestOrder> {
        self.orders@
    }
}

impl GuestOrderStore {
    /// Invariant: unique in-range ids, and dates that leave room for
    /// the time-to-live arithmetic.
    pub open spec fn wf(&self) -> bool {
        &&& forall|a: int, b: int|
            0 <= a < b < self@.len() ==> (#[trigger] self@[a]).id != (#[trigger] self@[b]).id
        &&& forall|i: int|
            0 <= i < self@.len() ==> STANDARD_ID_NUM < (#[trigger] self@[i]).id < i64::MAX && 0 <= (
            #[trigger] self@[i]).date <= i64::MAX - GUEST_ORDER_TTL_SECONDS
    }

    pub fn new() -> (r: Self)
        ensures
            r.wf(),
            r@ == Seq::<GuestOrder>::empty(),
    {
        GuestOrderStore { orders: Vec::new() }
    }

    pub fn count(&self) -> (r: usize)
        ensures
            r == self@.len(),
    {
        self.orders.len()
    }

    fn next_id(&self) -> (r: i64)
        requires
            self.wf(),
            spec_next_guest_id(self@) <= i64::MAX,
        ensures
            r == spec_next_guest_id(self@),
    {
        let ghost gorders = self@;
        let n = self.orders.len();
        let mut cur: i64 = STANDARD_ID_NUM;
        let mut i: usize = 0;
        proof {
            assert(gorders.take(0) =~= Seq::<GuestOrder>::empty());
        }
        while i < n
            invariant
                self.wf(),
                gorders == self@,
                n == gorders.len(),
                i <= n,
                cur as int == max_guest_id(gorders.take(i as int)),
                cur <= i64::MAX - 1,
            decreases n - i,
        {
            proof {
                assert(gorders.take(i as int + 1).drop_last() == gorders.take(i as int));
                assert(gorders.take(i as int + 1).last() == gorders[i as int]);
                lemma_max_guest_take_le(gorders, i as int + 1);
            }
            let o_id = self.orders[i].id;
            if o_id > cur {
                cur = o_id;
            }
            i = i + 1;
        }
        proof {
            assert(gorders.take(n as int) == gorders);
        }
        cur + 1
    }

    /// Stage a draft: stamp the clock and the token, mark it Pending,
    /// assign its id, store it and publish the event.  Yields the
    /// staged order as stored.
    pub fn add(&mut self, sub_token: &str, order: GuestOrder, now: i64, bus: &mut EventBus) -> (r:
        GuestOrder)
        requires
            old(self).wf(),
            spec_next_guest_id(old(self)@) < i64::MAX,
            0 <= now <= i64::MAX - GUEST_ORDER_TTL_SECONDS,
        ensures
            final(self).wf(),
            r.id == spec_next_guest_id(old(self)@),
            r.date == now,
            r.confirmed_date == now,
            r.sub_token@ == sub_token@,
            r.guest_order_status == GuestOrderStatus::Pending,
            r.created_by_user_id == order.created_by_user_id,
            r.person_in_charge_id == order.person_in_charge_id,
            r.currency == order.currency,
            r.warehouse_id == order.warehouse_id,
            r.person_related_id == order.person_related_id,
            r.description == order.description,
            r.order_type == order.order_type,
            r.is_record == order.is_record,
            r.non_payment == order.non_payment,
            r.order_id == order.order_id,
            r.order_category_id == order.order_category_id,
            same_guest_items(r.items, order.items),
            exists|so: GuestOrder|
                #[trigger] same_guest(so, r) && final(self)@ == old(self)@.push(so),
            final(bus)@ == old(bus)@.push(WebSocketFlags::AddGuestOrder(r.id)),
    {
        let nid = self.next_id();
        proof {
            assert forall|j: int| 0 <= j < self@.len() implies (#[trigger] self@[j]).id != nid by {
                lemma_max_guest_id_ge(self@, j);
            }
        }
        let items_copy: Option<Vec<OrderItem>> = match &order.items {
            Option::Some(v) => Option::Some(copy_guest_items(v)),
            Option::None => Option::None,
        };
        let desc_copy = order.description.clone();
        let stored = GuestOrder {
            id: nid,
            date: now,
            confirmed_date: now,
            sub_token: sub_token.to_owned(),
            guest_order_status: GuestOrderStatus::Pending,
            created_by_user_id: order.created_by_user_id,
            person_in_charge_id: order.person_in_charge_id,
            currency: order.currency,
            warehouse_id: order.warehouse_id,
            person_related_id: order.person_related_id,
            description: desc_copy,
            order_type: order.order_type,
            is_record: order.is_record,
            non_payment: order.non_payment,
            order_id: order.order_id,
            order_category_id: order.order_category_id,
            items: items_copy,
        };
        let ghost gstored = stored;
        self.orders.push(stored);
        bus.notice(WebSocketFlags::AddGuestOrder(nid));
        let result = GuestOrder {
            id: nid,
            date: now,
            confirmed_date: now,
            sub_token: sub_token.to_owned(),
            guest_order_status: GuestOrderStatus::Pending,
            ..order
        };
        proof {
            assert(same_guest(gstored, result));
        }
        result
    }

    /// Read a guest order; a pending one past its time-to-live flips to
    /// Expired on this read and is persisted as such.  The returned
    /// value never carries items.
    pub fn get(&mut self, id: i64, now: i64) -> (r: Option<GuestOrder>)
        requires
            old(self).wf(),
        ensures
            final(self).wf(),
            match find_guest(old(self)@, id) {
                Option::Some(i) => {
                    &&& (expires_at(old(self)@[i], now) ==> final(self)@ == old(self)@.update(
                        i,
                        GuestOrder {
                            guest_order_status: GuestOrderStatus::Expired,
                            ..old(self)@[i]
                        },
                    ))
                    &&& (!expires_at(old(self)@[i], now) ==> *final(self) == *old(self))
                    &&& (r matches Some(ro) && ro == read_view(old(self)@[i], now))
                },
                Option::None => r is None && *final(self) == *old(self),
            },
    {
        proof {
            lemma_find_guest(self@, id);
        }
        let n = self.orders.len();
        let mut i: usize = 0;
        while i < n
            invariant
                *self == *old(self),
                old(self).wf(),
                n == self@.len(),
                i <= n,
                forall|j: int| 0 <= j < i ==> (#[trigger] self@[j]).id != id,
            decreases n - i,
        {
            if self.orders[i].id == id {
                proof {
                    lemma_find_guest(self@, id);
                    let fi = find_guest(self@, id)->0;
                    if fi != i as int {
                        assert(self@[fi].id == id);
                        assert(false);
                    }
                }
                let expired = self.orders[i].guest_order_status == GuestOrderStatus::Pending
                    && now > self.orders[i].date + GUEST_ORDER_TTL_SECONDS;
                if expired {
                    let e = &mut self.orders[i];
                    e.guest_order_status = GuestOrderStatus::Expired;
                }
                let r = read_back(&self.orders[i]);
                proof {
                    assert forall|a: int, b: int|
                        0 <= a < b < self@.len() implies (#[trigger] self@[a]).id != (
                    #[trigger] self@[b]).id by {
                        assert(a != i as int ==> self@[a] == old(self)@[a]);
                        assert(b != i as int ==> self@[b] == old(self)@[b]);
                        assert(self@[a].id == old(self)@[a].id);
                        assert(self@[b].id == old(self)@[b].id);
                    }
                    assert forall|t: int|
                        0 <= t < self@.len() implies STANDARD_ID_NUM < (#[trigger] self@[t]).id
                        < i64::MAX && 0 <= self@[t].date <= i64::MAX - GUEST_ORDER_TTL_SECONDS by {
                        assert(self@[t].id == old(self)@[t].id);
                        assert(self@[t].date == old(self)@[t].date);
                    }
                    if !expired {
                        assert(*self == *old(self));
                    } else {
                        assert(self@ =~= old(self)@.update(
                            i as int,
                            GuestOrder {
                                guest_order_status: GuestOrderStatus::Expired,
                                ..old(self)@[i as int]
                            },
                        ));
                    }
                }
                return Option::Some(r);
            }
            i = i + 1;
        }
        proof {
            lemma_find_guest(self@, id);
        }
        Option::None
    }

    /// Whether a guest order with the id is stored.
    pub fn is_exists(&self, id: i64) -> (r: bool)
        requires
            self.wf(),
        ensures
            r == (find_guest(self@, id) is Some),
    {
        self.find_index(id).is_some()
    }

    /// The stored status, as last persisted; no lazy expiry runs here.
    pub fn get_status(&self, id: i64) -> (r: Option<GuestOrderStatus>)
        requires
            self.wf(),
        ensures
            match find_guest(self@, id) {
                Option::Some(i) => r == Option::Some(self@[i].guest_order_status),
                Option::None => r is None,
            },
    {
        match self.find_index(id) {
            Option::Some(i) => {
                proof {
                    lemma_find_guest(self@, id);
                }
                Option::Some(self.orders[i].guest_order_status)
            },
            Option::None => Option::None,
        }
    }

    /// The id of the real order a confirmation linked, zero before one.
    pub fn get_order_id(&self, id: i64) -> (r: Option<i64>)
        requires
            self.wf(),
        ensures
            match find_guest(self@, id) {
                Option::Some(i) => r == Option::Some(self@[i].order_id),
                Option::None => r is None,
            },
    {
        match self.find_index(id) {
            Option::Some(i) => {
                proof {
                    lemma_find_guest(self@, id);
                }
                Option::Some(self.orders[i].order_id)
            },
            Option::None => Option::None,
        }
    }

    fn find_index(&self, id: i64) -> (r: Option<usize>)
        requires
            self.wf(),
        ensures
            match r {
                Option::Some(i) => find_guest(self@, id) == Option::Some(i as int),
                Option::None => find_guest(self@, id) is None,
            },
    {
        proof {
            lemma_find_guest(self@, id);
        }
        let n = self.orders.len();
        let mut i: usize = 0;
        while i < n
            invariant
                self.wf(),
                n == self@.len(),
                i <= n,
                forall|j: int| 0 <= j < i ==> (#[trigger] self@[j]).id != id,
            decreases n - i,
        {
            if self.orders[i].id == id {
                proof {
                    lemma_find_guest(self@, id);
                    let fi = find_guest(self@, id)->0;
                    if fi != i as int {
                        assert(self@[fi].id == id);
                        assert(false);
                    }
                }
                return Option::Some(i);
            }
            i = i + 1;
        }
        proof {
            lemma_find_guest(self@, id);
        }
        Option::None
    }

    /// Mark a stored guest order confirmed: link the real order's id
    /// and stamp the confirmation time.  Yields the stored token.
    fn confirm_mark(&mut self, id: i64, order_id: i64, now: i64) -> (tok: String)
        requires
            old(self).wf(),
            find_guest(old(self)@, id) is Some,
        ensures
            final(self).wf(),
            ({
                let i = find_guest(old(self)@, id)->0;
                final(self)@ == old(self)@.update(
                    i,
                    GuestOrder {
                        order_id,
                        guest_order_status: GuestOrderStatus::Confirmed,
                        confirmed_date: now,
                        ..old(self)@[i]
                    },
                ) && tok == old(self)@[i].sub_token
            }),
    {
        proof {
            lemma_find_guest(self@, id);
        }
        let n = self.orders.len();
        let mut i: usize = 0;
        while i < n
            invariant
                *self == *old(self),
                old(self).wf(),
                find_guest(old(self)@, id) is Some,
                n == self@.len(),
                i <= n,
                forall|j: int| 0 <= j < i ==> (#[trigger] self@[j]).id != id,
            decreases n - i,
        {
            if self.orders[i].id == id {
                proof {
                    lemma_find_guest(self@, id);
                    let fi = find_guest(self@, id)->0;
                    if fi != i as int {
                        assert(self@[fi].id == id);
                        assert(false);
                    }
                }
                let tok = self.orders[i].sub_token.clone();
                let e = &mut self.orders[i];
                e.order_id = order_id;
                e.guest_order_status = GuestOrderStatus::Confirmed;
                e.confirmed_date = now;
                proof {
                    assert(self@ =~= old(self)@.update(
                        i as int,
                        GuestOrder {
                            order_id,
                            guest_order_status: GuestOrderStatus::Confirmed,
                            confirmed_date: now,
                            ..old(self)@[i as int]
                        },
                    ));
                    assert forall|a: int, b: int|
                        0 <= a < b < self@.len() implies (#[trigger] self@[a]).id != (
                    #[trigger] self@[b]).id by {
                        assert(self@[a].id == old(self)@[a].id);
                        assert(self@[b].id == old(self)@[b].id);
                    }
                    assert forall|t: int|
                        0 <= t < self@.len() implies STANDARD_ID_NUM < (#[trigger] self@[t]).id
                        < i64::MAX && 0 <= self@[t].date <= i64::MAX - GUEST_ORDER_TTL_SECONDS by {
                        assert(self@[t].id == old(self)@[t].id);
                        assert(self@[t].date == old(self)@[t].date);
                    }
                }
                return tok;
            }
            i = i + 1;
        }
        proof {
            lemma_find_guest(self@, id);
            assert(false);
        }
        String::new()
    }

    /// Drop a guest order; reports whether one was there.
    pub fn remove(&mut self, id: i64, notice: bool, bus: &mut EventBus) -> (r: bool)
        requires
            old(self).wf(),
        ensures
            final(self).wf(),
            r == (find_guest(old(self)@, id) is Some),
            match find_guest(old(self)@, id) {
                Option::Some(i) => final(self)@ == old(self)@.remove(i) && final(bus)@ == (
                if notice {
                    old(bus)@.push(WebSocketFlags::RemoveGuestOrder(id))
                } else {
                    old(bus)@
                }),
                Option::None => *final(self) == *old(self) && *final(bus) == *old(bus),
            },
    {
        proof {
            lemma_find_guest(self@, id);
        }
        let n = self.orders.len();
        let mut i: usize = 0;
        while i < n
            invariant
                *self == *old(self),
                *bus == *old(bus),
                old(self).wf(),
                n == self@.len(),
                i <= n,
                forall|j: int| 0 <= j < i ==> (#[trigger] self@[j]).id != id,
            decreases n - i,
        {
            if self.orders[i].id == id {
                proof {
                    lemma_find_guest(self@, id);
                    let fi = find_guest(self@, id)->0;
                    if fi != i as int {
                        assert(self@[fi].id == id);
                        assert(false);
                    }
                }
                let _removed = self.orders.remove(i);
                if notice {
                    bus.notice(WebSocketFlags::RemoveGuestOrder(id));
                }
                proof {
                    let ns = self@;
                    let os = old(self)@;
                    assert forall|a: int, b: int|
                        0 <= a < b < ns.len() implies (#[trigger] ns[a]).id != (
                    #[trigger] ns[b]).id by {
                        assert(ns[a] == if a < i as int {
                            os[a]
                        } else {
                            os[a + 1]
                        });
                        assert(ns[b] == if b < i as int {
                            os[b]
                        } else {
                            os[b + 1]
                        });
                    }
                    assert forall|t: int|
                        0 <= t < ns.len() implies STANDARD_ID_NUM < (#[trigger] ns[t]).id
                        < i64::MAX && 0 <= ns[t].date <= i64::MAX - GUEST_ORDER_TTL_SECONDS by {
                        assert(ns[t] == if t < i as int {
                            os[t]
                        } else {
                            os[t + 1]
                        });
                    }
                }
                return true;
            }
            i = i + 1;
        }
        proof {
            lemma_find_guest(self@, id);
        }
        false
    }
}

proof fn lemma_max_guest_take_le(orders: Seq<GuestOrder>, i: int)
    requires
        0 <= i <= orders.len(),
    ensures
        max_guest_id(orders.take(i)) <= max_guest_id(orders),
    decreases orders.len() - i,
{
    if i == orders.len() {
        assert(orders.take(i) == orders);
    } else {
        lemma_max_guest_take_le(orders, i + 1);
        assert(orders.take(i + 1).drop_last() == orders.take(i));
    }
}

/// Guest orders equal in content: every field, strings and item lists
/// compared by what they hold.
pub open spec fn same_guest(a: GuestOrder, b: GuestOrder) -> bool {
    &&& a.id == b.id
    &&& a.created_by_user_id == b.created_by_user_id
    &&& a.person_in_charge_id == b.person_in_charge_id
    &&& a.date == b.date
    &&& a.confirmed_date == b.confirmed_date
    &&& a.sub_token@ == b.sub_token@
    &&& a.currency == b.currency
    &&& a.warehouse_id == b.warehouse_id
    &&& a.person_related_id == b.person_related_id
    &&& a.description@ == b.description@
    &&& a.order_type == b.order_type
    &&& a.is_record == b.is_record
    &&& a.non_payment == b.non_payment
    &&& a.guest_order_status == b.guest_order_status
    &&& a.order_id == b.order_id
    &&& a.order_category_id == b.order_category_id
    &&& same_guest_items(a.items, b.items)
}

/// Guest item lists equal in content.
pub open spec fn same_guest_items(a: Option<Vec<OrderItem>>, b: Option<Vec<OrderItem>>) -> bool {
    match (a, b) {
        (Option::Some(x), Option::Some(y)) => x@ == y@,
        (Option::None, Option::None) => true,
        _ => false,
    }
}

fn copy_guest_items(v: &Vec<OrderItem>) -> (r: Vec<OrderItem>)
    ensures
        r@ == v@,
{
    let n = v.len();
    let mut out: Vec<OrderItem> = Vec::new();
    let mut i: usize = 0;
    while i < n
        invariant
            n == v@.len(),
            i <= n,
            out@ == v@.take(i as int),
        decreases n - i,
    {
        out.push(v[i]);
        proof {
            assert(out@ =~= v@.take(i as int + 1));
        }
        i = i + 1;
    }
    proof {
        assert(v@.take(n as int) == v@);
    }
    out
}

/// Confirm a pending guest order into a real order, atomically: merge
/// the payload's description and items into the staged draft, run the
/// full availability check, and only if every item is available store
/// the real order, mark the guest order Confirmed and link the new
/// order's id.  An unavailable draft changes nothing and may be
/// resubmitted; a terminal guest order is rejected with the matching
/// error.
#[verifier::rlimit(100)]
#[verifier::spinoff_prover]
pub fn confirm(
    guests: &mut GuestOrderStore,
    id: i64,
    v: GuestOrder,
    now: i64,
    inventory: &mut Inventory,
    skus: &SkuRegistry,
    orders: &mut OrderStore,
    bus: &mut EventBus,
) -> (r: Result<GuestOrderConfirm, GuestConfirmError>)
    requires
        old(guests).wf(),
        old(inventory).wf(),
        skus.wf(),
        old(orders).wf(),
        spec_next_id(old(orders)@) < i64::MAX,
        match find_guest(old(guests)@, id) {
            Option::Some(i) => ({
                let draft = spec_draft(old(guests)@[i], v.description, v.items, now);
                check_pre(draft) && (spec_check_full(draft, *old(inventory)).len() == 0
                    ==> add_pre(draft, old(inventory)@, skus@))
            }),
            Option::None => true,
        },
    ensures
        final(guests).wf(),
        final(inventory).wf(),
        final(orders).wf(),
        match find_guest(old(guests)@, id) {
            Option::None => r == Result::<GuestOrderConfirm, GuestConfirmError>::Err(
                GuestConfirmError::OrderNotFound,
            ) && *final(guests) == *old(guests) && *final(inventory) == *old(inventory)
                && *final(orders) == *old(orders) && *final(bus) == *old(bus),
            Option::Some(i) => ({
                let g = old(guests)@[i];
                if g.guest_order_status == GuestOrderStatus::Confirmed {
                    r == Result::<GuestOrderConfirm, GuestConfirmError>::Err(
                        GuestConfirmError::GuestOrderConfirmed,
                    ) && *final(guests) == *old(guests) && *final(inventory) == *old(inventory)
                        && *final(orders) == *old(orders) && *final(bus) == *old(bus)
                } else if g.guest_order_status == GuestOrderStatus::Expired || expires_at(g, now) {
                    r == Result::<GuestOrderConfirm, GuestConfirmError>::Err(
                        GuestConfirmError::GuestOrderExpired,
                    ) && final(guests)@ == (if expires_at(g, now) {
                        old(guests)@.update(
                            i,
                            GuestOrder { guest_order_status: GuestOrderStatus::Expired, ..g },
                        )
                    } else {
                        old(guests)@
                    }) && *final(inventory) == *old(inventory) && *final(orders) == *old(orders)
                        && *final(bus) == *old(bus)
                } else {
                    let draft = spec_draft(g, v.description, v.items, now);
                    let violations = spec_check_full(draft, *old(inventory));
                    let total = match v.items {
                        Option::Some(it) => spec_total_amount(it@),
                        Option::None => 0,
                    };
                    let nid = spec_next_id(old(orders)@);
                    if violations.len() > 0 {
                        (r matches Ok(c) && c.check_result@ == violations && c.order is None)
                            && *final(guests) == *old(guests) && *final(inventory)
                            == *old(inventory) && *final(orders) == *old(orders) && *final(bus)
                            == *old(bus)
                    } else if !add_ok(draft, skus@) {
                        r == Result::<GuestOrderConfirm, GuestConfirmError>::Err(
                            GuestConfirmError::Engine(EngineError::SkuNotFound),
                        ) && *final(guests) == *old(guests) && *final(inventory) == *old(inventory)
                            && *final(orders) == *old(orders) && *final(bus) == *old(bus)
                    } else {
                        (r matches Ok(c) && c.check_result@ == violations && (
                        c.order matches Some(go) && same_guest(
                            go,
                            GuestOrder {
                                order_id: nid as i64,
                                guest_order_status: GuestOrderStatus::Confirmed,
                                confirmed_date: now,
                                description: v.description,
                                items: Option::None,
                                ..g
                            },
                        ))) && final(guests)@ == old(guests)@.update(
                            i,
                            GuestOrder {
                                order_id: nid as i64,
                                guest_order_status: GuestOrderStatus::Confirmed,
                                confirmed_date: now,
                                ..g
                            },
                        ) && final(inventory)@ == add_inventory_map(draft, old(inventory)@, skus@)
                            && crate::lifecycle::appended_order(
                            old(orders)@,
                            final(orders)@,
                            Order {
                                id: nid as i64,
                                total_amount: total as i64,
                                total_amount_settled: 0,
                                order_payment_status: spec_add_status(draft, total),
                                ..draft
                            },
                        ) && final(bus)@ == old(bus)@.push(
                            WebSocketFlags::AddOrder(nid as i64),
                        ).push(WebSocketFlags::ConfirmGuestOrder(id))
                    }
                }
            }),
        },
{
    let desc2 = v.description.clone();
    let got = guests.get(id, now);
    match got {
        Option::None => Result::Err(GuestConfirmError::OrderNotFound),
        Option::Some(go) => {
            match go.guest_order_status {
                GuestOrderStatus::Confirmed => Result::Err(GuestConfirmError::GuestOrderConfirmed),
                GuestOrderStatus::Expired => Result::Err(GuestConfirmError::GuestOrderExpired),
                GuestOrderStatus::Pending => {
                    let draft = Order {
                        id: 0,
                        from_guest_order_id: go.id,
                        created_by_user_id: go.created_by_user_id,
                        updated_by_user_id: go.created_by_user_id,
                        warehouse_id: go.warehouse_id,
                        currency: go.currency,
                        total_amount: 0,
                        total_amount_settled: 0,
                        order_payment_status: OrderPaymentStatus::NotRequired,
                        person_related_id: go.person_related_id,
                        person_in_charge_id: go.person_in_charge_id,
                        date: now,
                        last_updated_date: now,
                        description: v.description,
                        order_type: go.order_type,
                        order_category_id: go.order_category_id,
                        is_record: go.is_record,
                        non_payment: go.non_payment,
                        items: v.items,
                    };
                    let ghost gi = find_guest(old(guests)@, id)->0;
                    let ghost gdraft = draft;
                    proof {
                        lemma_find_guest(old(guests)@, id);
                        assert(draft == spec_draft(
                            old(guests)@[gi],
                            draft.description,
                            draft.items,
                            now,
                        ));
                    }
                    let check_result = check(&draft, false, inventory);
                    proof {
                        assert(check_result@.len() == check_result.items_not_available@.len());
                    }
                    if !check_result.items_not_available.is_empty() {
                        return Result::Ok(
                            GuestOrderConfirm { check_result, order: Option::None },
                        );
                    }
                    match crate::lifecycle::add(draft, inventory, skus, orders, bus) {
                        Result::Err(e) => Result::Err(GuestConfirmError::Engine(e)),
                        Result::Ok(ro) => {
                            let nid = ro.id;
                            proof {
                                crate::lifecycle::lemma_max_id_lower(old(orders)@);
                                let total = match gdraft.items {
                                    Option::Some(it) => spec_total_amount(it@),
                                    Option::None => 0,
                                };
                                let e1 = Order {
                                    id: ro.id,
                                    total_amount: ro.total_amount,
                                    total_amount_settled: 0,
                                    order_payment_status: ro.order_payment_status,
                                    ..gdraft
                                };
                                let e2 = Order {
                                    id: spec_next_id(old(orders)@) as i64,
                                    total_amount: total as i64,
                                    total_amount_settled: 0,
                                    order_payment_status: spec_add_status(gdraft, total),
                                    ..gdraft
                                };
                                assert(e1 == e2);
                                assert(crate::lifecycle::appended_order(old(orders)@, orders@, e2));
                            }
                            let tok = guests.confirm_mark(id, nid, now);
                            bus.notice(WebSocketFlags::ConfirmGuestOrder(id));
                            let go2 = GuestOrder {
                                id,
                                created_by_user_id: go.created_by_user_id,
                                person_in_charge_id: go.person_in_charge_id,
                                date: go.date,
                                confirmed_date: now,
                                sub_token: tok,
                                currency: go.currency,
                                warehouse_id: go.warehouse_id,
                                person_related_id: go.person_related_id,
                                description: desc2,
                                order_type: go.order_type,
                                is_record: go.is_record,
                                non_payment: go.non_payment,
                                guest_order_status: GuestOrderStatus::Confirmed,
                                order_id: nid,
                                order_category_id: go.order_category_id,
                                items: Option::None,
                            };
                            proof {
                                let g = old(guests)@[gi];
                                assert(guests@ == old(guests)@.update(
                                    gi,
                                    GuestOrder {
                                        order_id: nid,
                                        guest_order_status: GuestOrderStatus::Confirmed,
                                        confirmed_date: now,
                                        ..g
                                    },
                                ));
                                assert(inventory@ == add_inventory_map(
                                    gdraft,
                                    old(inventory)@,
                                    skus@,
                                ));
                                assert(bus@ == old(bus)@.push(
                                    WebSocketFlags::AddOrder(nid),
                                ).push(WebSocketFlags::ConfirmGuestOrder(id)));
                                assert(check_result@ == spec_check_full(gdraft, *old(inventory)));
                                assert(same_guest(
                                    go2,
                                    GuestOrder {
                                        order_id: spec_next_id(old(orders)@) as i64,
                                        guest_order_status: GuestOrderStatus::Confirmed,
                                        confirmed_date: now,
                                        description: gdraft.description,
                                        items: Option::None,
                                        ..g
                                    },
                                ));
                            }
                            Result::Ok(
                                GuestOrderConfirm { check_result, order: Option::Some(go2) },
                            )
                        },
                    }
                },
            }
        },
    }
}

/// A copy of a stored guest order as a read returns it: items left out.
fn read_back(g: &GuestOrder) -> (r: GuestOrder)
    ensures
        r == (GuestOrder { items: Option::None, ..*g }),
{
    GuestOrder {
        id: g.id,
        created_by_user_id: g.created_by_user_id,
        person_in_charge_id: g.person_in_charge_id,
        date: g.date,
        confirmed_date: g.confirmed_date,
        sub_token: g.sub_token.clone(),
        currency: g.currency,
        warehouse_id: g.warehouse_id,
        person_related_id: g.person_related_id,
        description: g.description.clone(),
        order_type: g.order_type,
        is_record: g.is_record,
        non_payment: g.non_payment,
        guest_order_status: g.guest_order_status,
        order_id: g.order_id,
        order_category_id: g.order_category_id,
        items: Option::None,
    }
}

} // verus!
