//! The recalculation engine: full replay of the order history, and the
//! incremental reversal of one order.
//!
//! Replay zeroes the rows in scope, folds every non-record order of the
//! scoped warehouses in the given (date-ascending) sequence into a net
//! quantity per (warehouse, sku), and writes each net absolutely.  The
//! reversal of one order applies the opposite delta — unless a
//! calibration-type order with a date at or past the order's exists, in
//! which case the absolute reset already superseded the order's
//! contribution and the reversal is skipped.

use vstd::prelude::*;

use crate::error::EngineError;
use crate::events::EventBus;
use crate::events::WebSocketFlags;
use crate::inventory::in_scope;
use crate::inventory::vec_contains_i64;
use crate::inventory::zero_scope_map;
use crate::inventory::Inventory;
use crate::inventory::InventoryProduct;
use crate::inventory::opt_view;
use crate::mutate::change;
use crate::mutate::change_in_range;
use crate::mutate::skus_resolvable;
use crate::mutate::spec_change;
use crate::order::calc_quantity_by_order_type;
use crate::order::spec_calc_quantity;
use crate::order::Order;
use crate::order::OrderItem;
use crate::order::OrderType;
use crate::sku::SkuRegistry;

verus! {

/// One accumulator slot of the replay: the net quantity a
/// (warehouse, sku) pair reaches over the folded history.
#[derive(Clone, Copy, Debug, PartialEq, Eq, Structural)]
pub struct AccEntry {
    pub warehouse_id: i64,
    pub sku_id: i64,
    pub quantity: i64,
}

pub open spec fn acc_key(e: AccEntry) -> (int, int) {
    (e.warehouse_id as int, e.sku_id as int)
}

/// The map an accumulator list denotes.
pub open spec fn acc_list_map(t: Seq<AccEntry>) -> Map<(int, int), int>
    decreases t.len(),
{
    if t.len() == 0 {
        Map::empty()
    } else {
        acc_list_map(t.drop_last()).insert(acc_key(t.last()), t.last().quantity as int)
    }
}

proof fn lemma_acc_list_contains(t: Seq<AccEntry>, k: (int, int))
    ensures
        acc_list_map(t).contains_key(k) <==> exists|i: int|
            0 <= i < t.len() && acc_key(#[trigger] t[i]) == k,
    decreases t.len(),
{
    if t.len() > 0 {
        lemma_acc_list_contains(t.drop_last(), k);
        if acc_key(t.last()) == k {
            assert(acc_key(t[t.len() - 1]) == k);
        } else if acc_list_map(t).contains_key(k) {
            let i = choose|i: int|
                0 <= i < t.drop_last().len() && acc_key(#[trigger] t.drop_last()[i]) == k;
            assert(acc_key(t[i]) == k);
        } else {
            assert forall|i: int| 0 <= i < t.len() implies acc_key(#[trigger] t[i]) != k by {
                if i < t.len() - 1 {
                    assert(t.drop_last()[i] == t[i]);
                }
            }
        }
    }
}

proof fn lemma_acc_list_index(t: Seq<AccEntry>, i: int)
    requires
        0 <= i < t.len(),
        forall|a: int, b: int|
            0 <= a < b < t.len() ==> acc_key(#[trigger] t[a]) != acc_key(#[trigger] t[b]),
    ensures
        acc_list_map(t).contains_key(acc_key(t[i])),
        acc_list_map(t)[acc_key(t[i])] == t[i].quantity as int,
    decreases t.len(),
{
    if i == t.len() - 1 {
        lemma_acc_list_contains(t, acc_key(t[i]));
    } else {
        lemma_acc_list_index(t.drop_last(), i);
        assert(t.drop_last()[i] == t[i]);
        assert(acc_key(t.last()) != acc_key(t[i]));
    }
}

proof fn lemma_acc_list_update(t: Seq<AccEntry>, i: int, e: AccEntry)
    requires
        0 <= i < t.len(),
        acc_key(e) == acc_key(t[i]),
        forall|a: int, b: int|
            0 <= a < b < t.len() ==> acc_key(#[trigger] t[a]) != acc_key(#[trigger] t[b]),
    ensures
        acc_list_map(t.update(i, e)) == acc_list_map(t).insert(acc_key(e), e.quantity as int),
    decreases t.len(),
{
    let updated = t.update(i, e);
    if i == t.len() - 1 {
        assert(updated.drop_last() == t.drop_last());
        assert(updated.last() == e);
        assert(acc_list_map(t).insert(acc_key(e), e.quantity as int) =~= acc_list_map(
            t.drop_last(),
        ).insert(acc_key(e), e.quantity as int));
    } else {
        assert(updated.drop_last() == t.drop_last().update(i, e));
        lemma_acc_list_update(t.drop_last(), i, e);
        assert(updated.last() == t.last());
        assert(acc_key(t.last()) != acc_key(e));
        assert(acc_list_map(t.drop_last()).insert(acc_key(e), e.quantity as int).insert(
            acc_key(t.last()),
            t.last().quantity as int,
        ) =~= acc_list_map(t.drop_last()).insert(
            acc_key(t.last()),
            t.last().quantity as int,
        ).insert(acc_key(e), e.quantity as int));
    }
}

/// Fold one order's items into the accumulator.
pub open spec fn acc_items(
    acc: Map<(int, int), int>,
    w: int,
    items: Seq<OrderItem>,
    order_type: OrderType,
) -> Map<(int, int), int>
    decreases items.len(),
{
    if items.len() == 0 {
        acc
    } else {
        let pre = acc_items(acc, w, items.drop_last(), order_type);
        let it = items.last();
        let k = (w, it.sku_id as int);
        let cur = if pre.contains_key(k) {
            pre[k]
        } else {
            0
        };
        pre.insert(k, spec_calc_quantity(cur, it, order_type))
    }
}

/// True of an order the replay takes: a non-record order of a scoped
/// warehouse that is not the excluded one.
pub open spec fn order_included(o: Order, ws: Option<Seq<i64>>, excl: Option<int>) -> bool {
    &&& !o.is_record
    &&& (match excl {
        Option::Some(id) => o.id as int != id,
        Option::None => true,
    })
    &&& in_scope(ws, o.warehouse_id)
}

/// Fold a whole history into the accumulator.
pub open spec fn acc_orders(orders: Seq<Order>, ws: Option<Seq<i64>>, excl: Option<int>) -> Map<
    (int, int),
    int,
>
    decreases orders.len(),
{
    if orders.len() == 0 {
        Map::empty()
    } else {
        let pre = acc_orders(orders.drop_last(), ws, excl);
        let o = orders.last();
        if order_included(o, ws, excl) {
            match o.items {
                Option::Some(items) => acc_items(pre, o.warehouse_id as int, items@, o.order_type),
                Option::None => pre,
            }
        } else {
            pre
        }
    }
}

/// Every intermediate net of one order's fold stays within the machine
/// integer.
pub open spec fn acc_items_in_range(
    acc: Map<(int, int), int>,
    w: int,
    items: Seq<OrderItem>,
    order_type: OrderType,
) -> bool
    decreases items.len(),
{
    if items.len() == 0 {
        true
    } else {
        let pre = acc_items(acc, w, items.drop_last(), order_type);
        let it = items.last();
        let k = (w, it.sku_id as int);
        let cur = if pre.contains_key(k) {
            pre[k]
        } else {
            0
        };
        &&& acc_items_in_range(acc, w, items.drop_last(), order_type)
        &&& i64::MIN <= spec_calc_quantity(cur, it, order_type) <= i64::MAX
    }
}

/// Every intermediate net of the whole replay stays within the machine
/// integer.
pub open spec fn acc_orders_in_range(
    orders: Seq<Order>,
    ws: Option<Seq<i64>>,
    excl: Option<int>,
) -> bool
    decreases orders.len(),
{
    if orders.len() == 0 {
        true
    } else {
        let pre = acc_orders(orders.drop_last(), ws, excl);
        let o = orders.last();
        &&& acc_orders_in_range(orders.drop_last(), ws, excl)
        &&& (order_included(o, ws, excl) ==> match o.items {
            Option::Some(items) => acc_items_in_range(pre, o.warehouse_id as int, items@, o.order_type),
            Option::None => true,
        })
    }
}

/// Every accumulated sku resolves through the registry.
pub open spec fn acc_resolvable(acc: Map<(int, int), int>, cats: Map<int, int>) -> bool {
    forall|k: (int, int)| #[trigger] acc.contains_key(k) ==> cats.contains_key(k.1)
}

/// The store map the replay ends at: rows in scope zeroed, every
/// accumulated net written absolutely.  An existing row keeps its
/// category; a fresh one takes the registry's.
pub open spec fn recalc_map(
    m: Map<(int, int), (int, int)>,
    cats: Map<int, int>,
    orders: Seq<Order>,
    ws: Option<Seq<i64>>,
    ss: Option<Seq<i64>>,
    excl: Option<int>,
) -> Map<(int, int), (int, int)> {
    let zeroed = zero_scope_map(m, ws, ss);
    let acc = acc_orders(orders, ws, excl);
    Map::new(
        |k: (int, int)| zeroed.contains_key(k) || acc.contains_key(k),
        |k: (int, int)|
            if acc.contains_key(k) {
                (
                    if zeroed.contains_key(k) {
                        zeroed[k].0
                    } else {
                        cats[k.1]
                    },
                    acc[k],
                )
            } else {
                zeroed[k]
            },
    )
}

proof fn lemma_acc_items_in_range_prefix(
    acc: Map<(int, int), int>,
    w: int,
    items: Seq<OrderItem>,
    order_type: OrderType,
    i: int,
)
    requires
        acc_items_in_range(acc, w, items, order_type),
        0 <= i <= items.len(),
    ensures
        acc_items_in_range(acc, w, items.take(i), order_type),
    decreases items.len() - i,
{
    if i == items.len() {
        assert(items.take(i) == items);
    } else {
        lemma_acc_items_in_range_prefix(acc, w, items, order_type, i + 1);
        assert(items.take(i + 1).drop_last() == items.take(i));
    }
}

proof fn lemma_acc_orders_in_range_prefix(
    orders: Seq<Order>,
    ws: Option<Seq<i64>>,
    excl: Option<int>,
    i: int,
)
    requires
        acc_orders_in_range(orders, ws, excl),
        0 <= i <= orders.len(),
    ensures
        acc_orders_in_range(orders.take(i), ws, excl),
    decreases orders.len() - i,
{
    if i == orders.len() {
        assert(orders.take(i) == orders);
    } else {
        lemma_acc_orders_in_range_prefix(orders, ws, excl, i + 1);
        assert(orders.take(i + 1).drop_last() == orders.take(i));
    }
}

/// Writing an accumulator list over a base map, entry by entry.
spec fn acc_apply(
    m: Map<(int, int), (int, int)>,
    cats: Map<int, int>,
    t: Seq<AccEntry>,
) -> Map<(int, int), (int, int)>
    decreases t.len(),
{
    if t.len() == 0 {
        m
    } else {
        let pre = acc_apply(m, cats, t.drop_last());
        let e = t.last();
        let k = acc_key(e);
        pre.insert(
            k,
            (
                if pre.contains_key(k) {
                    pre[k].0
                } else {
                    cats[k.1]
                },
                e.quantity as int,
            ),
        )
    }
}

/// Entry-by-entry application of a duplicate-free accumulator list
/// equals the one-shot overwrite `recalc_map` performs.
proof fn lemma_acc_apply_as_map(
    m: Map<(int, int), (int, int)>,
    cats: Map<int, int>,
    t: Seq<AccEntry>,
)
    requires
        forall|a: int, b: int|
            0 <= a < b < t.len() ==> acc_key(#[trigger] t[a]) != acc_key(#[trigger] t[b]),
    ensures
        acc_apply(m, cats, t) == Map::new(
            |k: (int, int)| m.contains_key(k) || acc_list_map(t).contains_key(k),
            |k: (int, int)|
                if acc_list_map(t).contains_key(k) {
                    (
                        if m.contains_key(k) {
                            m[k].0
                        } else {
                            cats[k.1]
                        },
                        acc_list_map(t)[k],
                    )
                } else {
                    m[k]
                },
        ),
    decreases t.len(),
{
    if t.len() == 0 {
        assert(acc_apply(m, cats, t) =~= Map::new(
            |k: (int, int)| m.contains_key(k) || acc_list_map(t).contains_key(k),
            |k: (int, int)|
                if acc_list_map(t).contains_key(k) {
                    (
                        if m.contains_key(k) {
                            m[k].0
                        } else {
                            cats[k.1]
                        },
                        acc_list_map(t)[k],
                    )
                } else {
                    m[k]
                },
        ));
    } else {
        lemma_acc_apply_as_map(m, cats, t.drop_last());
        let e = t.last();
        let k = acc_key(e);
        assert(!acc_list_map(t.drop_last()).contains_key(k)) by {
            lemma_acc_list_contains(t.drop_last(), k);
            if acc_list_map(t.drop_last()).contains_key(k) {
                let i = choose|i: int|
                    0 <= i < t.drop_last().len() && acc_key(#[trigger] t.drop_last()[i]) == k;
                assert(acc_key(t[i]) == acc_key(t[t.len() - 1]));
            }
        }
        assert forall|i: int| 0 <= i < t.drop_last().len() implies acc_key(
            #[trigger] t.drop_last()[i],
        ) == acc_key(t[i]) by {
            assert(t.drop_last()[i] == t[i]);
        }
        assert(acc_apply(m, cats, t) =~= Map::new(
            |kk: (int, int)| m.contains_key(kk) || acc_list_map(t).contains_key(kk),
            |kk: (int, int)|
                if acc_list_map(t).contains_key(kk) {
                    (
                        if m.contains_key(kk) {
                            m[kk].0
                        } else {
                            cats[kk.1]
                        },
                        acc_list_map(t)[kk],
                    )
                } else {
                    m[kk]
                },
        ));
    }
}

fn find_acc(acc: &Vec<AccEntry>, warehouse_id: i64, sku_id: i64) -> (r: Option<usize>)
    ensures
        match r {
            Option::Some(i) => i < acc@.len() && acc_key(acc@[i as int]) == (
                warehouse_id as int,
                sku_id as int,
            ),
            Option::None => forall|i: int|
                0 <= i < acc@.len() ==> acc_key(#[trigger] acc@[i]) != (
                    warehouse_id as int,
                    sku_id as int,
                ),
        },
{
    let n = acc.len();
    let mut i: usize = 0;
    while i < n
        invariant
            n == acc@.len(),
            i <= n,
            forall|j: int|
                0 <= j < i ==> acc_key(#[trigger] acc@[j]) != (warehouse_id as int, sku_id as int),
        decreases n - i,
    {
        let e = acc[i];
        if e.warehouse_id == warehouse_id && e.sku_id == sku_id {
            return Option::Some(i);
        }
        i = i + 1;
    }
    Option::None
}

/// Replay the whole (date-ascending) history into the store.  Rows in
/// scope are zeroed first; every accumulated (warehouse, sku) net is
/// then written absolutely.  A net whose sku the registry does not know
/// aborts with the store untouched.  The outcome is a function of the
/// scope and the history alone, which makes the replay deterministic
/// and idempotent.
pub fn recalc_all(
    store: &mut Inventory,
    skus: &SkuRegistry,
    orders: &Vec<Order>,
    warehouse_ids: Option<&Vec<i64>>,
    skus_filter: Option<&Vec<i64>>,
    to_remove: Option<&Order>,
    bus: &mut EventBus,
) -> (r: Result<(), EngineError>)
    requires
        old(store).wf(),
        skus.wf(),
        acc_orders_in_range(orders@, opt_view(warehouse_ids), excl_view(to_remove)),
    ensures
        final(store).wf(),
        r is Ok <==> acc_resolvable(
            acc_orders(orders@, opt_view(warehouse_ids), excl_view(to_remove)),
            skus@,
        ),
        r is Ok ==> final(store)@ == recalc_map(
            old(store)@,
            skus@,
            orders@,
            opt_view(warehouse_ids),
            opt_view(skus_filter),
            excl_view(to_remove),
        ),
        r is Ok ==> final(bus)@ == old(bus)@.push(WebSocketFlags::RecalcOrders),
        r is Err ==> *final(store) == *old(store) && *final(bus) == *old(bus) && r == Result::<
            (),
            EngineError,
        >::Err(EngineError::SkuNotFound),
{
    let ghost ws = opt_view(warehouse_ids);
    let ghost ss = opt_view(skus_filter);
    let ghost excl = excl_view(to_remove);
    let ghost gorders = orders@;
    let ghost cats = skus@;

    // fold the filtered history into an in-memory accumulator
    let mut acc: Vec<AccEntry> = Vec::new();
    let n = orders.len();
    let mut i: usize = 0;
    proof {
        assert(gorders.take(0) =~= Seq::<Order>::empty());
    }
    while i < n
        invariant
            *store == *old(store),
            *bus == *old(bus),
            old(store).wf(),
            skus.wf(),
            cats == skus@,
            ws == opt_view(warehouse_ids),
            ss == opt_view(skus_filter),
            excl == excl_view(to_remove),
            gorders == orders@,
            n == gorders.len(),
            i <= n,
            acc_orders_in_range(gorders, ws, excl),
            forall|a: int, b: int|
                0 <= a < b < acc@.len() ==> acc_key(#[trigger] acc@[a]) != acc_key(
                    #[trigger] acc@[b],
                ),
            acc_list_map(acc@) == acc_orders(gorders.take(i as int), ws, excl),
        decreases n - i,
    {
        proof {
            assert(gorders.take(i as int + 1).drop_last() == gorders.take(i as int));
            assert(gorders.take(i as int + 1).last() == gorders[i as int]);
            lemma_acc_orders_in_range_prefix(gorders, ws, excl, i as int + 1);
        }
        let order = &orders[i];
        let in_ws = match warehouse_ids {
            Option::Some(v) => vec_contains_i64(v, order.warehouse_id),
            Option::None => true,
        };
        let excluded = match to_remove {
            Option::Some(o) => o.id == order.id,
            Option::None => false,
        };
        if !order.is_record && !excluded && in_ws {
            proof {
                assert(order_included(gorders[i as int], ws, excl));
            }
            match &order.items {
                Option::Some(items) => {
                    let ghost acc0 = acc_list_map(acc@);
                    let ghost gitems = items@;
                    let w = order.warehouse_id;
                    let m = items.len();
                    let mut j: usize = 0;
                    proof {
                        assert(gitems.take(0) =~= Seq::<OrderItem>::empty());
                        assert(acc_items(acc0, w as int, gitems.take(0), order.order_type) == acc0);
                        assert(acc_items_in_range(acc0, w as int, gitems, order.order_type));
                    }
                    while j < m
                        invariant
                            0 <= i < gorders.len(),
                            items@ == gitems,
                            *order == gorders[i as int],
                            w == gorders[i as int].warehouse_id,
                            m == gitems.len(),
                            j <= m,
                            acc_items_in_range(acc0, w as int, gitems, gorders[i as int].order_type),
                            forall|a: int, b: int|
                                0 <= a < b < acc@.len() ==> acc_key(#[trigger] acc@[a]) != acc_key(
                                    #[trigger] acc@[b],
                                ),
                            acc_list_map(acc@) == acc_items(
                                acc0,
                                w as int,
                                gitems.take(j as int),
                                gorders[i as int].order_type,
                            ),
                        decreases m - j,
                    {
                        let ghost pre = acc_items(
                            acc0,
                            w as int,
                            gitems.take(j as int),
                            gorders[i as int].order_type,
                        );
                        proof {
                            assert(gitems.take(j as int + 1).drop_last() == gitems.take(j as int));
                            assert(gitems.take(j as int + 1).last() == gitems[j as int]);
                            lemma_acc_items_in_range_prefix(
                                acc0,
                                w as int,
                                gitems,
                                gorders[i as int].order_type,
                                j as int + 1,
                            );
                        }
                        let item = items[j];
                        let ghost k = (w as int, item.sku_id as int);
                        let ghost snap = acc@;
                        match find_acc(&acc, w, item.sku_id) {
                            Option::Some(t) => {
                                proof {
                                    lemma_acc_list_index(acc@, t as int);
                                    assert(pre.contains_key(k) && pre[k] == acc@[t as int].quantity
                                        as int);
                                }
                                let e = acc[t];
                                let nv = calc_quantity_by_order_type(
                                    e.quantity,
                                    &item,
                                    order.order_type,
                                );
                                let ne = AccEntry { quantity: nv, ..e };
                                acc.set(t, ne);
                                proof {
                                    lemma_acc_list_update(snap, t as int, ne);
                                    assert(acc_list_map(acc@) == acc_list_map(snap).insert(
                                        k,
                                        nv as int,
                                    ));
                                }
                            },
                            Option::None => {
                                proof {
                                    lemma_acc_list_contains(acc@, k);
                                    assert(!pre.contains_key(k));
                                }
                                let nv = calc_quantity_by_order_type(0, &item, order.order_type);
                                acc.push(AccEntry { warehouse_id: w, sku_id: item.sku_id, quantity: nv });
                                proof {
                                    assert(acc@.drop_last() == snap);
                                    assert(acc_list_map(acc@) == acc_list_map(snap).insert(
                                        k,
                                        nv as int,
                                    ));
                                    assert forall|a: int, b: int|
                                        0 <= a < b < acc@.len() implies acc_key(
                                        #[trigger] acc@[a],
                                    ) != acc_key(#[trigger] acc@[b]) by {
                                        if b == acc@.len() - 1 {
                                            assert(acc@[a] == snap[a]);
                                            lemma_acc_list_contains(snap, k);
                                            if acc_key(snap[a]) == k {
                                                assert(acc_list_map(snap).contains_key(k));
                                            }
                                        } else {
                                            assert(acc@[a] == snap[a]);
                                            assert(acc@[b] == snap[b]);
                                        }
                                    }
                                }
                            },
                        }
                        j = j + 1;
                    }
                    proof {
                        assert(gitems.take(m as int) == gitems);
                        assert(acc_list_map(acc@) == acc_orders(
                            gorders.take(i as int + 1),
                            ws,
                            excl,
                        ));
                    }
                },
                Option::None => {
                    proof {
                        assert(acc_list_map(acc@) == acc_orders(
                            gorders.take(i as int + 1),
                            ws,
                            excl,
                        ));
                    }
                },
            }
        } else {
            proof {
                assert(!order_included(gorders[i as int], ws, excl));
                assert(acc_list_map(acc@) == acc_orders(gorders.take(i as int + 1), ws, excl));
            }
        }
        i = i + 1;
    }
    proof {
        assert(gorders.take(n as int) == gorders);
    }
    let ghost accm = acc_orders(gorders, ws, excl);

    // every accumulated sku must resolve before anything is written
    let cnt = acc.len();
    let mut j: usize = 0;
    while j < cnt
        invariant
            *store == *old(store),
            *bus == *old(bus),
            old(store).wf(),
            skus.wf(),
            cats == skus@,
            ws == opt_view(warehouse_ids),
            ss == opt_view(skus_filter),
            excl == excl_view(to_remove),
            gorders == orders@,
            accm == acc_orders(gorders, ws, excl),
            cnt == acc@.len(),
            j <= cnt,
            accm == acc_list_map(acc@),
            forall|t: int|
                0 <= t < j ==> cats.contains_key((#[trigger] acc@[t]).sku_id as int),
        decreases cnt - j,
    {
        if skus.resolve(acc[j].sku_id).is_none() {
            proof {
                lemma_acc_list_index_weak(acc@, j as int);
                assert(accm.contains_key(acc_key(acc@[j as int])));
                assert(!acc_resolvable(accm, cats));
            }
            return Result::Err(EngineError::SkuNotFound);
        }
        j = j + 1;
    }
    proof {
        assert forall|k: (int, int)| #[trigger] accm.contains_key(k) implies cats.contains_key(
            k.1,
        ) by {
            lemma_acc_list_contains(acc@, k);
            let t = choose|t: int| 0 <= t < acc@.len() && acc_key(#[trigger] acc@[t]) == k;
            assert(cats.contains_key(acc@[t].sku_id as int));
        }
    }

    // zero the scoped rows, then write each net absolutely
    store.zero_scoped(warehouse_ids, skus_filter);
    let ghost zeroed = zero_scope_map(old(store)@, ws, ss);
    let ghost accl = acc@;
    proof {
        assert(accl.take(0) =~= Seq::<AccEntry>::empty());
        assert(acc_apply(zeroed, cats, accl.take(0)) == zeroed);
    }
    let mut j: usize = 0;
    while j < cnt
        invariant
            store.wf(),
            *bus == *old(bus),
            skus.wf(),
            cats == skus@,
            ws == opt_view(warehouse_ids),
            ss == opt_view(skus_filter),
            excl == excl_view(to_remove),
            gorders == orders@,
            accm == acc_orders(gorders, ws, excl),
            accm == acc_list_map(accl),
            zeroed == zero_scope_map(old(store)@, ws, ss),
            cnt == accl.len(),
            accl == acc@,
            j <= cnt,
            forall|a: int, b: int|
                0 <= a < b < accl.len() ==> acc_key(#[trigger] accl[a]) != acc_key(
                    #[trigger] accl[b],
                ),
            forall|t: int| 0 <= t < cnt ==> cats.contains_key((#[trigger] accl[t]).sku_id as int),
            store@ == acc_apply(zeroed, cats, accl.take(j as int)),
        decreases cnt - j,
    {
        let ghost part = acc_apply(zeroed, cats, accl.take(j as int));
        proof {
            assert(accl.take(j as int + 1).drop_last() == accl.take(j as int));
            assert(accl.take(j as int + 1).last() == accl[j as int]);
        }
        let e = acc[j];
        let ghost k = acc_key(e);
        match store.get(e.warehouse_id, e.sku_id) {
            Option::Some(_) => {
                let ok = store.set_quantity(e.warehouse_id, e.sku_id, e.quantity);
                proof {
                    assert(ok);
                    assert(store@ =~= acc_apply(zeroed, cats, accl.take(j as int + 1)));
                }
            },
            Option::None => {
                let cat = match skus.resolve(e.sku_id) {
                    Option::Some(c) => c,
                    Option::None => {
                        proof {
                            assert(false);
                        }
                        0
                    },
                };
                store.insert_row(
                    InventoryProduct {
                        warehouse_id: e.warehouse_id,
                        sku_id: e.sku_id,
                        sku_category_id: cat,
                        quantity: e.quantity,
                    },
                );
                proof {
                    assert(store@ =~= acc_apply(zeroed, cats, accl.take(j as int + 1)));
                }
            },
        }
        j = j + 1;
    }
    proof {
        assert(accl.take(cnt as int) == accl);
        lemma_acc_apply_as_map(zeroed, cats, accl);
        assert(store@ =~= recalc_map(old(store)@, cats, gorders, ws, ss, excl));
    }
    bus.notice(WebSocketFlags::RecalcOrders);
    Result::Ok(())
}

proof fn lemma_acc_list_index_weak(t: Seq<AccEntry>, i: int)
    requires
        0 <= i < t.len(),
    ensures
        acc_list_map(t).contains_key(acc_key(t[i])),
{
    lemma_acc_list_contains(t, acc_key(t[i]));
}

/// The id an optional excluded order carries.
pub open spec fn excl_view(o: Option<&Order>) -> Option<int> {
    match o {
        Option::Some(v) => Option::Some(v.id as int),
        Option::None => Option::None,
    }
}

/// An order's items; an absent list reads as empty.
pub open spec fn items_of(o: Order) -> Seq<OrderItem> {
    match o.items {
        Option::Some(v) => v@,
        Option::None => Seq::<OrderItem>::empty(),
    }
}

/// An item with its `exchanged` leg flipped.
pub open spec fn flip_item(it: OrderItem) -> OrderItem {
    OrderItem { exchanged: !it.exchanged, ..it }
}

/// Every item's leg flipped: the reversal of an Exchange order.
pub open spec fn flip_items(items: Seq<OrderItem>) -> Seq<OrderItem> {
    items.map_values(|it: OrderItem| flip_item(it))
}

/// The sku of every item, in order.
pub open spec fn sku_ids(items: Seq<OrderItem>) -> Seq<i64> {
    items.map_values(|it: OrderItem| it.sku_id)
}

/// A calibration-type order of the same warehouse, at or past the
/// given order's date, other than the order itself.
pub open spec fn guard_order(g: Order, o: Order) -> bool {
    &&& (g.order_type == OrderType::Calibration || g.order_type == OrderType::CalibrationStrict)
    &&& g.date >= o.date
    &&& g.id != o.id
    &&& g.warehouse_id == o.warehouse_id
}

/// True when some order in the history supersedes the given order's
/// contribution with an absolute reset: reversing it would then
/// double-count, so the reversal is skipped.
pub open spec fn calibration_guard(orders: Seq<Order>, o: Order) -> bool {
    exists|i: int| 0 <= i < orders.len() && guard_order(#[trigger] orders[i], o)
}

/// The store map a reversal ends at.
pub open spec fn recall_map(
    o: Order,
    m: Map<(int, int), (int, int)>,
    cats: Map<int, int>,
    orders: Seq<Order>,
) -> Map<(int, int), (int, int)> {
    if o.is_record || calibration_guard(orders, o) {
        m
    } else {
        match o.order_type {
            OrderType::Return | OrderType::StockIn => spec_change(
                m,
                cats,
                o.warehouse_id,
                items_of(o),
                OrderType::StockOut,
            ),
            OrderType::StockOut => spec_change(
                m,
                cats,
                o.warehouse_id,
                items_of(o),
                OrderType::StockIn,
            ),
            OrderType::Exchange => spec_change(
                m,
                cats,
                o.warehouse_id,
                flip_items(items_of(o)),
                OrderType::Exchange,
            ),
            OrderType::Calibration => recalc_map(
                m,
                cats,
                orders,
                Option::Some(seq![o.warehouse_id]),
                Option::Some(sku_ids(items_of(o))),
                Option::Some(o.id as int),
            ),
            OrderType::CalibrationStrict => recalc_map(
                m,
                cats,
                orders,
                Option::Some(seq![o.warehouse_id]),
                Option::None,
                Option::Some(o.id as int),
            ),
            OrderType::Verification | OrderType::VerificationStrict => m,
        }
    }
}

/// When a reversal succeeds: always, except where a sku it must write
/// through fails to resolve.
pub open spec fn recall_ok(o: Order, cats: Map<int, int>, orders: Seq<Order>) -> bool {
    if o.is_record || calibration_guard(orders, o) {
        true
    } else {
        match o.order_type {
            OrderType::Return | OrderType::StockIn => skus_resolvable(
                items_of(o),
                cats,
                OrderType::StockOut,
            ),
            OrderType::StockOut => skus_resolvable(items_of(o), cats, OrderType::StockIn),
            OrderType::Exchange => skus_resolvable(
                flip_items(items_of(o)),
                cats,
                OrderType::Exchange,
            ),
            OrderType::Calibration | OrderType::CalibrationStrict => acc_resolvable(
                acc_orders(
                    orders,
                    Option::Some(seq![o.warehouse_id]),
                    Option::Some(o.id as int),
                ),
                cats,
            ),
            OrderType::Verification | OrderType::VerificationStrict => true,
        }
    }
}

/// Whether a reversal triggers a scoped replay (and so publishes the
/// recalculation event): only a calibration-type order not otherwise
/// skipped does.
pub open spec fn recall_publishes(o: Order, orders: Seq<Order>) -> bool {
    &&& !o.is_record
    &&& !calibration_guard(orders, o)
    &&& (o.order_type == OrderType::Calibration || o.order_type == OrderType::CalibrationStrict)
}

/// The machine-integer bounds a reversal needs of its arithmetic.
pub open spec fn recall_pre(
    o: Order,
    m: Map<(int, int), (int, int)>,
    cats: Map<int, int>,
    orders: Seq<Order>,
) -> bool {
    if o.is_record || calibration_guard(orders, o) {
        true
    } else {
        match o.order_type {
            OrderType::Return | OrderType::StockIn => change_in_range(
                m,
                cats,
                o.warehouse_id as int,
                items_of(o),
                OrderType::StockOut,
            ),
            OrderType::StockOut => change_in_range(
                m,
                cats,
                o.warehouse_id as int,
                items_of(o),
                OrderType::StockIn,
            ),
            OrderType::Exchange => change_in_range(
                m,
                cats,
                o.warehouse_id as int,
                flip_items(items_of(o)),
                OrderType::Exchange,
            ),
            OrderType::Calibration | OrderType::CalibrationStrict => acc_orders_in_range(
                orders,
                Option::Some(seq![o.warehouse_id]),
                Option::Some(o.id as int),
            ),
            OrderType::Verification | OrderType::VerificationStrict => true,
        }
    }
}

fn exists_calibration(orders: &Vec<Order>, o: &Order) -> (r: bool)
    ensures
        r == calibration_guard(orders@, *o),
{
    let n = orders.len();
    let mut i: usize = 0;
    while i < n
        invariant
            n == orders@.len(),
            i <= n,
            forall|j: int| 0 <= j < i ==> !guard_order(#[trigger] orders@[j], *o),
        decreases n - i,
    {
        let g = &orders[i];
        let is_cal = match g.order_type {
            OrderType::Calibration | OrderType::CalibrationStrict => true,
            _ => false,
        };
        if is_cal && g.date >= o.date && g.id != o.id && g.warehouse_id == o.warehouse_id {
            proof {
                assert(guard_order(orders@[i as int], *o));
            }
            return true;
        }
        i = i + 1;
    }
    false
}

/// Reverse one order's effect on the store.  A record order, a
/// verification, or an order superseded by a later calibration changes
/// nothing; delta orders apply their opposite; a calibration triggers a
/// scoped replay that excludes the order itself.
pub fn recall(
    order: &Order,
    store: &mut Inventory,
    skus: &SkuRegistry,
    orders: &Vec<Order>,
    bus: &mut EventBus,
) -> (r: Result<bool, EngineError>)
    requires
        old(store).wf(),
        skus.wf(),
        recall_pre(*order, old(store)@, skus@, orders@),
    ensures
        final(store).wf(),
        r is Ok <==> recall_ok(*order, skus@, orders@),
        r is Ok ==> r == Result::<bool, EngineError>::Ok(true) && final(store)@ == recall_map(
            *order,
            old(store)@,
            skus@,
            orders@,
        ) && final(bus)@ == (if recall_publishes(*order, orders@) {
            old(bus)@.push(WebSocketFlags::RecalcOrders)
        } else {
            old(bus)@
        }),
        r is Err ==> *final(store) == *old(store) && *final(bus) == *old(bus) && r == Result::<
            bool,
            EngineError,
        >::Err(EngineError::SkuNotFound),
{
    if order.is_record {
        return Result::Ok(true);
    }
    if exists_calibration(orders, order) {
        return Result::Ok(true);
    }
    let empty_items: Vec<OrderItem> = Vec::new();
    let items: &Vec<OrderItem> = match &order.items {
        Option::Some(v) => v,
        Option::None => &empty_items,
    };
    proof {
        assert(items@ == items_of(*order));
    }
    match order.order_type {
        OrderType::Return | OrderType::StockIn => {
            match change(store, skus, order.warehouse_id, items, OrderType::StockOut) {
                Result::Ok(()) => Result::Ok(true),
                Result::Err(e) => Result::Err(e),
            }
        },
        OrderType::StockOut => {
            match change(store, skus, order.warehouse_id, items, OrderType::StockIn) {
                Result::Ok(()) => Result::Ok(true),
                Result::Err(e) => Result::Err(e),
            }
        },
        OrderType::Exchange => {
            let n = items.len();
            let mut flipped: Vec<OrderItem> = Vec::new();
            let mut i: usize = 0;
            while i < n
                invariant
                    n == items@.len(),
                    i <= n,
                    flipped@.len() == i,
                    forall|j: int| 0 <= j < i ==> #[trigger] flipped@[j] == flip_item(items@[j]),
                decreases n - i,
            {
                let it = items[i];
                flipped.push(
                    OrderItem {
                        sku_id: it.sku_id,
                        quantity: it.quantity,
                        price: it.price,
                        exchanged: !it.exchanged,
                    },
                );
                i = i + 1;
            }
            proof {
                assert(flipped@ =~= flip_items(items@));
            }
            match change(store, skus, order.warehouse_id, &flipped, OrderType::Exchange) {
                Result::Ok(()) => Result::Ok(true),
                Result::Err(e) => Result::Err(e),
            }
        },
        OrderType::Calibration => {
            let n = items.len();
            let mut scope_skus: Vec<i64> = Vec::new();
            let mut i: usize = 0;
            while i < n
                invariant
                    n == items@.len(),
                    i <= n,
                    scope_skus@.len() == i,
                    forall|j: int| 0 <= j < i ==> #[trigger] scope_skus@[j] == items@[j].sku_id,
                decreases n - i,
            {
                scope_skus.push(items[i].sku_id);
                i = i + 1;
            }
            proof {
                assert(scope_skus@ =~= sku_ids(items_of(*order)));
            }
            let scope_w: Vec<i64> = vec![order.warehouse_id];
            proof {
                assert(scope_w@ =~= seq![order.warehouse_id]);
            }
            match recalc_all(
                store,
                skus,
                orders,
                Option::Some(&scope_w),
                Option::Some(&scope_skus),
                Option::Some(order),
                bus,
            ) {
                Result::Ok(()) => Result::Ok(true),
                Result::Err(e) => Result::Err(e),
            }
        },
        OrderType::CalibrationStrict => {
            let scope_w: Vec<i64> = vec![order.warehouse_id];
            proof {
                assert(scope_w@ =~= seq![order.warehouse_id]);
            }
            match recalc_all(
                store,
                skus,
                orders,
                Option::Some(&scope_w),
                Option::None,
                Option::Some(order),
                bus,
            ) {
                Result::Ok(()) => Result::Ok(true),
                Result::Err(e) => Result::Err(e),
            }
        },
        OrderType::Verification | OrderType::VerificationStrict => Result::Ok(true),
    }
}

} // verus!
