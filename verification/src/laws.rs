//! Engine-wide laws, proved once and for all over the specification
//! functions the executable contracts are stated in.

use vstd::prelude::*;

use crate::check::agg_skus;
use crate::check::agg_total;
use crate::check::closure_violations;
use crate::check::qty_or_zero;
use crate::check::required_violations;
use crate::check::spec_check_full;
use crate::inventory::zero_scope_map;
use crate::inventory::InventoryProduct;
use crate::mutate::change_fold;
use crate::mutate::item_filtered;
use crate::mutate::spec_change;
use crate::order::spec_calc_quantity;
use crate::order::Order;
use crate::order::OrderItem;
use crate::order::OrderType;
use crate::recalc::acc_orders;
use crate::recalc::recalc_map;

verus! {

/// The quantity a store map holds under a key, an absent row reading
/// as zero.
pub open spec fn map_qty(m: Map<(int, int), (int, int)>, k: (int, int)) -> int {
    if m.contains_key(k) {
        m[k].1
    } else {
        0
    }
}

/// Calibration absoluteness: a Calibration order item sets the sku's
/// quantity to the item's quantity, whatever the store held before.
pub proof fn lemma_calibration_absolute(
    m: Map<(int, int), (int, int)>,
    cats: Map<int, int>,
    warehouse_id: i64,
    item: OrderItem,
)
    requires
        !item.exchanged,
    ensures
        map_qty(
            spec_change(m, cats, warehouse_id, seq![item], OrderType::Calibration),
            (warehouse_id as int, item.sku_id as int),
        ) == item.quantity,
{
    let items = seq![item];
    assert(items.drop_last() =~= Seq::<OrderItem>::empty());
    assert(items.last() == item);
}

/// A fold of items none of which names the key leaves the key's entry
/// untouched.
proof fn lemma_fold_frame(
    m: Map<(int, int), (int, int)>,
    cats: Map<int, int>,
    w: int,
    items: Seq<OrderItem>,
    order_type: OrderType,
    k: (int, int),
)
    requires
        forall|i: int| 0 <= i < items.len() ==> (w, (#[trigger] items[i]).sku_id as int) != k,
    ensures
        change_fold(m, cats, w, items, order_type).contains_key(k) == m.contains_key(k),
        m.contains_key(k) ==> change_fold(m, cats, w, items, order_type)[k] == m[k],
    decreases items.len(),
{
    if items.len() > 0 {
        assert forall|i: int|
            0 <= i < items.drop_last().len() implies (
        w, (#[trigger] items.drop_last()[i]).sku_id as int) != k by {
            assert(items.drop_last()[i] == items[i]);
        }
        lemma_fold_frame(m, cats, w, items.drop_last(), order_type, k);
        assert((w, items.last().sku_id as int) != k);
    }
}

/// CalibrationStrict completeness: after a CalibrationStrict mutation,
/// every row of the warehouse whose sku the order did not touch reads
/// zero.
pub proof fn lemma_calibration_strict_completeness(
    m: Map<(int, int), (int, int)>,
    cats: Map<int, int>,
    warehouse_id: i64,
    items: Seq<OrderItem>,
    k: (int, int),
)
    requires
        m.contains_key(k),
        k.0 == warehouse_id as int,
        forall|i: int| 0 <= i < items.len() ==> (#[trigger] items[i]).sku_id as int != k.1,
    ensures
        spec_change(m, cats, warehouse_id, items, OrderType::CalibrationStrict).contains_key(k),
        spec_change(m, cats, warehouse_id, items, OrderType::CalibrationStrict)[k].1 == 0,
{
    let base = zero_scope_map(m, Option::Some(seq![warehouse_id]), Option::None);
    assert(seq![warehouse_id].contains(k.0 as i64)) by {
        assert(seq![warehouse_id][0] == warehouse_id);
    }
    assert(base.contains_key(k) && base[k].1 == 0);
    assert forall|i: int| 0 <= i < items.len() implies (
    warehouse_id as int, (#[trigger] items[i]).sku_id as int) != k by {}
    lemma_fold_frame(base, cats, warehouse_id as int, items, OrderType::CalibrationStrict, k);
}

/// Once the items past position `i` leave a key alone, the fold's
/// entry there is settled by the first `i + 1` items.
proof fn lemma_fold_settled_at(
    m: Map<(int, int), (int, int)>,
    cats: Map<int, int>,
    w: int,
    items: Seq<OrderItem>,
    order_type: OrderType,
    i: int,
    k: (int, int),
)
    requires
        0 <= i < items.len(),
        forall|j: int| i < j < items.len() ==> (w, (#[trigger] items[j]).sku_id as int) != k,
    ensures
        change_fold(m, cats, w, items, order_type).contains_key(k) == change_fold(
            m,
            cats,
            w,
            items.take(i + 1),
            order_type,
        ).contains_key(k),
        change_fold(m, cats, w, items.take(i + 1), order_type).contains_key(k) ==> change_fold(
            m,
            cats,
            w,
            items,
            order_type,
        )[k] == change_fold(m, cats, w, items.take(i + 1), order_type)[k],
    decreases items.len() - i,
{
    if i == items.len() - 1 {
        assert(items.take(i + 1) == items);
    } else {
        assert forall|j: int|
            i < j < items.drop_last().len() implies (
        w, (#[trigger] items.drop_last()[j]).sku_id as int) != k by {
            assert(items.drop_last()[j] == items[j]);
        }
        lemma_fold_settled_at(m, cats, w, items.drop_last(), order_type, i, k);
        assert(items.drop_last().take(i + 1) == items.take(i + 1));
        assert((w, items.last().sku_id as int) != k);
    }
}

/// Calibration completeness for the listed skus: an item whose sku no
/// later item repeats ends the mutation at exactly its own quantity —
/// under either calibration type, the set is absolute.
pub proof fn lemma_calibration_listed_sku(
    m: Map<(int, int), (int, int)>,
    cats: Map<int, int>,
    warehouse_id: i64,
    items: Seq<OrderItem>,
    order_type: OrderType,
    i: int,
)
    requires
        order_type == OrderType::Calibration || order_type == OrderType::CalibrationStrict,
        0 <= i < items.len(),
        !items[i].exchanged,
        forall|j: int| i < j < items.len() ==> (#[trigger] items[j]).sku_id != items[i].sku_id,
    ensures
        spec_change(m, cats, warehouse_id, items, order_type).contains_key(
            (warehouse_id as int, items[i].sku_id as int),
        ),
        spec_change(m, cats, warehouse_id, items, order_type)[(
            warehouse_id as int,
            items[i].sku_id as int,
        )].1 == items[i].quantity,
{
    let w = warehouse_id as int;
    let k = (w, items[i].sku_id as int);
    let base = crate::mutate::change_base(m, warehouse_id, order_type);
    assert(items.take(i + 1).drop_last() == items.take(i));
    assert(items.take(i + 1).last() == items[i]);
    assert(!item_filtered(items[i], order_type));
    assert(spec_calc_quantity(
        {
            let pre = change_fold(base, cats, w, items.take(i), order_type);
            if pre.contains_key(k) {
                pre[k].1
            } else {
                0
            }
        },
        items[i],
        order_type,
    ) == items[i].quantity);
    assert forall|j: int| i < j < items.len() implies (
    w, (#[trigger] items[j]).sku_id as int) != k by {
        assert(items[j].sku_id != items[i].sku_id);
    }
    lemma_fold_settled_at(base, cats, w, items, order_type, i, k);
}

/// The net quantity an Exchange item list moves one sku by: the
/// exchanged legs add, the others subtract.
pub open spec fn exchange_delta(items: Seq<OrderItem>, sku: int) -> int
    decreases items.len(),
{
    if items.len() == 0 {
        0
    } else {
        exchange_delta(items.drop_last(), sku) + if items.last().sku_id as int == sku {
            if items.last().exchanged {
                items.last().quantity as int
            } else {
                -(items.last().quantity as int)
            }
        } else {
            0
        }
    }
}

proof fn lemma_exchange_fold_delta(
    m: Map<(int, int), (int, int)>,
    cats: Map<int, int>,
    w: int,
    items: Seq<OrderItem>,
    k: (int, int),
)
    ensures
        map_qty(change_fold(m, cats, w, items, OrderType::Exchange), k) == map_qty(m, k) + (
        if k.0 == w {
            exchange_delta(items, k.1)
        } else {
            0
        }),
    decreases items.len(),
{
    if items.len() > 0 {
        lemma_exchange_fold_delta(m, cats, w, items.drop_last(), k);
        let pre = change_fold(m, cats, w, items.drop_last(), OrderType::Exchange);
        let it = items.last();
        assert(!item_filtered(it, OrderType::Exchange));
        if (w, it.sku_id as int) == k {
            assert(spec_calc_quantity(map_qty(pre, k), it, OrderType::Exchange) == map_qty(pre, k)
                + (if it.exchanged {
                it.quantity as int
            } else {
                -(it.quantity as int)
            }));
        }
    }
}

proof fn lemma_flip_delta(items: Seq<OrderItem>, sku: int)
    ensures
        exchange_delta(crate::recalc::flip_items(items), sku) == -exchange_delta(items, sku),
    decreases items.len(),
{
    let flipped = crate::recalc::flip_items(items);
    if items.len() == 0 {
        assert(flipped.len() == 0);
    } else {
        assert(flipped.drop_last() =~= crate::recalc::flip_items(items.drop_last()));
        lemma_flip_delta(items.drop_last(), sku);
        assert(flipped.last() == crate::recalc::flip_item(items.last()));
    }
}

/// Exchange symmetry: applying an Exchange item list and then the same
/// list with every leg flipped returns every sku of the warehouse —
/// and every other row — to its prior quantity.
pub proof fn lemma_exchange_symmetry(
    m: Map<(int, int), (int, int)>,
    cats: Map<int, int>,
    warehouse_id: i64,
    items: Seq<OrderItem>,
    k: (int, int),
)
    ensures
        map_qty(
            spec_change(
                spec_change(m, cats, warehouse_id, items, OrderType::Exchange),
                cats,
                warehouse_id,
                crate::recalc::flip_items(items),
                OrderType::Exchange,
            ),
            k,
        ) == map_qty(m, k),
{
    let w = warehouse_id as int;
    let m1 = spec_change(m, cats, warehouse_id, items, OrderType::Exchange);
    lemma_exchange_fold_delta(m, cats, w, items, k);
    lemma_exchange_fold_delta(m1, cats, w, crate::recalc::flip_items(items), k);
    lemma_flip_delta(items, k.1);
}

/// The net quantity a delta item list moves one sku by: the sum of
/// the non-exchanged quantities.
pub open spec fn stock_delta(items: Seq<OrderItem>, sku: int) -> int
    decreases items.len(),
{
    if items.len() == 0 {
        0
    } else {
        stock_delta(items.drop_last(), sku) + if items.last().sku_id as int == sku
            && !items.last().exchanged {
            items.last().quantity as int
        } else {
            0
        }
    }
}

proof fn lemma_stock_fold_delta(
    m: Map<(int, int), (int, int)>,
    cats: Map<int, int>,
    w: int,
    items: Seq<OrderItem>,
    order_type: OrderType,
    k: (int, int),
)
    requires
        order_type == OrderType::StockIn || order_type == OrderType::Return || order_type
            == OrderType::StockOut,
    ensures
        map_qty(change_fold(m, cats, w, items, order_type), k) == map_qty(m, k) + (if k.0 == w {
            if order_type == OrderType::StockOut {
                -stock_delta(items, k.1)
            } else {
                stock_delta(items, k.1)
            }
        } else {
            0
        }),
    decreases items.len(),
{
    if items.len() > 0 {
        lemma_stock_fold_delta(m, cats, w, items.drop_last(), order_type, k);
    }
}

/// Delta/undo: a StockIn or Return item list followed by the same list
/// as a StockOut — the reversal an unguarded recall applies — returns
/// every sku to its prior quantity, and the other way round.
pub proof fn lemma_delta_undo(
    m: Map<(int, int), (int, int)>,
    cats: Map<int, int>,
    warehouse_id: i64,
    items: Seq<OrderItem>,
    forward: OrderType,
    k: (int, int),
)
    requires
        forward == OrderType::StockIn || forward == OrderType::Return || forward
            == OrderType::StockOut,
    ensures
        ({
            let reverse = if forward == OrderType::StockOut {
                OrderType::StockIn
            } else {
                OrderType::StockOut
            };
            map_qty(
                spec_change(
                    spec_change(m, cats, warehouse_id, items, forward),
                    cats,
                    warehouse_id,
                    items,
                    reverse,
                ),
                k,
            ) == map_qty(m, k)
        }),
{
    let w = warehouse_id as int;
    let reverse = if forward == OrderType::StockOut {
        OrderType::StockIn
    } else {
        OrderType::StockOut
    };
    let m1 = spec_change(m, cats, warehouse_id, items, forward);
    lemma_stock_fold_delta(m, cats, w, items, forward, k);
    lemma_stock_fold_delta(m1, cats, w, items, reverse, k);
}

/// Replay idempotence: running the full recalculation twice with the
/// same scope and history leaves exactly the state the first run
/// produced.
pub proof fn lemma_recalc_idempotent(
    m: Map<(int, int), (int, int)>,
    cats: Map<int, int>,
    orders: Seq<Order>,
    ws: Option<Seq<i64>>,
    ss: Option<Seq<i64>>,
    excl: Option<int>,
)
    ensures
        recalc_map(recalc_map(m, cats, orders, ws, ss, excl), cats, orders, ws, ss, excl)
            == recalc_map(m, cats, orders, ws, ss, excl),
{
    let r1 = recalc_map(m, cats, orders, ws, ss, excl);
    let r2 = recalc_map(r1, cats, orders, ws, ss, excl);
    let acc = acc_orders(orders, ws, excl);
    let z1 = zero_scope_map(m, ws, ss);
    let z2 = zero_scope_map(r1, ws, ss);
    assert forall|k: (int, int)| #[trigger] r2.contains_key(k) implies r1.contains_key(k) && r2[k]
        == r1[k] by {
        if acc.contains_key(k) {
        } else {
            assert(z2.contains_key(k) && r2[k] == z2[k]);
            assert(r1.contains_key(k) && r1[k] == z1[k]);
        }
    }
    assert forall|k: (int, int)| #[trigger] r1.contains_key(k) implies r2.contains_key(k) by {}
    assert(r2 =~= r1);
}

/// Verification-strict closure, passing case: an order whose aggregated
/// items match the persisted quantities exactly, in a warehouse where
/// every other row is zero, yields an empty check result.
pub proof fn lemma_verification_strict_pass(
    order: Order,
    store: crate::inventory::Inventory,
    items_vec: Vec<OrderItem>,
)
    requires
        !order.is_record,
        order.order_type == OrderType::VerificationStrict,
        order.items == Option::Some(items_vec),
        forall|s: int|
            agg_skus(items_vec@).contains(s) ==> agg_total(items_vec@, s) == qty_or_zero(
                store@,
                order.warehouse_id as int,
                s,
            ),
        forall|i: int|
            0 <= i < store.rows_seq().len() ==> ((#[trigger] store.rows_seq()[i]).warehouse_id
                != order.warehouse_id || agg_skus(items_vec@).contains(
                store.rows_seq()[i].sku_id as int,
            ) || store.rows_seq()[i].quantity == 0),
    ensures
        spec_check_full(order, store).len() == 0,
{
    lemma_required_empty(
        agg_skus(items_vec@),
        items_vec@,
        store@,
        order.warehouse_id as int,
    );
    lemma_closure_empty(store.rows_seq(), order.warehouse_id as int, agg_skus(items_vec@));
}

proof fn lemma_required_empty(
    skus: Seq<int>,
    items: Seq<OrderItem>,
    m: Map<(int, int), (int, int)>,
    w: int,
)
    requires
        forall|j: int| 0 <= j < skus.len() ==> agg_total(items, #[trigger] skus[j]) == qty_or_zero(
            m,
            w,
            skus[j],
        ),
    ensures
        required_violations(skus, items, m, w, true).len() == 0,
    decreases skus.len(),
{
    if skus.len() > 0 {
        assert forall|j: int| 0 <= j < skus.drop_last().len() implies agg_total(
            items,
            #[trigger] skus.drop_last()[j],
        ) == qty_or_zero(m, w, skus.drop_last()[j]) by {
            assert(skus.drop_last()[j] == skus[j]);
        }
        lemma_required_empty(skus.drop_last(), items, m, w);
        assert(skus.last() == skus[skus.len() - 1]);
    }
}

proof fn lemma_closure_empty(rows: Seq<InventoryProduct>, w: int, listed: Seq<int>)
    requires
        forall|i: int|
            0 <= i < rows.len() ==> ((#[trigger] rows[i]).warehouse_id as int != w
                || listed.contains(rows[i].sku_id as int) || rows[i].quantity == 0),
    ensures
        closure_violations(rows, w, listed).len() == 0,
    decreases rows.len(),
{
    if rows.len() > 0 {
        assert forall|i: int|
            0 <= i < rows.drop_last().len() implies ((
        #[trigger] rows.drop_last()[i]).warehouse_id as int != w || listed.contains(
            rows.drop_last()[i].sku_id as int,
        ) || rows.drop_last()[i].quantity == 0) by {
            assert(rows.drop_last()[i] == rows[i]);
        }
        lemma_closure_empty(rows.drop_last(), w, listed);
        assert(rows.last() == rows[rows.len() - 1]);
    }
}

/// Verification-strict closure, intruding case: with the aggregated
/// items matching exactly and a single unlisted nonzero row in the
/// warehouse, the full check yields exactly that one violation (and
/// fast mode, which takes the first, the same one).
pub proof fn lemma_verification_strict_one_intruder(
    order: Order,
    store: crate::inventory::Inventory,
    items_vec: Vec<OrderItem>,
    i: int,
)
    requires
        !order.is_record,
        order.order_type == OrderType::VerificationStrict,
        order.items == Option::Some(items_vec),
        forall|s: int|
            agg_skus(items_vec@).contains(s) ==> agg_total(items_vec@, s) == qty_or_zero(
                store@,
                order.warehouse_id as int,
                s,
            ),
        0 <= i < store.rows_seq().len(),
        store.rows_seq()[i].warehouse_id == order.warehouse_id,
        !agg_skus(items_vec@).contains(store.rows_seq()[i].sku_id as int),
        store.rows_seq()[i].quantity != 0,
        forall|j: int|
            0 <= j < store.rows_seq().len() && j != i ==> ((
            #[trigger] store.rows_seq()[j]).warehouse_id != order.warehouse_id || agg_skus(
                items_vec@,
            ).contains(store.rows_seq()[j].sku_id as int) || store.rows_seq()[j].quantity == 0),
    ensures
        spec_check_full(order, store) == seq![
            (
                store.rows_seq()[i].sku_id as int,
                0int,
                store.rows_seq()[i].quantity as int,
            ),
        ],
{
    let w = order.warehouse_id as int;
    let skus = agg_skus(items_vec@);
    lemma_required_empty(skus, items_vec@, store@, w);
    lemma_closure_single(store.rows_seq(), w, skus, i);
    assert(spec_check_full(order, store) =~= seq![
        (store.rows_seq()[i].sku_id as int, 0int, store.rows_seq()[i].quantity as int),
    ]);
}

proof fn lemma_closure_single(rows: Seq<InventoryProduct>, w: int, listed: Seq<int>, i: int)
    requires
        0 <= i < rows.len(),
        rows[i].warehouse_id as int == w,
        !listed.contains(rows[i].sku_id as int),
        rows[i].quantity != 0,
        forall|j: int|
            0 <= j < rows.len() && j != i ==> ((#[trigger] rows[j]).warehouse_id as int != w
                || listed.contains(rows[j].sku_id as int) || rows[j].quantity == 0),
    ensures
        closure_violations(rows, w, listed) == seq![
            (rows[i].sku_id as int, 0int, rows[i].quantity as int),
        ],
    decreases rows.len(),
{
    if i == rows.len() - 1 {
        assert forall|j: int|
            0 <= j < rows.drop_last().len() implies ((
        #[trigger] rows.drop_last()[j]).warehouse_id as int != w || listed.contains(
            rows.drop_last()[j].sku_id as int,
        ) || rows.drop_last()[j].quantity == 0) by {
            assert(rows.drop_last()[j] == rows[j]);
        }
        lemma_closure_empty(rows.drop_last(), w, listed);
        assert(rows.last() == rows[i]);
        assert(closure_violations(rows, w, listed) =~= seq![
            (rows[i].sku_id as int, 0int, rows[i].quantity as int),
        ]);
    } else {
        assert forall|j: int|
            0 <= j < rows.drop_last().len() && j != i implies ((
        #[trigger] rows.drop_last()[j]).warehouse_id as int != w || listed.contains(
            rows.drop_last()[j].sku_id as int,
        ) || rows.drop_last()[j].quantity == 0) by {
            assert(rows.drop_last()[j] == rows[j]);
        }
        assert(rows.drop_last()[i] == rows[i]);
        lemma_closure_single(rows.drop_last(), w, listed, i);
        assert(rows.last() == rows[rows.len() - 1]);
    }
}

} // verus!
