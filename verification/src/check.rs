//! The availability checker: validates an order's feasibility against
//! the persisted store without writing anything.
//!
//! Items are first aggregated by sku (summing the quantities of the
//! non-exchanged items, keeping first-occurrence order), so a repeated
//! sku is never double-counted.  The whole result is pinned down by
//! `spec_check_full`; fast mode returns the one-element prefix of it.

use vstd::prelude::*;
use vstd::seq_lib::*;

use crate::inventory::Inventory;
use crate::order::Order;
use crate::order::OrderItem;
use crate::order::OrderType;

verus! {

/// One violation: the sku, what the order requires of it, and what the
/// store actually held.
#[derive(Clone, Copy, Debug, PartialEq, Eq, Structural)]
pub struct ItemNotAvailable {
    pub sku_id: i64,
    pub require_quantity: i64,
    pub actual_quantity: i64,
}

impl View for ItemNotAvailable {
    type V = (int, int, int);

    open spec fn view(&self) -> (int, int, int) {
        (self.sku_id as int, self.require_quantity as int, self.actual_quantity as int)
    }
}

/// Outcome of a check; empty means the order passes.
#[derive(Clone, Debug)]
pub struct CheckOrderResult {
    pub items_not_available: Vec<ItemNotAvailable>,
}

impl View for CheckOrderResult {
    type V = Seq<(int, int, int)>;

    open spec fn view(&self) -> Seq<(int, int, int)> {
        self.items_not_available@.map_values(|x: ItemNotAvailable| x@)
    }
}

/// The skus of the non-exchanged items, in first-occurrence order,
/// without repetition.
pub open spec fn agg_skus(items: Seq<OrderItem>) -> Seq<int>
    decreases items.len(),
{
    if items.len() == 0 {
        Seq::empty()
    } else {
        let pre = agg_skus(items.drop_last());
        let it = items.last();
        if it.exchanged || pre.contains(it.sku_id as int) {
            pre
        } else {
            pre.push(it.sku_id as int)
        }
    }
}

/// Total quantity the non-exchanged items require of one sku.
pub open spec fn agg_total(items: Seq<OrderItem>, sku: int) -> int
    decreases items.len(),
{
    if items.len() == 0 {
        0
    } else {
        agg_total(items.drop_last(), sku) + if !items.last().exchanged && items.last().sku_id == sku {
            items.last().quantity as int
        } else {
            0
        }
    }
}

/// Every item quantity is nonnegative.
pub open spec fn items_nonneg(items: Seq<OrderItem>) -> bool {
    forall|i: int| 0 <= i < items.len() ==> (#[trigger] items[i]).quantity >= 0
}

/// The aggregated totals stay within the machine integer.
pub open spec fn agg_fits(items: Seq<OrderItem>) -> bool {
    forall|sku: int| #[trigger] agg_total(items, sku) <= i64::MAX
}

/// The quantity the store holds under a key, an absent row reading as
/// zero.
pub open spec fn qty_or_zero(m: Map<(int, int), (int, int)>, w: int, sku: int) -> int {
    if m.contains_key((w, sku)) {
        m[(w, sku)].1
    } else {
        0
    }
}

/// Violations of the per-sku requirement scan, in aggregation order.
/// With `eq_mode` the store must hold the requirement exactly
/// (Verification); without it the requirement may not exceed the store
/// (StockOut, Exchange).
pub open spec fn required_violations(
    skus: Seq<int>,
    items: Seq<OrderItem>,
    m: Map<(int, int), (int, int)>,
    w: int,
    eq_mode: bool,
) -> Seq<(int, int, int)>
    decreases skus.len(),
{
    if skus.len() == 0 {
        Seq::empty()
    } else {
        let pre = required_violations(skus.drop_last(), items, m, w, eq_mode);
        let sku = skus.last();
        let req = agg_total(items, sku);
        let actual = qty_or_zero(m, w, sku);
        let bad = if eq_mode {
            actual != req
        } else {
            actual < req
        };
        if bad {
            pre.push((sku, req, actual))
        } else {
            pre
        }
    }
}

/// Violations of the strict closure scan: every store row of the
/// warehouse whose sku the order does not list must be zero.  Results
/// come in storage order, with a required quantity of zero.
pub open spec fn closure_violations(
    rows: Seq<crate::inventory::InventoryProduct>,
    w: int,
    listed: Seq<int>,
) -> Seq<(int, int, int)>
    decreases rows.len(),
{
    if rows.len() == 0 {
        Seq::empty()
    } else {
        let pre = closure_violations(rows.drop_last(), w, listed);
        let row = rows.last();
        if row.warehouse_id == w && !listed.contains(row.sku_id as int) && row.quantity != 0 {
            pre.push((row.sku_id as int, 0, row.quantity as int))
        } else {
            pre
        }
    }
}

/// The full (non-fast) check result.  Record orders and orders without
/// items pass; StockIn, Return and the calibrations have no stock
/// precondition; StockOut and Exchange demand availability; the
/// verifications demand exact equality, the strict one also an empty
/// remainder of the warehouse.
pub open spec fn spec_check_full(order: Order, store: Inventory) -> Seq<(int, int, int)> {
    if order.is_record {
        Seq::empty()
    } else {
        match order.items {
            Option::None => Seq::empty(),
            Option::Some(items_vec) => {
                let items = items_vec@;
                let skus = agg_skus(items);
                let m = store@;
                let w = order.warehouse_id as int;
                match order.order_type {
                    OrderType::StockOut | OrderType::Exchange => required_violations(
                        skus,
                        items,
                        m,
                        w,
                        false,
                    ),
                    OrderType::Verification => required_violations(skus, items, m, w, true),
                    OrderType::VerificationStrict => required_violations(skus, items, m, w, true)
                        + closure_violations(store.rows_seq(), w, skus),
                    _ => Seq::empty(),
                }
            },
        }
    }
}

/// What a check may assume of an order: item quantities are nonnegative
/// and their per-sku sums fit the machine integer.
pub open spec fn check_pre(order: Order) -> bool {
    match order.items {
        Option::None => true,
        Option::Some(items_vec) => items_nonneg(items_vec@) && agg_fits(items_vec@),
    }
}

proof fn lemma_agg_total_nonneg(items: Seq<OrderItem>, sku: int)
    requires
        items_nonneg(items),
    ensures
        agg_total(items, sku) >= 0,
    decreases items.len(),
{
    if items.len() > 0 {
        assert(items_nonneg(items.drop_last())) by {
            assert forall|i: int| 0 <= i < items.drop_last().len() implies (
            #[trigger] items.drop_last()[i]).quantity >= 0 by {
                assert(items.drop_last()[i] == items[i]);
            }
        }
        lemma_agg_total_nonneg(items.drop_last(), sku);
        assert(items[items.len() - 1].quantity >= 0);
    }
}

proof fn lemma_agg_total_prefix_le(items: Seq<OrderItem>, i: int, sku: int)
    requires
        items_nonneg(items),
        0 <= i <= items.len(),
    ensures
        agg_total(items.take(i), sku) <= agg_total(items, sku),
    decreases items.len() - i,
{
    if i == items.len() {
        assert(items.take(i) == items);
    } else {
        lemma_agg_total_prefix_le(items, i + 1, sku);
        assert(items.take(i + 1).drop_last() == items.take(i));
        assert(items.take(i + 1).last() == items[i]);
        assert(items[i].quantity >= 0);
    }
}

proof fn lemma_required_prefix(
    skus: Seq<int>,
    j: int,
    items: Seq<OrderItem>,
    m: Map<(int, int), (int, int)>,
    w: int,
    eq_mode: bool,
)
    requires
        0 <= j <= skus.len(),
    ensures
        required_violations(skus.take(j), items, m, w, eq_mode).is_prefix_of(
            required_violations(skus, items, m, w, eq_mode),
        ),
    decreases skus.len() - j,
{
    if j == skus.len() {
        assert(skus.take(j) == skus);
    } else {
        lemma_required_prefix(skus, j + 1, items, m, w, eq_mode);
        assert(skus.take(j + 1).drop_last() == skus.take(j));
        assert(skus.take(j + 1).last() == skus[j]);
    }
}

proof fn lemma_closure_prefix(
    rows: Seq<crate::inventory::InventoryProduct>,
    j: int,
    w: int,
    listed: Seq<int>,
)
    requires
        0 <= j <= rows.len(),
    ensures
        closure_violations(rows.take(j), w, listed).is_prefix_of(
            closure_violations(rows, w, listed),
        ),
    decreases rows.len() - j,
{
    if j == rows.len() {
        assert(rows.take(j) == rows);
    } else {
        lemma_closure_prefix(rows, j + 1, w, listed);
        assert(rows.take(j + 1).drop_last() == rows.take(j));
        assert(rows.take(j + 1).last() == rows[j]);
    }
}

fn find_pair(v: &Vec<(i64, i64)>, sku: i64) -> (r: Option<usize>)
    ensures
        match r {
            Option::Some(j) => j < v@.len() && v@[j as int].0 == sku,
            Option::None => forall|k: int| 0 <= k < v@.len() ==> (#[trigger] v@[k]).0 != sku,
        },
{
    let n = v.len();
    let mut j: usize = 0;
    while j < n
        invariant
            n == v@.len(),
            j <= n,
            forall|k: int| 0 <= k < j ==> (#[trigger] v@[k]).0 != sku,
        decreases n - j,
    {
        if v[j].0 == sku {
            return Option::Some(j);
        }
        j = j + 1;
    }
    Option::None
}

/// Aggregate the non-exchanged items by sku: pairs of (sku, required
/// total), in first-occurrence order.
fn aggregate(items: &Vec<OrderItem>) -> (r: Vec<(i64, i64)>)
    requires
        items_nonneg(items@),
        agg_fits(items@),
    ensures
        r@.len() == agg_skus(items@).len(),
        forall|j: int|
            0 <= j < r@.len() ==> (#[trigger] r@[j]).0 as int == agg_skus(items@)[j] && r@[j].1
                as int == agg_total(items@, agg_skus(items@)[j]),
{
    let ghost gitems = items@;
    let n = items.len();
    let mut out: Vec<(i64, i64)> = Vec::new();
    let mut i: usize = 0;
    while i < n
        invariant
            gitems == items@,
            items_nonneg(gitems),
            agg_fits(gitems),
            n == gitems.len(),
            i <= n,
            out@.len() == agg_skus(gitems.take(i as int)).len(),
            forall|j: int|
                0 <= j < out@.len() ==> (#[trigger] out@[j]).0 as int == agg_skus(
                    gitems.take(i as int),
                )[j] && out@[j].1 as int == agg_total(gitems.take(i as int), agg_skus(
                    gitems.take(i as int),
                )[j]),
        decreases n - i,
    {
        let ghost pre = gitems.take(i as int);
        let ghost cur = gitems.take(i as int + 1);
        proof {
            assert(cur.drop_last() == pre);
            assert(cur.last() == gitems[i as int]);
        }
        let item = items[i];
        if !item.exchanged {
            let ghost snap = out@;
            proof {
                lemma_agg_total_nonneg(gitems, item.sku_id as int);
                assert forall|sku: int| #[trigger] agg_total(cur, sku) == agg_total(pre, sku) + (
                if item.sku_id as int == sku {
                    item.quantity as int
                } else {
                    0
                }) by {}
                assert(items_nonneg(pre)) by {
                    assert forall|t: int| 0 <= t < pre.len() implies (
                    #[trigger] pre[t]).quantity >= 0 by {
                        assert(pre[t] == gitems[t]);
                    }
                }
            }
            match find_pair(&out, item.sku_id) {
                Option::Some(j) => {
                    proof {
                        // the sku is already aggregated: the key list is
                        // unchanged, only its total grows
                        assert(agg_skus(pre).contains(item.sku_id as int)) by {
                            assert(agg_skus(pre)[j as int] == snap[j as int].0 as int);
                        }
                        assert(agg_skus(cur) == agg_skus(pre));
                        assert(snap[j as int].1 as int == agg_total(pre, item.sku_id as int));
                        lemma_agg_total_prefix_le(gitems, i as int + 1, item.sku_id as int);
                        lemma_agg_total_nonneg(cur, item.sku_id as int);
                        lemma_agg_total_nonneg(pre, item.sku_id as int);
                        assert(agg_total(cur, item.sku_id as int) <= i64::MAX);
                    }
                    let old_pair = out[j];
                    let new_total = old_pair.1 + item.quantity;
                    out.set(j, (old_pair.0, new_total));
                    proof {
                        assert forall|t: int| 0 <= t < out@.len() implies (
                        #[trigger] out@[t]).0 as int == agg_skus(cur)[t] && out@[t].1 as int
                            == agg_total(cur, agg_skus(cur)[t]) by {
                            if t != j as int {
                                assert(out@[t] == snap[t]);
                                // a different slot holds a different sku
                                assert(agg_skus(pre)[t] != item.sku_id as int) by {
                                    if agg_skus(pre)[t] == item.sku_id as int {
                                        lemma_agg_skus_distinct(pre);
                                        assert(agg_skus(pre)[t] == agg_skus(pre)[j as int]);
                                        assert(false);
                                    }
                                }
                            }
                        }
                    }
                },
                Option::None => {
                    proof {
                        assert(!agg_skus(pre).contains(item.sku_id as int)) by {
                            if agg_skus(pre).contains(item.sku_id as int) {
                                let t = choose|t: int|
                                    0 <= t < agg_skus(pre).len() && agg_skus(pre)[t] == item.sku_id as int;
                                assert(snap[t].0 as int == item.sku_id as int);
                                assert(false);
                            }
                        }
                        assert(agg_skus(cur) == agg_skus(pre).push(item.sku_id as int));
                        lemma_agg_total_zero_when_unlisted(pre, item.sku_id as int);
                    }
                    out.push((item.sku_id, item.quantity));
                    proof {
                        assert forall|t: int| 0 <= t < out@.len() implies (
                        #[trigger] out@[t]).0 as int == agg_skus(cur)[t] && out@[t].1 as int
                            == agg_total(cur, agg_skus(cur)[t]) by {
                            if t < out@.len() - 1 {
                                assert(out@[t] == snap[t]);
                                assert(agg_skus(cur)[t] == agg_skus(pre)[t]);
                                assert(agg_skus(pre)[t] != item.sku_id as int) by {
                                    lemma_agg_skus_distinct(pre);
                                    if agg_skus(pre)[t] == item.sku_id as int {
                                        assert(agg_skus(pre).contains(item.sku_id as int));
                                        assert(false);
                                    }
                                }
                            }
                        }
                    }
                },
            }
        } else {
            proof {
                assert(agg_skus(cur) == agg_skus(pre));
                assert forall|sku: int| #[trigger] agg_total(cur, sku) == agg_total(pre, sku) by {}
            }
        }
        i = i + 1;
    }
    proof {
        assert(gitems.take(n as int) == gitems);
    }
    out
}

/// The views of a violation list.
pub open spec fn ina_views(s: Seq<ItemNotAvailable>) -> Seq<(int, int, int)> {
    s.map_values(|x: ItemNotAvailable| x@)
}

/// Correspondence between an executable aggregation and the
/// specification-level one.
spec fn agg_matches(agg: Seq<(i64, i64)>, items: Seq<OrderItem>) -> bool {
    &&& agg.len() == agg_skus(items).len()
    &&& forall|j: int|
        0 <= j < agg.len() ==> (#[trigger] agg[j]).0 as int == agg_skus(items)[j] && agg[j].1
            as int == agg_total(items, agg_skus(items)[j])
}

fn scan_required(
    agg: &Vec<(i64, i64)>,
    Ghost(items): Ghost<Seq<OrderItem>>,
    store: &Inventory,
    warehouse_id: i64,
    eq_mode: bool,
    fast_check: bool,
) -> (r: (Vec<ItemNotAvailable>, bool))
    requires
        store.wf(),
        agg_matches(agg@, items),
    ensures
        ({
            let full = required_violations(
                agg_skus(items),
                items,
                store@,
                warehouse_id as int,
                eq_mode,
            );
            &&& (!fast_check || full.len() == 0) ==> ina_views(r.0@) == full && r.1 == false
            &&& (fast_check && full.len() > 0) ==> ina_views(r.0@) == seq![full[0]] && r.1 == true
        }),
{
    let ghost skus = agg_skus(items);
    let ghost m = store@;
    let ghost w = warehouse_id as int;
    let n = agg.len();
    let mut out: Vec<ItemNotAvailable> = Vec::new();
    let mut i: usize = 0;
    while i < n
        invariant
            store.wf(),
            agg_matches(agg@, items),
            m == store@,
            w == warehouse_id as int,
            skus == agg_skus(items),
            n == agg@.len(),
            i <= n,
            ina_views(out@) == required_violations(skus.take(i as int), items, m, w, eq_mode),
            fast_check ==> out@.len() == 0,
        decreases n - i,
    {
        let ghost snap = out@;
        proof {
            assert(skus.take(i as int + 1).drop_last() == skus.take(i as int));
            assert(skus.take(i as int + 1).last() == skus[i as int]);
        }
        let pair = agg[i];
        let sku = pair.0;
        let req = pair.1;
        let actual = match store.get(warehouse_id, sku) {
            Option::Some(p) => p.quantity,
            Option::None => 0,
        };
        proof {
            assert(actual as int == qty_or_zero(m, w, sku as int));
        }
        let bad = if eq_mode {
            actual != req
        } else {
            actual < req
        };
        if bad {
            let v = ItemNotAvailable { sku_id: sku, require_quantity: req, actual_quantity: actual };
            out.push(v);
            proof {
                assert(ina_views(out@) =~= ina_views(snap).push(v@));
            }
            if fast_check {
                proof {
                    let full = required_violations(skus, items, m, w, eq_mode);
                    lemma_required_prefix(skus, i as int + 1, items, m, w, eq_mode);
                    let part = required_violations(
                        skus.take(i as int + 1),
                        items,
                        m,
                        w,
                        eq_mode,
                    );
                    assert(part.len() == 1 && part[0] == v@);
                    assert(full[0] == v@);
                    assert(ina_views(out@) =~= seq![full[0]]);
                }
                return (out, true);
            }
        }
        i = i + 1;
    }
    proof {
        assert(skus.take(n as int) == skus);
    }
    (out, false)
}

fn scan_closure(
    out_in: Vec<ItemNotAvailable>,
    agg: &Vec<(i64, i64)>,
    Ghost(items): Ghost<Seq<OrderItem>>,
    store: &Inventory,
    warehouse_id: i64,
    fast_check: bool,
) -> (r: Vec<ItemNotAvailable>)
    requires
        store.wf(),
        agg_matches(agg@, items),
        fast_check ==> out_in@.len() == 0,
    ensures
        ({
            let closure = closure_violations(
                store.rows_seq(),
                warehouse_id as int,
                agg_skus(items),
            );
            &&& (!fast_check) ==> ina_views(r@) == ina_views(out_in@) + closure
            &&& (fast_check && closure.len() == 0) ==> ina_views(r@) == ina_views(out_in@)
            &&& (fast_check && closure.len() > 0) ==> ina_views(r@) == seq![closure[0]]
        }),
{
    let ghost skus = agg_skus(items);
    let ghost w = warehouse_id as int;
    let ghost rows = store.rows_seq();
    let mut out = out_in;
    let all = store.all_rows();
    let n = all.len();
    let mut i: usize = 0;
    while i < n
        invariant
            store.wf(),
            agg_matches(agg@, items),
            w == warehouse_id as int,
            skus == agg_skus(items),
            rows == store.rows_seq(),
            all@ == rows,
            n == rows.len(),
            i <= n,
            ina_views(out@) == ina_views(out_in@) + closure_violations(
                rows.take(i as int),
                w,
                skus,
            ),
            fast_check ==> out@.len() == 0,
        decreases n - i,
    {
        let ghost snap = out@;
        proof {
            assert(rows.take(i as int + 1).drop_last() == rows.take(i as int));
            assert(rows.take(i as int + 1).last() == rows[i as int]);
        }
        let row = all[i];
        if row.warehouse_id == warehouse_id && row.quantity != 0 {
            let listed = match find_pair(agg, row.sku_id) {
                Option::Some(_) => true,
                Option::None => false,
            };
            proof {
                if listed {
                    let j = choose|j: int| 0 <= j < agg@.len() && agg@[j].0 == row.sku_id;
                    assert(skus[j] == row.sku_id as int);
                    assert(skus.contains(row.sku_id as int));
                } else {
                    if skus.contains(row.sku_id as int) {
                        let t = choose|t: int| 0 <= t < skus.len() && skus[t] == row.sku_id as int;
                        assert(agg@[t].0 == row.sku_id);
                        assert(false);
                    }
                }
            }
            if !listed {
                let v = ItemNotAvailable {
                    sku_id: row.sku_id,
                    require_quantity: 0,
                    actual_quantity: row.quantity,
                };
                out.push(v);
                proof {
                    assert(ina_views(out@) =~= ina_views(snap).push(v@));
                }
                if fast_check {
                    proof {
                        let closure = closure_violations(rows, w, skus);
                        lemma_closure_prefix(rows, i as int + 1, w, skus);
                        let part = closure_violations(rows.take(i as int + 1), w, skus);
                        assert(ina_views(out_in@) =~= Seq::<(int, int, int)>::empty());
                        assert(part.len() == 1 && part[0] == v@);
                        assert(closure[0] == v@);
                        assert(ina_views(out@) =~= seq![closure[0]]);
                    }
                    return out;
                }
            }
        }
        i = i + 1;
    }
    proof {
        assert(rows.take(n as int) == rows);
        if fast_check {
            assert(ina_views(out_in@) =~= Seq::<(int, int, int)>::empty());
            assert(ina_views(out@) =~= ina_views(out_in@));
        }
    }
    out
}

/// Validate an order against the persisted store.  Nothing is written;
/// the result lists every violation (or, in fast mode, stops at the
/// first).
pub fn check(order: &Order, fast_check: bool, store: &Inventory) -> (r: CheckOrderResult)
    requires
        store.wf(),
        check_pre(*order),
    ensures
        !fast_check ==> r@ == spec_check_full(*order, *store),
        fast_check && spec_check_full(*order, *store).len() == 0 ==> r@ == spec_check_full(
            *order,
            *store,
        ),
        fast_check && spec_check_full(*order, *store).len() > 0 ==> r@ == seq![
            spec_check_full(*order, *store)[0],
        ],
{
    let ghost full = spec_check_full(*order, *store);
    if order.is_record {
        let out: Vec<ItemNotAvailable> = Vec::new();
        proof {
            assert(ina_views(out@) =~= full);
        }
        return CheckOrderResult { items_not_available: out };
    }
    let items = match &order.items {
        Option::Some(v) => v,
        Option::None => {
            let out: Vec<ItemNotAvailable> = Vec::new();
            proof {
                assert(ina_views(out@) =~= full);
            }
            return CheckOrderResult { items_not_available: out };
        },
    };
    let agg = aggregate(items);
    let ghost skus = agg_skus(items@);
    match order.order_type {
        OrderType::StockOut | OrderType::Exchange => {
            let (out, _) = scan_required(
                &agg,
                Ghost(items@),
                store,
                order.warehouse_id,
                false,
                fast_check,
            );
            CheckOrderResult { items_not_available: out }
        },
        OrderType::Verification => {
            let (out, _) = scan_required(
                &agg,
                Ghost(items@),
                store,
                order.warehouse_id,
                true,
                fast_check,
            );
            CheckOrderResult { items_not_available: out }
        },
        OrderType::VerificationStrict => {
            let ghost reqv = required_violations(
                skus,
                items@,
                store@,
                order.warehouse_id as int,
                true,
            );
            let ghost closure = closure_violations(
                store.rows_seq(),
                order.warehouse_id as int,
                skus,
            );
            let (out, stopped) = scan_required(
                &agg,
                Ghost(items@),
                store,
                order.warehouse_id,
                true,
                fast_check,
            );
            if fast_check && stopped {
                proof {
                    assert(full == reqv + closure);
                    assert(reqv.len() > 0);
                    assert(full[0] == reqv[0]);
                }
                return CheckOrderResult { items_not_available: out };
            }
            let out2 = scan_closure(
                out,
                &agg,
                Ghost(items@),
                store,
                order.warehouse_id,
                fast_check,
            );
            proof {
                assert(full == reqv + closure);
                if !fast_check {
                    assert(ina_views(out2@) =~= full);
                } else {
                    assert(reqv.len() == 0);
                    assert(ina_views(out2@).len() == 0 ==> ina_views(out2@) =~= full);
                    if closure.len() > 0 {
                        assert(full[0] == closure[0]);
                    } else {
                        assert(full =~= Seq::<(int, int, int)>::empty());
                    }
                }
            }
            CheckOrderResult { items_not_available: out2 }
        },
        _ => {
            let out: Vec<ItemNotAvailable> = Vec::new();
            proof {
                assert(ina_views(out@) =~= full);
            }
            CheckOrderResult { items_not_available: out }
        },
    }
}

/// The skus in an aggregation never repeat.
proof fn lemma_agg_skus_distinct(items: Seq<OrderItem>)
    ensures
        forall|a: int, b: int|
            0 <= a < b < agg_skus(items).len() ==> #[trigger] agg_skus(items)[a]
                != #[trigger] agg_skus(items)[b],
    decreases items.len(),
{
    if items.len() > 0 {
        lemma_agg_skus_distinct(items.drop_last());
        let pre = agg_skus(items.drop_last());
        let it = items.last();
        if !(it.exchanged || pre.contains(it.sku_id as int)) {
            assert forall|a: int, b: int|
                0 <= a < b < agg_skus(items).len() implies #[trigger] agg_skus(items)[a]
                != #[trigger] agg_skus(items)[b] by {
                if b == agg_skus(items).len() - 1 {
                    if agg_skus(items)[a] == it.sku_id as int {
                        assert(pre[a] == it.sku_id as int);
                        assert(pre.contains(it.sku_id as int));
                    }
                }
            }
        }
    }
}

/// A sku absent from the aggregation key list has a zero total.
proof fn lemma_agg_total_zero_when_unlisted(items: Seq<OrderItem>, sku: int)
    requires
        !agg_skus(items).contains(sku),
    ensures
        agg_total(items, sku) == 0,
    decreases items.len(),
{
    if items.len() > 0 {
        let pre = agg_skus(items.drop_last());
        let it = items.last();
        assert(!pre.contains(sku)) by {
            if pre.contains(sku) {
                let t = choose|t: int| 0 <= t < pre.len() && pre[t] == sku;
                if it.exchanged || pre.contains(it.sku_id as int) {
                    assert(agg_skus(items)[t] == sku);
                } else {
                    assert(agg_skus(items)[t] == sku);
                }
            }
        }
        lemma_agg_total_zero_when_unlisted(items.drop_last(), sku);
        if !it.exchanged && it.sku_id as int == sku {
            assert(pre.contains(it.sku_id as int) || agg_skus(items).contains(sku)) by {
                if !pre.contains(it.sku_id as int) {
                    assert(agg_skus(items).last() == sku);
                }
            }
        }
    }
}

} // verus!
