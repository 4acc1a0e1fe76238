//! The inventory mutator: commits an order's quantity deltas to the
//! persisted store.
//!
//! Items the exchanged-filter removes are skipped; every other item's
//! sku must resolve through the registry or the whole mutation fails
//! with nothing written.  The transform runs through the per-operation
//! overlay; touched keys are flushed at the end, inserting a row where
//! the first read found none and updating in place otherwise.

use vstd::prelude::*;

use crate::error::EngineError;
use crate::inventory::Inventory;
use crate::inventory::InventoryProduct;
use crate::inventory::zero_scope_map;
use crate::inventory::vec_contains_i64;
use crate::order::calc_quantity_by_order_type;
use crate::order::spec_calc_quantity;
use crate::order::OrderItem;
use crate::order::OrderType;
use crate::overlay::VirtualInventory;
use crate::overlay::VirtualInventoryProduct;
use crate::sku::SkuRegistry;

verus! {

/// True of an item the exchanged-filter removes before it reaches the
/// quantity transform: an exchanged item under any order type other
/// than Exchange.
pub open spec fn item_filtered(item: OrderItem, order_type: OrderType) -> bool {
    item.exchanged && order_type != OrderType::Exchange
}

/// One item's effect on the store map.  An existing row keeps its
/// category; a fresh row takes the registry's.
pub open spec fn apply_item_map(
    m: Map<(int, int), (int, int)>,
    cats: Map<int, int>,
    w: int,
    item: OrderItem,
    order_type: OrderType,
) -> Map<(int, int), (int, int)> {
    if item_filtered(item, order_type) {
        m
    } else {
        let k = (w, item.sku_id as int);
        let cur = if m.contains_key(k) {
            m[k].1
        } else {
            0
        };
        let cat = if m.contains_key(k) {
            m[k].0
        } else {
            cats[item.sku_id as int]
        };
        m.insert(k, (cat, spec_calc_quantity(cur, item, order_type)))
    }
}

/// The store map after a whole item list is applied, one item at a
/// time.
pub open spec fn change_fold(
    m: Map<(int, int), (int, int)>,
    cats: Map<int, int>,
    w: int,
    items: Seq<OrderItem>,
    order_type: OrderType,
) -> Map<(int, int), (int, int)>
    decreases items.len(),
{
    if items.len() == 0 {
        m
    } else {
        apply_item_map(
            change_fold(m, cats, w, items.drop_last(), order_type),
            cats,
            w,
            items.last(),
            order_type,
        )
    }
}

/// Every intermediate quantity of the fold stays within the machine
/// integer.
pub open spec fn change_in_range(
    m: Map<(int, int), (int, int)>,
    cats: Map<int, int>,
    w: int,
    items: Seq<OrderItem>,
    order_type: OrderType,
) -> bool
    decreases items.len(),
{
    if items.len() == 0 {
        true
    } else {
        let pre = change_fold(m, cats, w, items.drop_last(), order_type);
        let it = items.last();
        &&& change_in_range(m, cats, w, items.drop_last(), order_type)
        &&& (item_filtered(it, order_type) || {
            let k = (w, it.sku_id as int);
            let cur = if pre.contains_key(k) {
                pre[k].1
            } else {
                0
            };
            i64::MIN <= spec_calc_quantity(cur, it, order_type) <= i64::MAX
        })
    }
}

/// Every item the filter keeps resolves through the registry.
pub open spec fn skus_resolvable(
    items: Seq<OrderItem>,
    cats: Map<int, int>,
    order_type: OrderType,
) -> bool {
    forall|i: int|
        0 <= i < items.len() && !item_filtered(#[trigger] items[i], order_type)
            ==> cats.contains_key(items[i].sku_id as int)
}

/// The map a mutation starts from: CalibrationStrict first zeroes every
/// row of the warehouse, any other order type starts from the store as
/// it stands.
pub open spec fn change_base(
    m: Map<(int, int), (int, int)>,
    warehouse_id: i64,
    order_type: OrderType,
) -> Map<(int, int), (int, int)> {
    if order_type == OrderType::CalibrationStrict {
        zero_scope_map(m, Option::Some(seq![warehouse_id]), Option::None)
    } else {
        m
    }
}

/// The full effect of one mutation on the store map.
pub open spec fn spec_change(
    m: Map<(int, int), (int, int)>,
    cats: Map<int, int>,
    warehouse_id: i64,
    items: Seq<OrderItem>,
    order_type: OrderType,
) -> Map<(int, int), (int, int)> {
    change_fold(
        change_base(m, warehouse_id, order_type),
        cats,
        warehouse_id as int,
        items,
        order_type,
    )
}

pub proof fn lemma_change_in_range_prefix(
    m: Map<(int, int), (int, int)>,
    cats: Map<int, int>,
    w: int,
    items: Seq<OrderItem>,
    order_type: OrderType,
    i: int,
)
    requires
        change_in_range(m, cats, w, items, order_type),
        0 <= i <= items.len(),
    ensures
        change_in_range(m, cats, w, items.take(i), order_type),
    decreases items.len() - i,
{
    if i == items.len() {
        assert(items.take(i) == items);
    } else {
        lemma_change_in_range_prefix(m, cats, w, items, order_type, i + 1);
        assert(items.take(i + 1).drop_last() == items.take(i));
    }
}

/// The working values the overlay holds for the touched skus of one
/// warehouse, as a patch over the store map.
spec fn overlay_patch(
    w: int,
    touched: Seq<i64>,
    cache: Map<(int, int), Option<VirtualInventoryProduct>>,
) -> Map<(int, int), (int, int)>
    decreases touched.len(),
{
    if touched.len() == 0 {
        Map::empty()
    } else {
        let k = (w, touched.last() as int);
        overlay_patch(w, touched.drop_last(), cache).insert(k, patch_val(cache[k]))
    }
}

spec fn patch_val(e: Option<VirtualInventoryProduct>) -> (int, int) {
    (e->0.sku_category_id as int, e->0.latest_quantity as int)
}

proof fn lemma_patch_contains(
    w: int,
    touched: Seq<i64>,
    cache: Map<(int, int), Option<VirtualInventoryProduct>>,
    k: (int, int),
)
    ensures
        overlay_patch(w, touched, cache).contains_key(k) <==> (k.0 == w && exists|j: int|
            0 <= j < touched.len() && (#[trigger] touched[j]) as int == k.1),
    decreases touched.len(),
{
    if touched.len() > 0 {
        lemma_patch_contains(w, touched.drop_last(), cache, k);
        if k.0 == w && touched.last() as int == k.1 {
            assert(touched[touched.len() - 1] as int == k.1);
        } else if overlay_patch(w, touched, cache).contains_key(k) {
            let j = choose|j: int|
                0 <= j < touched.drop_last().len() && (#[trigger] touched.drop_last()[j]) as int
                    == k.1;
            assert(touched[j] as int == k.1);
        } else {
            assert forall|j: int| 0 <= j < touched.len() implies !(k.0 == w && (
            #[trigger] touched[j]) as int == k.1) by {
                if j < touched.len() - 1 {
                    assert(touched.drop_last()[j] == touched[j]);
                }
            }
        }
    }
}

proof fn lemma_patch_push(
    w: int,
    touched: Seq<i64>,
    cache: Map<(int, int), Option<VirtualInventoryProduct>>,
    s: i64,
)
    ensures
        overlay_patch(w, touched.push(s), cache) == overlay_patch(w, touched, cache).insert(
            (w, s as int),
            patch_val(cache[(w, s as int)]),
        ),
{
    assert(touched.push(s).drop_last() == touched);
    assert(touched.push(s).last() == s);
}

proof fn lemma_patch_index(
    w: int,
    touched: Seq<i64>,
    cache: Map<(int, int), Option<VirtualInventoryProduct>>,
    s: i64,
)
    requires
        touched.contains(s),
    ensures
        overlay_patch(w, touched, cache).contains_key((w, s as int)),
        overlay_patch(w, touched, cache)[(w, s as int)] == patch_val(cache[(w, s as int)]),
    decreases touched.len(),
{
    if touched.last() == s {
    } else {
        assert(touched.drop_last().contains(s)) by {
            let j = choose|j: int| 0 <= j < touched.len() && touched[j] == s;
            assert(j < touched.len() - 1);
            assert(touched.drop_last()[j] == s);
        }
        lemma_patch_index(w, touched.drop_last(), cache, s);
        assert((w, touched.last() as int) != (w, s as int));
    }
}

proof fn lemma_patch_frame(
    w: int,
    touched: Seq<i64>,
    c1: Map<(int, int), Option<VirtualInventoryProduct>>,
    c2: Map<(int, int), Option<VirtualInventoryProduct>>,
)
    requires
        forall|j: int|
            0 <= j < touched.len() ==> c1[(w, (#[trigger] touched[j]) as int)] == c2[(
                w,
                touched[j] as int,
            )],
    ensures
        overlay_patch(w, touched, c1) == overlay_patch(w, touched, c2),
    decreases touched.len(),
{
    if touched.len() > 0 {
        assert forall|j: int| 0 <= j < touched.drop_last().len() implies c1[(
            w,
            (#[trigger] touched.drop_last()[j]) as int,
        )] == c2[(w, touched.drop_last()[j] as int)] by {
            assert(touched.drop_last()[j] == touched[j]);
        }
        lemma_patch_frame(w, touched.drop_last(), c1, c2);
        assert(touched.last() == touched[touched.len() - 1]);
    }
}

proof fn lemma_patch_update(
    w: int,
    touched: Seq<i64>,
    cache: Map<(int, int), Option<VirtualInventoryProduct>>,
    s: i64,
    p: VirtualInventoryProduct,
)
    requires
        forall|a: int, b: int|
            0 <= a < b < touched.len() ==> #[trigger] touched[a] != #[trigger] touched[b],
        touched.contains(s),
    ensures
        overlay_patch(w, touched, cache.insert((w, s as int), Option::Some(p))) == overlay_patch(
            w,
            touched,
            cache,
        ).insert((w, s as int), patch_val(Option::Some(p))),
    decreases touched.len(),
{
    let c2 = cache.insert((w, s as int), Option::Some(p));
    if touched.len() > 0 {
        if touched.last() == s {
            assert forall|j: int| 0 <= j < touched.drop_last().len() implies cache[(
                w,
                (#[trigger] touched.drop_last()[j]) as int,
            )] == c2[(w, touched.drop_last()[j] as int)] by {
                assert(touched.drop_last()[j] == touched[j]);
                assert(touched[j] != s);
            }
            lemma_patch_frame(w, touched.drop_last(), cache, c2);
        } else {
            assert(touched.drop_last().contains(s)) by {
                let j = choose|j: int| 0 <= j < touched.len() && touched[j] == s;
                assert(j < touched.len() - 1);
                assert(touched.drop_last()[j] == s);
            }
            assert forall|a: int, b: int|
                0 <= a < b < touched.drop_last().len() implies #[trigger] touched.drop_last()[a]
                != #[trigger] touched.drop_last()[b] by {
                assert(touched.drop_last()[a] == touched[a]);
                assert(touched.drop_last()[b] == touched[b]);
            }
            lemma_patch_update(w, touched.drop_last(), cache, s, p);
            assert(overlay_patch(w, touched, c2) =~= overlay_patch(w, touched, cache).insert(
                (w, s as int),
                patch_val(Option::Some(p)),
            ));
        }
    }
}

/// Commit an order's deltas for one warehouse to the store.  A sku the
/// registry does not know aborts the whole mutation with the store
/// untouched; otherwise the store ends exactly at `spec_change` of
/// where it began.
pub fn change(
    store: &mut Inventory,
    skus: &SkuRegistry,
    warehouse_id: i64,
    items: &Vec<OrderItem>,
    order_type: OrderType,
) -> (r: Result<(), EngineError>)
    requires
        old(store).wf(),
        skus.wf(),
        change_in_range(
            change_base(old(store)@, warehouse_id, order_type),
            skus@,
            warehouse_id as int,
            items@,
            order_type,
        ),
    ensures
        final(store).wf(),
        r is Ok <==> skus_resolvable(items@, skus@, order_type),
        r is Ok ==> final(store)@ == spec_change(
            old(store)@,
            skus@,
            warehouse_id,
            items@,
            order_type,
        ),
        r is Err ==> *final(store) == *old(store) && r == Result::<(), EngineError>::Err(
            EngineError::SkuNotFound,
        ),
{
    let ghost gitems = items@;
    let ghost cats = skus@;
    let ghost w = warehouse_id as int;
    let n = items.len();

    // resolve every kept item first, so that a missing sku aborts with
    // nothing written
    let mut i: usize = 0;
    while i < n
        invariant
            skus.wf(),
            *store == *old(store),
            old(store).wf(),
            cats == skus@,
            n == gitems.len(),
            gitems == items@,
            i <= n,
            forall|j: int|
                0 <= j < i && !item_filtered(#[trigger] gitems[j], order_type)
                    ==> cats.contains_key(gitems[j].sku_id as int),
        decreases n - i,
    {
        let item = items[i];
        if !(item.exchanged && order_type != OrderType::Exchange) {
            if skus.resolve(item.sku_id).is_none() {
                proof {
                    assert(!item_filtered(gitems[i as int], order_type));
                    assert(!skus_resolvable(gitems, cats, order_type));
                }
                return Result::Err(EngineError::SkuNotFound);
            }
        }
        i = i + 1;
    }
    proof {
        assert(skus_resolvable(gitems, cats, order_type));
    }

    // CalibrationStrict first zeroes every row of the warehouse, so
    // that skus its items never mention end at zero too
    if order_type == OrderType::CalibrationStrict {
        let scope: Vec<i64> = vec![warehouse_id];
        store.zero_scoped(Option::Some(&scope), Option::None);
        proof {
            assert(scope@ =~= seq![warehouse_id]);
        }
    }
    let ghost m0 = change_base(old(store)@, warehouse_id, order_type);
    proof {
        assert(store@ == m0);
    }

    // apply the transform through the overlay, tracking touched skus
    let mut inv = VirtualInventory::new(items.len());
    let mut touched: Vec<i64> = Vec::new();
    proof {
        assert(gitems.take(0) =~= Seq::<OrderItem>::empty());
        assert(m0.union_prefer_right(overlay_patch(w, touched@, inv.cache())) =~= m0);
    }
    let mut i: usize = 0;
    while i < n
        invariant
            store.wf(),
            skus.wf(),
            cats == skus@,
            w == warehouse_id as int,
            n == gitems.len(),
            gitems == items@,
            i <= n,
            store@ == m0,
            inv.wf(),
            skus_resolvable(gitems, cats, order_type),
            change_in_range(m0, cats, w, gitems, order_type),
            forall|a: int, b: int|
                0 <= a < b < touched@.len() ==> #[trigger] touched@[a] != #[trigger] touched@[b],
            forall|j: int|
                0 <= j < touched@.len() ==> inv.cache().contains_key(
                    (w, (#[trigger] touched@[j]) as int),
                ) && inv.cache()[(w, touched@[j] as int)] is Some,
            forall|k: (int, int)|
                #[trigger] inv.cache().contains_key(k) ==> k.0 == w && exists|j: int|
                    0 <= j < touched@.len() && (#[trigger] touched@[j]) as int == k.1,
            forall|j: int|
                0 <= j < touched@.len() ==> (#[trigger] inv.cache()[(
                    w,
                    touched@[j] as int,
                )])->0.sku_category_id as int == (if m0.contains_key((w, touched@[j] as int)) {
                    m0[(w, touched@[j] as int)].0
                } else {
                    cats[touched@[j] as int]
                }),
            change_fold(m0, cats, w, gitems.take(i as int), order_type) == m0.union_prefer_right(
                overlay_patch(w, touched@, inv.cache()),
            ),
        decreases n - i,
    {
        let ghost pre_fold = change_fold(m0, cats, w, gitems.take(i as int), order_type);
        let ghost patch0 = overlay_patch(w, touched@, inv.cache());
        proof {
            assert(gitems.take(i as int + 1).drop_last() == gitems.take(i as int));
            assert(gitems.take(i as int + 1).last() == gitems[i as int]);
            lemma_change_in_range_prefix(m0, cats, w, gitems, order_type, i as int + 1);
        }
        let item = items[i];
        if !(item.exchanged && order_type != OrderType::Exchange) {
            let ghost k = (w, item.sku_id as int);
            proof {
                lemma_patch_contains(w, touched@, inv.cache(), k);
            }
            let cat = match skus.resolve(item.sku_id) {
                Option::Some(c) => c,
                Option::None => {
                    proof {
                        assert(!item_filtered(gitems[i as int], order_type));
                        assert(false);
                    }
                    return Result::Err(EngineError::SkuNotFound);
                },
            };
            let ghost cache0 = inv.cache();
            let ghost touched0 = touched@;
            let loaded = inv.get_or_load(warehouse_id, item.sku_id, store);
            let ghost cache1 = inv.cache();
            match loaded {
                Option::Some(p) => {
                    proof {
                        if cache0.contains_key(k) {
                            assert(cache1 == cache0);
                            assert(cache0[k] == Option::Some(p));
                            assert(touched0.contains(item.sku_id)) by {
                                let t = choose|t: int|
                                    0 <= t < touched0.len() && (#[trigger] touched0[t]) as int == k.1;
                                assert(touched0[t] == item.sku_id);
                            }
                            assert(patch0.contains_key(k));
                            lemma_patch_index(w, touched0, cache0, item.sku_id);
                            assert(patch0[k] == patch_val(cache0[k]));
                            assert(pre_fold.contains_key(k) && pre_fold[k] == patch0[k]);
                            assert(p.latest_quantity as int == pre_fold[k].1);
                        } else {
                            assert(m0.contains_key(k));
                            assert(p.sku_category_id as int == m0[k].0);
                            assert(p.latest_quantity as int == m0[k].1);
                            assert(!patch0.contains_key(k)) by {
                                if patch0.contains_key(k) {
                                    let t = choose|t: int|
                                        0 <= t < touched0.len() && (#[trigger] touched0[t]) as int
                                            == k.1;
                                    assert(cache0.contains_key((w, touched0[t] as int)));
                                }
                            }
                            assert(pre_fold.contains_key(k) && pre_fold[k] == m0[k]);
                            assert(p.latest_quantity as int == pre_fold[k].1);
                        }
                    }
                    let nv = calc_quantity_by_order_type(p.latest_quantity(), &item, order_type);
                    inv.set_working(warehouse_id, item.sku_id, nv);
                    let ghost newprod = VirtualInventoryProduct {
                        latest_quantity: nv,
                        ..p
                    };
                    let had = vec_contains_i64(&touched, item.sku_id);
                    if !had {
                        touched.push(item.sku_id);
                    }
                    proof {
                        if cache0.contains_key(k) {
                            // the key was already cached, hence touched
                            assert(cache1 == cache0);
                            assert(touched0.contains(item.sku_id)) by {
                                let j = choose|j: int|
                                    0 <= j < touched0.len() && (#[trigger] touched0[j]) as int == k.1;
                                assert(touched0[j] == item.sku_id);
                            }
                            assert(touched@ == touched0);
                            assert(patch0.contains_key(k)) by {
                                lemma_patch_contains(w, touched0, cache0, k);
                            }
                            assert(pre_fold.contains_key(k));
                            assert(pre_fold[k] == patch_val(cache0[k]));
                            assert(p.latest_quantity as int == pre_fold[k].1);
                            lemma_patch_update(w, touched0, cache0, item.sku_id, newprod);
                            assert(inv.cache() == cache0.insert(k, Option::Some(newprod)));
                            assert(overlay_patch(w, touched@, inv.cache()) == patch0.insert(
                                k,
                                patch_val(Option::Some(newprod)),
                            ));
                            assert(change_fold(m0, cats, w, gitems.take(i as int + 1), order_type)
                                =~= m0.union_prefer_right(overlay_patch(w, touched@, inv.cache())));
                        } else {
                            // first sight of the key: it came from the store
                            assert(m0.contains_key(k));
                            assert(p.sku_category_id as int == m0[k].0);
                            assert(p.latest_quantity as int == m0[k].1);
                            assert(!patch0.contains_key(k)) by {
                                lemma_patch_contains(w, touched0, cache0, k);
                                if patch0.contains_key(k) {
                                    let j = choose|j: int|
                                        0 <= j < touched0.len() && (#[trigger] touched0[j]) as int
                                            == k.1;
                                    assert(cache0.contains_key((w, touched0[j] as int)));
                                }
                            }
                            assert(!pre_fold.contains_key(k) || pre_fold[k] == m0[k]);
                            assert(!touched0.contains(item.sku_id)) by {
                                if touched0.contains(item.sku_id) {
                                    let j = choose|j: int|
                                        0 <= j < touched0.len() && touched0[j] == item.sku_id;
                                    assert(cache0.contains_key((w, touched0[j] as int)));
                                }
                            }
                            assert(touched@ == touched0.push(item.sku_id));
                            assert(inv.cache() == cache1.insert(k, Option::Some(newprod)));
                            assert(cache1 == cache0.insert(k, loaded));
                            assert(inv.cache()[k] == Option::Some(newprod));
                            lemma_patch_push(w, touched0, inv.cache(), item.sku_id);
                            assert(overlay_patch(w, touched@, inv.cache()) == overlay_patch(
                                w,
                                touched0,
                                inv.cache(),
                            ).insert(k, patch_val(Option::Some(newprod))));
                            assert forall|j: int| 0 <= j < touched0.len() implies cache0[(
                                w,
                                (#[trigger] touched0[j]) as int,
                            )] == inv.cache()[(w, touched0[j] as int)] by {
                                assert(touched0[j] != item.sku_id);
                            }
                            lemma_patch_frame(w, touched0, cache0, inv.cache());
                            assert(change_fold(m0, cats, w, gitems.take(i as int + 1), order_type)
                                =~= m0.union_prefer_right(overlay_patch(w, touched@, inv.cache())));
                        }
                        assert forall|j: int| 0 <= j < touched@.len() implies (
                        #[trigger] inv.cache()[(w, touched@[j] as int)])->0.sku_category_id as int
                            == (if m0.contains_key((w, touched@[j] as int)) {
                            m0[(w, touched@[j] as int)].0
                        } else {
                            cats[touched@[j] as int]
                        }) by {
                            if touched@[j] != item.sku_id {
                                assert(j < touched0.len() ==> touched0[j] == touched@[j]);
                            }
                        }
                    }
                },
                Option::None => {
                    // the first read found no row: seed a product with a
                    // zero persisted quantity and the transformed value
                    proof {
                        assert(!m0.contains_key(k));
                        assert(!cache0.contains_key(k)) by {
                            if cache0.contains_key(k) {
                                let j = choose|j: int|
                                    0 <= j < touched0.len() && (#[trigger] touched0[j]) as int == k.1;
                                assert(cache0[(w, touched0[j] as int)] is Some);
                            }
                        }
                        assert(!patch0.contains_key(k)) by {
                            lemma_patch_contains(w, touched0, cache0, k);
                            if patch0.contains_key(k) {
                                let j = choose|j: int|
                                    0 <= j < touched0.len() && (#[trigger] touched0[j]) as int == k.1;
                                assert(cache0.contains_key((w, touched0[j] as int)));
                            }
                        }
                        assert(!pre_fold.contains_key(k));
                    }
                    let nv = calc_quantity_by_order_type(0, &item, order_type);
                    inv.seed(warehouse_id, item.sku_id, cat, nv);
                    let ghost newprod = VirtualInventoryProduct {
                        sku_category_id: cat,
                        quantity: 0,
                        latest_quantity: nv,
                    };
                    let had = vec_contains_i64(&touched, item.sku_id);
                    if !had {
                        touched.push(item.sku_id);
                    }
                    proof {
                        assert(!touched0.contains(item.sku_id)) by {
                            if touched0.contains(item.sku_id) {
                                let j = choose|j: int|
                                    0 <= j < touched0.len() && touched0[j] == item.sku_id;
                                assert(cache0.contains_key((w, touched0[j] as int)));
                            }
                        }
                        assert(touched@ == touched0.push(item.sku_id));
                        assert(inv.cache() == cache1.insert(k, Option::Some(newprod)));
                        assert(cache1 == cache0.insert(k, Option::None));
                        assert(inv.cache() =~= cache0.insert(k, Option::Some(newprod)));
                        assert(inv.cache()[k] == Option::Some(newprod));
                        lemma_patch_push(w, touched0, inv.cache(), item.sku_id);
                        assert(overlay_patch(w, touched@, inv.cache()) == overlay_patch(
                            w,
                            touched0,
                            inv.cache(),
                        ).insert(k, patch_val(Option::Some(newprod))));
                        assert forall|j: int| 0 <= j < touched0.len() implies cache0[(
                            w,
                            (#[trigger] touched0[j]) as int,
                        )] == inv.cache()[(w, touched0[j] as int)] by {
                            assert(touched0[j] != item.sku_id);
                        }
                        lemma_patch_frame(w, touched0, cache0, inv.cache());
                        assert(change_fold(m0, cats, w, gitems.take(i as int + 1), order_type)
                            =~= m0.union_prefer_right(overlay_patch(w, touched@, inv.cache())));
                        assert forall|j: int| 0 <= j < touched@.len() implies (
                        #[trigger] inv.cache()[(w, touched@[j] as int)])->0.sku_category_id as int
                            == (if m0.contains_key((w, touched@[j] as int)) {
                            m0[(w, touched@[j] as int)].0
                        } else {
                            cats[touched@[j] as int]
                        }) by {
                            if touched@[j] != item.sku_id {
                                assert(j < touched0.len() ==> touched0[j] == touched@[j]);
                            }
                        }
                    }
                },
            }
            proof {
                assert(forall|j: int|
                    0 <= j < touched0.len() ==> #[trigger] touched@[j] == touched0[j]);
                assert(touched@.contains(item.sku_id)) by {
                    if touched0.contains(item.sku_id) {
                        let t = choose|t: int|
                            0 <= t < touched0.len() && touched0[t] == item.sku_id;
                        assert(touched@[t] == item.sku_id);
                    } else {
                        assert(touched@ == touched0.push(item.sku_id));
                        assert(touched@[touched@.len() - 1] == item.sku_id);
                    }
                }
                assert forall|kk: (int, int)| #[trigger] inv.cache().contains_key(kk) implies kk.0
                    == w && exists|j: int|
                    0 <= j < touched@.len() && (#[trigger] touched@[j]) as int == kk.1 by {
                    if cache0.contains_key(kk) {
                        let t = choose|t: int|
                            0 <= t < touched0.len() && (#[trigger] touched0[t]) as int == kk.1;
                        assert(touched@[t] as int == kk.1);
                    } else {
                        assert(kk == k);
                        let t = choose|t: int|
                            0 <= t < touched@.len() && touched@[t] == item.sku_id;
                        assert(touched@[t] as int == kk.1);
                    }
                }
            }
        } else {
            proof {
                assert(change_fold(m0, cats, w, gitems.take(i as int + 1), order_type) == pre_fold);
            }
        }
        i = i + 1;
    }
    proof {
        assert(gitems.take(n as int) == gitems);
    }

    // flush: persist every touched key's final working quantity
    let ghost cache_fin = inv.cache();
    let ghost touched_fin = touched@;
    proof {
        assert(touched_fin.take(0) =~= Seq::<i64>::empty());
        assert(m0.union_prefer_right(overlay_patch(w, touched_fin.take(0), cache_fin)) =~= m0);
    }
    let m = touched.len();
    let mut j: usize = 0;
    while j < m
        invariant
            store.wf(),
            inv.wf(),
            w == warehouse_id as int,
            m == touched_fin.len(),
            j <= m,
            touched_fin == touched@,
            cache_fin == inv.cache(),
            forall|a: int, b: int|
                0 <= a < b < touched_fin.len() ==> #[trigger] touched_fin[a]
                    != #[trigger] touched_fin[b],
            forall|t: int|
                0 <= t < touched_fin.len() ==> cache_fin.contains_key(
                    (w, (#[trigger] touched_fin[t]) as int),
                ) && cache_fin[(w, touched_fin[t] as int)] is Some,
            forall|t: int|
                0 <= t < touched_fin.len() ==> (#[trigger] cache_fin[(
                    w,
                    touched_fin[t] as int,
                )])->0.sku_category_id as int == (if m0.contains_key((w, touched_fin[t] as int)) {
                    m0[(w, touched_fin[t] as int)].0
                } else {
                    cats[touched_fin[t] as int]
                }),
            store@ == m0.union_prefer_right(
                overlay_patch(w, touched_fin.take(j as int), cache_fin),
            ),
        decreases m - j,
    {
        let sku = touched[j];
        let ghost k = (w, sku as int);
        let ghost part = overlay_patch(w, touched_fin.take(j as int), cache_fin);
        proof {
            assert(touched_fin.take(j as int + 1).drop_last() == touched_fin.take(j as int));
            assert(touched_fin.take(j as int + 1).last() == touched_fin[j as int]);
            lemma_patch_contains(w, touched_fin.take(j as int), cache_fin, k);
            assert(!part.contains_key(k)) by {
                if part.contains_key(k) {
                    let t = choose|t: int|
                        0 <= t < touched_fin.take(j as int).len() && (#[trigger] touched_fin.take(
                            j as int,
                        )[t]) as int == k.1;
                    assert(touched_fin[t] == touched_fin[j as int]);
                }
            }
            assert(store@.contains_key(k) == m0.contains_key(k));
        }
        let prod = match inv.peek(warehouse_id, sku) {
            Option::Some(p) => p,
            Option::None => {
                proof {
                    assert(false);
                }
                VirtualInventoryProduct::new(0, 0, 0)
            },
        };
        match store.get(warehouse_id, sku) {
            Option::Some(_) => {
                let ok = store.set_quantity(warehouse_id, sku, prod.latest_quantity());
                proof {
                    assert(ok);
                    assert(store@[k].0 == m0[k].0);
                    assert(store@ =~= m0.union_prefer_right(
                        overlay_patch(w, touched_fin.take(j as int + 1), cache_fin),
                    ));
                }
            },
            Option::None => {
                let row = InventoryProduct {
                    warehouse_id,
                    sku_id: sku,
                    sku_category_id: prod.sku_category_id,
                    quantity: prod.latest_quantity(),
                };
                store.insert_row(row);
                proof {
                    assert(store@ =~= m0.union_prefer_right(
                        overlay_patch(w, touched_fin.take(j as int + 1), cache_fin),
                    ));
                }
            },
        }
        j = j + 1;
    }
    proof {
        assert(touched_fin.take(m as int) == touched_fin);
        assert(store@ == change_fold(m0, cats, w, gitems, order_type));
    }
    Result::Ok(())
}

} // verus!
