//! The persisted inventory store, modelled as rows of
//! (warehouse, sku, category, quantity) with one row per
//! (warehouse, sku) pair.
//!
//! The store is viewed as a map from the (warehouse, sku) key to the
//! pair (category, quantity); every mutator states its effect on that
//! map.  Uniqueness of the key is the store's invariant, enforced by
//! every operation rather than left to caller discipline.

use vstd::prelude::*;

verus! {

/// One persisted inventory row.
#[derive(Clone, Copy, Debug, PartialEq, Eq, Structural)]
pub struct InventoryProduct {
    pub warehouse_id: i64,
    pub sku_id: i64,
    pub sku_category_id: i64,
    pub quantity: i64,
}

/// The key a row is looked up by.
pub open spec fn row_key(p: InventoryProduct) -> (int, int) {
    (p.warehouse_id as int, p.sku_id as int)
}

/// What a row stores under its key: (category, quantity).
pub open spec fn row_val(p: InventoryProduct) -> (int, int) {
    (p.sku_category_id as int, p.quantity as int)
}

/// The map a sequence of rows denotes; later rows win, though under the
/// store's invariant keys never repeat.
pub open spec fn rows_map(rows: Seq<InventoryProduct>) -> Map<(int, int), (int, int)>
    decreases rows.len(),
{
    if rows.len() == 0 {
        Map::empty()
    } else {
        rows_map(rows.drop_last()).insert(row_key(rows.last()), row_val(rows.last()))
    }
}

pub proof fn lemma_rows_map_contains(rows: Seq<InventoryProduct>, k: (int, int))
    ensures
        rows_map(rows).contains_key(k) <==> exists|i: int|
            0 <= i < rows.len() && row_key(#[trigger] rows[i]) == k,
    decreases rows.len(),
{
    if rows.len() > 0 {
        lemma_rows_map_contains(rows.drop_last(), k);
        if row_key(rows.last()) == k {
            assert(row_key(rows[rows.len() - 1]) == k);
        } else if rows_map(rows).contains_key(k) {
            let i = choose|i: int| 0 <= i < rows.drop_last().len() && row_key(
                #[trigger] rows.drop_last()[i],
            ) == k;
            assert(row_key(rows[i]) == k);
        } else {
            assert forall|i: int| 0 <= i < rows.len() implies row_key(#[trigger] rows[i]) != k by {
                if i < rows.len() - 1 {
                    assert(rows.drop_last()[i] == rows[i]);
                }
            }
        }
    }
}

pub proof fn lemma_rows_map_index(rows: Seq<InventoryProduct>, i: int)
    requires
        0 <= i < rows.len(),
        forall|a: int, b: int|
            0 <= a < b < rows.len() ==> row_key(#[trigger] rows[a]) != row_key(#[trigger] rows[b]),
    ensures
        rows_map(rows).contains_key(row_key(rows[i])),
        rows_map(rows)[row_key(rows[i])] == row_val(rows[i]),
    decreases rows.len(),
{
    if i == rows.len() - 1 {
        lemma_rows_map_contains(rows, row_key(rows[i]));
    } else {
        lemma_rows_map_index(rows.drop_last(), i);
        assert(rows.drop_last()[i] == rows[i]);
        assert(row_key(rows.last()) != row_key(rows[i]));
    }
}

/// True when `x` lies in an optional scope; an absent scope admits
/// everything.
pub open spec fn in_scope(scope: Option<Seq<i64>>, x: i64) -> bool {
    match scope {
        Option::None => true,
        Option::Some(s) => s.contains(x),
    }
}

/// A row after scoped zeroing: quantity cleared when both its warehouse
/// and its sku lie in the scopes, untouched otherwise.
pub open spec fn zero_row(
    p: InventoryProduct,
    ws: Option<Seq<i64>>,
    ss: Option<Seq<i64>>,
) -> InventoryProduct {
    if in_scope(ws, p.warehouse_id) && in_scope(ss, p.sku_id) {
        InventoryProduct { quantity: 0, ..p }
    } else {
        p
    }
}

/// Scoped zeroing on the map view: same keys, quantities in scope
/// cleared, categories kept.
pub open spec fn zero_scope_map(
    m: Map<(int, int), (int, int)>,
    ws: Option<Seq<i64>>,
    ss: Option<Seq<i64>>,
) -> Map<(int, int), (int, int)> {
    Map::new(
        |k: (int, int)| m.contains_key(k),
        |k: (int, int)|
            if in_scope(ws, k.0 as i64) && in_scope(ss, k.1 as i64) {
                (m[k].0, 0)
            } else {
                m[k]
            },
    )
}

/// The persisted inventory store.
#[derive(Clone, Debug)]
pub struct Inventory {
    rows: Vec<InventoryProduct>,
}

impl View for Inventory {
    type V = Map<(int, int), (int, int)>;

    open spec fn view(&self) -> Map<(int, int), (int, int)> {
        rows_map(self.rows_seq())
    }
}

impl Inventory {
    /// The underlying row sequence, in storage order.
    pub closed spec fn rows_seq(&self) -> Seq<InventoryProduct> {
        self.rows@
    }

    /// Invariant: one row per (warehouse, sku) pair.
    pub open spec fn wf(&self) -> bool {
        forall|a: int, b: int|
            0 <= a < b < self.rows_seq().len() ==> row_key(#[trigger] self.rows_seq()[a])
                != row_key(#[trigger] self.rows_seq()[b])
    }

    pub fn new() -> (r: Self)
        ensures
            r.wf(),
            r@ == Map::<(int, int), (int, int)>::empty(),
            r.rows_seq() == Seq::<InventoryProduct>::empty(),
    {
        Inventory { rows: Vec::new() }
    }

    /// All rows, in storage order; what a listing endpoint would page
    /// through.
    pub fn all_rows(&self) -> (r: &Vec<InventoryProduct>)
        ensures
            r@ == self.rows_seq(),
    {
        &self.rows
    }

    fn find(&self, warehouse_id: i64, sku_id: i64) -> (r: Option<usize>)
        ensures
            match r {
                Option::Some(i) => i < self.rows_seq().len() && row_key(self.rows_seq()[i as int])
                    == (warehouse_id as int, sku_id as int),
                Option::None => forall|i: int|
                    0 <= i < self.rows_seq().len() ==> row_key(#[trigger] self.rows_seq()[i])
                        != (warehouse_id as int, sku_id as int),
            },
    {
        let n = self.rows.len();
        let mut i: usize = 0;
        while i < n
            invariant
                n == self.rows_seq().len(),
                i <= n,
                forall|j: int|
                    0 <= j < i ==> row_key(#[trigger] self.rows_seq()[j]) != (
                        warehouse_id as int,
                        sku_id as int,
                    ),
            decreases n - i,
        {
            let p = self.rows[i];
            if p.warehouse_id == warehouse_id && p.sku_id == sku_id {
                return Option::Some(i);
            }
            i = i + 1;
        }
        Option::None
    }

    /// Look one row up by its key.
    pub fn get(&self, warehouse_id: i64, sku_id: i64) -> (r: Option<InventoryProduct>)
        requires
            self.wf(),
        ensures
            r is Some <==> self@.contains_key((warehouse_id as int, sku_id as int)),
            r matches Some(p) ==> p.warehouse_id == warehouse_id && p.sku_id == sku_id && row_val(p)
                == self@[(warehouse_id as int, sku_id as int)],
    {
        proof {
            lemma_rows_map_contains(self.rows_seq(), (warehouse_id as int, sku_id as int));
        }
        match self.find(warehouse_id, sku_id) {
            Option::Some(i) => {
                proof {
                    lemma_rows_map_index(self.rows_seq(), i as int);
                }
                Option::Some(self.rows[i])
            },
            Option::None => Option::None,
        }
    }

    /// Insert a fresh row; the key must not be present yet.
    pub fn insert_row(&mut self, p: InventoryProduct)
        requires
            old(self).wf(),
            !old(self)@.contains_key(row_key(p)),
        ensures
            final(self).wf(),
            final(self)@ == old(self)@.insert(row_key(p), row_val(p)),
            final(self).rows_seq() == old(self).rows_seq().push(p),
    {
        proof {
            lemma_rows_map_contains(self.rows_seq(), row_key(p));
        }
        self.rows.push(p);
        proof {
            assert(final(self).rows_seq().drop_last() == old(self).rows_seq());
        }
    }

    /// Overwrite the quantity of an existing row; reports whether a row
    /// with that key was there.  A `false` outcome is the lost-update
    /// signal the callers treat as fatal.
    pub fn set_quantity(&mut self, warehouse_id: i64, sku_id: i64, quantity: i64) -> (r: bool)
        requires
            old(self).wf(),
        ensures
            final(self).wf(),
            r <==> old(self)@.contains_key((warehouse_id as int, sku_id as int)),
            r ==> final(self)@ == old(self)@.insert(
                (warehouse_id as int, sku_id as int),
                (old(self)@[(warehouse_id as int, sku_id as int)].0, quantity as int),
            ),
            !r ==> *final(self) == *old(self),
            final(self).rows_seq().len() == old(self).rows_seq().len(),
            forall|j: int|
                0 <= j < old(self).rows_seq().len() ==> row_key(
                    #[trigger] final(self).rows_seq()[j],
                ) == row_key(old(self).rows_seq()[j]) && final(self).rows_seq()[j].sku_category_id
                    == old(self).rows_seq()[j].sku_category_id,
    {
        proof {
            lemma_rows_map_contains(self.rows_seq(), (warehouse_id as int, sku_id as int));
        }
        match self.find(warehouse_id, sku_id) {
            Option::Some(i) => {
                proof {
                    lemma_rows_map_index(self.rows_seq(), i as int);
                }
                let mut p = self.rows[i];
                p.quantity = quantity;
                self.rows.set(i, p);
                proof {
                    lemma_rows_map_update(
                        old(self).rows_seq(),
                        i as int,
                        p,
                    );
                }
                true
            },
            Option::None => false,
        }
    }

    /// Overwrite the quantity of an existing row, treating a missing
    /// row as the fatal lost-update condition.
    pub fn update_quantity(&mut self, warehouse_id: i64, sku_id: i64, quantity: i64) -> (r: Result<
        (),
        crate::error::EngineError,
    >)
        requires
            old(self).wf(),
        ensures
            final(self).wf(),
            r is Ok <==> old(self)@.contains_key((warehouse_id as int, sku_id as int)),
            r is Ok ==> final(self)@ == old(self)@.insert(
                (warehouse_id as int, sku_id as int),
                (old(self)@[(warehouse_id as int, sku_id as int)].0, quantity as int),
            ),
            r is Err ==> *final(self) == *old(self) && r == Result::<
                (),
                crate::error::EngineError,
            >::Err(crate::error::EngineError::UpdateAffectedZero),
    {
        if self.set_quantity(warehouse_id, sku_id, quantity) {
            Result::Ok(())
        } else {
            Result::Err(crate::error::EngineError::UpdateAffectedZero)
        }
    }

    /// Clear the quantity of every row whose warehouse and sku both lie
    /// in the given scopes; an absent scope means "all".
    pub fn zero_scoped(&mut self, ws: Option<&Vec<i64>>, ss: Option<&Vec<i64>>)
        requires
            old(self).wf(),
        ensures
            final(self).wf(),
            final(self)@ == zero_scope_map(old(self)@, opt_view(ws), opt_view(ss)),
            final(self).rows_seq().len() == old(self).rows_seq().len(),
            forall|j: int|
                0 <= j < old(self).rows_seq().len() ==> #[trigger] final(self).rows_seq()[j]
                    == zero_row(old(self).rows_seq()[j], opt_view(ws), opt_view(ss)),
    {
        let ghost wsv = opt_view(ws);
        let ghost ssv = opt_view(ss);
        let n = self.rows.len();
        let mut i: usize = 0;
        while i < n
            invariant
                wsv == opt_view(ws),
                ssv == opt_view(ss),
                n == self.rows_seq().len(),
                n == old(self).rows_seq().len(),
                i <= n,
                forall|j: int|
                    0 <= j < i ==> #[trigger] self.rows_seq()[j] == zero_row(
                        old(self).rows_seq()[j],
                        wsv,
                        ssv,
                    ),
                forall|j: int| i <= j < n ==> #[trigger] self.rows_seq()[j] == old(self).rows_seq()[j],
            decreases n - i,
        {
            let p = self.rows[i];
            let w_in = match ws {
                Option::Some(v) => vec_contains_i64(v, p.warehouse_id),
                Option::None => true,
            };
            let s_in = match ss {
                Option::Some(v) => vec_contains_i64(v, p.sku_id),
                Option::None => true,
            };
            if w_in && s_in {
                let mut q = p;
                q.quantity = 0;
                self.rows.set(i, q);
            }
            i = i + 1;
        }
        proof {
            lemma_zero_rows_map(old(self).rows_seq(), self.rows_seq(), wsv, ssv);
            assert forall|a: int, b: int|
                0 <= a < b < self.rows_seq().len() implies row_key(#[trigger] self.rows_seq()[a])
                != row_key(#[trigger] self.rows_seq()[b]) by {
                assert(row_key(self.rows_seq()[a]) == row_key(old(self).rows_seq()[a]));
                assert(row_key(self.rows_seq()[b]) == row_key(old(self).rows_seq()[b]));
            }
        }
    }
}

/// The view of an optional id list.
pub open spec fn opt_view(v: Option<&Vec<i64>>) -> Option<Seq<i64>> {
    match v {
        Option::Some(s) => Option::Some(s@),
        Option::None => Option::None,
    }
}

/// Linear membership scan over an id list.
pub fn vec_contains_i64(v: &Vec<i64>, x: i64) -> (r: bool)
    ensures
        r == v@.contains(x),
{
    let n = v.len();
    let mut i: usize = 0;
    while i < n
        invariant
            n == v@.len(),
            i <= n,
            forall|j: int| 0 <= j < i ==> v@[j] != x,
        decreases n - i,
    {
        if v[i] == x {
            return true;
        }
        i = i + 1;
    }
    false
}

proof fn lemma_rows_map_update(rows: Seq<InventoryProduct>, i: int, p: InventoryProduct)
    requires
        0 <= i < rows.len(),
        row_key(p) == row_key(rows[i]),
        forall|a: int, b: int|
            0 <= a < b < rows.len() ==> row_key(#[trigger] rows[a]) != row_key(#[trigger] rows[b]),
    ensures
        rows_map(rows.update(i, p)) == rows_map(rows).insert(row_key(p), row_val(p)),
    decreases rows.len(),
{
    let updated = rows.update(i, p);
    if i == rows.len() - 1 {
        assert(updated.drop_last() == rows.drop_last());
        assert(updated.last() == p);
        assert(rows_map(updated) == rows_map(rows.drop_last()).insert(row_key(p), row_val(p)));
        assert(rows_map(rows) == rows_map(rows.drop_last()).insert(
            row_key(rows.last()),
            row_val(rows.last()),
        ));
        assert(rows_map(rows).insert(row_key(p), row_val(p)) =~= rows_map(rows.drop_last()).insert(
            row_key(p),
            row_val(p),
        ));
    } else {
        assert(updated.drop_last() == rows.drop_last().update(i, p));
        lemma_rows_map_update(rows.drop_last(), i, p);
        assert(updated.last() == rows.last());
        assert(row_key(rows.last()) != row_key(p));
        assert(rows_map(updated) == rows_map(rows.drop_last()).insert(
            row_key(p),
            row_val(p),
        ).insert(row_key(rows.last()), row_val(rows.last())));
        assert(rows_map(rows.drop_last()).insert(row_key(p), row_val(p)).insert(
            row_key(rows.last()),
            row_val(rows.last()),
        ) =~= rows_map(rows.drop_last()).insert(
            row_key(rows.last()),
            row_val(rows.last()),
        ).insert(row_key(p), row_val(p)));
    }
}

proof fn lemma_zero_rows_map(
    rows: Seq<InventoryProduct>,
    zeroed: Seq<InventoryProduct>,
    ws: Option<Seq<i64>>,
    ss: Option<Seq<i64>>,
)
    requires
        zeroed.len() == rows.len(),
        forall|j: int| 0 <= j < rows.len() ==> #[trigger] zeroed[j] == zero_row(rows[j], ws, ss),
    ensures
        rows_map(zeroed) == zero_scope_map(rows_map(rows), ws, ss),
    decreases rows.len(),
{
    if rows.len() == 0 {
        assert(rows_map(zeroed) =~= zero_scope_map(rows_map(rows), ws, ss));
    } else {
        assert forall|j: int| 0 <= j < rows.drop_last().len() implies #[trigger] zeroed.drop_last()[j]
            == zero_row(rows.drop_last()[j], ws, ss) by {
            assert(zeroed.drop_last()[j] == zeroed[j]);
            assert(rows.drop_last()[j] == rows[j]);
        }
        lemma_zero_rows_map(rows.drop_last(), zeroed.drop_last(), ws, ss);
        assert(zeroed.last() == zero_row(rows.last(), ws, ss));
        assert(rows_map(zeroed) =~= zero_scope_map(rows_map(rows), ws, ss));
    }
}

} // verus!
