//! The transaction-scoped virtual inventory: a cache over the persisted
//! store that one check or one mutate call builds, reads through, and
//! discards.
//!
//! Each key is read from the store at most once per logical operation;
//! after that the cached entry answers, including a cached "absent"
//! marker.  The cache never writes to the store itself.

use vstd::prelude::*;

use crate::inventory::Inventory;

verus! {

/// A cached product: the quantity the store held when the key was first
/// read, and the working quantity the current operation has moved it to.
#[derive(Clone, Copy, Debug, PartialEq, Eq, Structural)]
pub struct VirtualInventoryProduct {
    pub sku_category_id: i64,
    pub quantity: i64,
    pub latest_quantity: i64,
}

impl VirtualInventoryProduct {
    /// The persisted quantity as of the first read.
    pub open spec fn spec_quantity(&self) -> i64 {
        self.quantity
    }

    /// The working quantity.
    pub open spec fn spec_latest(&self) -> i64 {
        self.latest_quantity
    }

    pub fn new(sku_category_id: i64, quantity: i64, latest_quantity: i64) -> (r: Self)
        ensures
            r.sku_category_id == sku_category_id,
            r.spec_quantity() == quantity,
            r.spec_latest() == latest_quantity,
    {
        VirtualInventoryProduct { sku_category_id, quantity, latest_quantity }
    }

    pub fn quantity(&self) -> (r: i64)
        ensures
            r == self.spec_quantity(),
    {
        self.quantity
    }

    pub fn latest_quantity(&self) -> (r: i64)
        ensures
            r == self.spec_latest(),
    {
        self.latest_quantity
    }

    /// Move the working quantity; the persisted quantity and the
    /// category are untouched.
    pub fn change(&mut self, v: i64) -> (r: i64)
        ensures
            final(self).spec_latest() == v,
            final(self).spec_quantity() == old(self).spec_quantity(),
            final(self).sku_category_id == old(self).sku_category_id,
            r == v,
    {
        self.latest_quantity = v;
        self.latest_quantity
    }
}

#[derive(Clone, Copy, Debug)]
struct CacheEntry {
    warehouse_id: i64,
    sku_id: i64,
    product: Option<VirtualInventoryProduct>,
}

spec fn entry_key(e: CacheEntry) -> (int, int) {
    (e.warehouse_id as int, e.sku_id as int)
}

spec fn entries_map(entries: Seq<CacheEntry>) -> Map<(int, int), Option<VirtualInventoryProduct>>
    decreases entries.len(),
{
    if entries.len() == 0 {
        Map::empty()
    } else {
        entries_map(entries.drop_last()).insert(
            entry_key(entries.last()),
            entries.last().product,
        )
    }
}

proof fn lemma_entries_map_contains(entries: Seq<CacheEntry>, k: (int, int))
    ensures
        entries_map(entries).contains_key(k) <==> exists|i: int|
            0 <= i < entries.len() && entry_key(#[trigger] entries[i]) == k,
    decreases entries.len(),
{
    if entries.len() > 0 {
        lemma_entries_map_contains(entries.drop_last(), k);
        if entry_key(entries.last()) == k {
            assert(entry_key(entries[entries.len() - 1]) == k);
        } else if entries_map(entries).contains_key(k) {
            let i = choose|i: int| 0 <= i < entries.drop_last().len() && entry_key(
                #[trigger] entries.drop_last()[i],
            ) == k;
            assert(entry_key(entries[i]) == k);
        } else {
            assert forall|i: int| 0 <= i < entries.len() implies entry_key(#[trigger] entries[i])
                != k by {
                if i < entries.len() - 1 {
                    assert(entries.drop_last()[i] == entries[i]);
                }
            }
        }
    }
}

proof fn lemma_entries_map_index(entries: Seq<CacheEntry>, i: int)
    requires
        0 <= i < entries.len(),
        forall|a: int, b: int|
            0 <= a < b < entries.len() ==> entry_key(#[trigger] entries[a]) != entry_key(
                #[trigger] entries[b],
            ),
    ensures
        entries_map(entries).contains_key(entry_key(entries[i])),
        entries_map(entries)[entry_key(entries[i])] == entries[i].product,
    decreases entries.len(),
{
    if i == entries.len() - 1 {
        lemma_entries_map_contains(entries, entry_key(entries[i]));
    } else {
        lemma_entries_map_index(entries.drop_last(), i);
        assert(entries.drop_last()[i] == entries[i]);
        assert(entry_key(entries.last()) != entry_key(entries[i]));
    }
}

proof fn lemma_entries_map_update(entries: Seq<CacheEntry>, i: int, e: CacheEntry)
    requires
        0 <= i < entries.len(),
        entry_key(e) == entry_key(entries[i]),
        forall|a: int, b: int|
            0 <= a < b < entries.len() ==> entry_key(#[trigger] entries[a]) != entry_key(
                #[trigger] entries[b],
            ),
    ensures
        entries_map(entries.update(i, e)) == entries_map(entries).insert(entry_key(e), e.product),
    decreases entries.len(),
{
    let updated = entries.update(i, e);
    if i == entries.len() - 1 {
        assert(updated.drop_last() == entries.drop_last());
        assert(updated.last() == e);
        assert(entries_map(entries).insert(entry_key(e), e.product) =~= entries_map(
            entries.drop_last(),
        ).insert(entry_key(e), e.product));
    } else {
        assert(updated.drop_last() == entries.drop_last().update(i, e));
        lemma_entries_map_update(entries.drop_last(), i, e);
        assert(updated.last() == entries.last());
        assert(entry_key(entries.last()) != entry_key(e));
        assert(entries_map(entries.drop_last()).insert(entry_key(e), e.product).insert(
            entry_key(entries.last()),
            entries.last().product,
        ) =~= entries_map(entries.drop_last()).insert(
            entry_key(entries.last()),
            entries.last().product,
        ).insert(entry_key(e), e.product));
    }
}

/// What a first read of `(warehouse_id, sku_id)` from the store yields:
/// the row's category with working = persisted quantity, or an absent
/// marker.
pub open spec fn load_of(
    store: Map<(int, int), (int, int)>,
    warehouse_id: i64,
    sku_id: i64,
) -> Option<VirtualInventoryProduct> {
    let k = (warehouse_id as int, sku_id as int);
    if store.contains_key(k) {
        Option::Some(
            VirtualInventoryProduct {
                sku_category_id: store[k].0 as i64,
                quantity: store[k].1 as i64,
                latest_quantity: store[k].1 as i64,
            },
        )
    } else {
        Option::None
    }
}

/// The per-operation cache over the persisted store.
#[derive(Clone, Debug)]
pub struct VirtualInventory {
    entries: Vec<CacheEntry>,
}

impl VirtualInventory {
    /// The cached entries: key to either a product or a cached "absent"
    /// marker.
    pub closed spec fn cache(&self) -> Map<(int, int), Option<VirtualInventoryProduct>> {
        entries_map(self.entries@)
    }

    pub open spec fn wf(&self) -> bool {
        self.wf_inner()
    }

    pub closed spec fn wf_inner(&self) -> bool {
        forall|a: int, b: int|
            0 <= a < b < self.entries@.len() ==> entry_key(#[trigger] self.entries@[a])
                != entry_key(#[trigger] self.entries@[b])
    }

    pub fn new(capacity: usize) -> (r: Self)
        ensures
            r.wf(),
            r.cache() == Map::<(int, int), Option<VirtualInventoryProduct>>::empty(),
    {
        VirtualInventory { entries: Vec::with_capacity(capacity) }
    }

    fn find(&self, warehouse_id: i64, sku_id: i64) -> (r: Option<usize>)
        ensures
            match r {
                Option::Some(i) => i < self.entries@.len() && entry_key(self.entries@[i as int])
                    == (warehouse_id as int, sku_id as int),
                Option::None => forall|i: int|
                    0 <= i < self.entries@.len() ==> entry_key(#[trigger] self.entries@[i]) != (
                        warehouse_id as int,
                        sku_id as int,
                    ),
            },
    {
        let n = self.entries.len();
        let mut i: usize = 0;
        while i < n
            invariant
                n == self.entries@.len(),
                i <= n,
                forall|j: int|
                    0 <= j < i ==> entry_key(#[trigger] self.entries@[j]) != (
                        warehouse_id as int,
                        sku_id as int,
                    ),
            decreases n - i,
        {
            let e = self.entries[i];
            if e.warehouse_id == warehouse_id && e.sku_id == sku_id {
                return Option::Some(i);
            }
            i = i + 1;
        }
        Option::None
    }

    /// Return the cached entry for the key, reading the store once and
    /// caching the outcome if the key was never read before.
    pub fn get_or_load(&mut self, warehouse_id: i64, sku_id: i64, store: &Inventory) -> (r: Option<
        VirtualInventoryProduct,
    >)
        requires
            old(self).wf(),
            store.wf(),
        ensures
            final(self).wf(),
            old(self).cache().contains_key((warehouse_id as int, sku_id as int)) ==> *final(self)
                == *old(self) && r == old(self).cache()[(warehouse_id as int, sku_id as int)],
            !old(self).cache().contains_key((warehouse_id as int, sku_id as int)) ==> r == load_of(
                store@,
                warehouse_id,
                sku_id,
            ) && final(self).cache() == old(self).cache().insert(
                (warehouse_id as int, sku_id as int),
                r,
            ),
            final(self).cache().contains_key((warehouse_id as int, sku_id as int)),
            final(self).cache()[(warehouse_id as int, sku_id as int)] == r,
            !old(self).cache().contains_key((warehouse_id as int, sku_id as int)) && store@.contains_key(
                (warehouse_id as int, sku_id as int),
            ) ==> (r matches Some(p) && p.sku_category_id as int == store@[(
                warehouse_id as int,
                sku_id as int,
            )].0 && p.quantity as int == store@[(warehouse_id as int, sku_id as int)].1
                && p.latest_quantity as int == store@[(warehouse_id as int, sku_id as int)].1),
    {
        proof {
            lemma_entries_map_contains(self.entries@, (warehouse_id as int, sku_id as int));
        }
        match self.find(warehouse_id, sku_id) {
            Option::Some(i) => {
                proof {
                    lemma_entries_map_index(self.entries@, i as int);
                }
                self.entries[i].product
            },
            Option::None => {
                let product = match store.get(warehouse_id, sku_id) {
                    Option::Some(p) => Option::Some(
                        VirtualInventoryProduct {
                            sku_category_id: p.sku_category_id,
                            quantity: p.quantity,
                            latest_quantity: p.quantity,
                        },
                    ),
                    Option::None => Option::None,
                };
                let e = CacheEntry { warehouse_id, sku_id, product };
                self.entries.push(e);
                proof {
                    assert(final(self).entries@.drop_last() == old(self).entries@);
                    lemma_entries_map_contains(old(self).entries@, (warehouse_id as int, sku_id as int));
                }
                product
            },
        }
    }

    /// Read a key that is already cached, without touching the store.
    pub fn peek(&self, warehouse_id: i64, sku_id: i64) -> (r: Option<VirtualInventoryProduct>)
        requires
            self.wf(),
            self.cache().contains_key((warehouse_id as int, sku_id as int)),
        ensures
            r == self.cache()[(warehouse_id as int, sku_id as int)],
    {
        proof {
            lemma_entries_map_contains(self.entries@, (warehouse_id as int, sku_id as int));
        }
        match self.find(warehouse_id, sku_id) {
            Option::Some(i) => {
                proof {
                    lemma_entries_map_index(self.entries@, i as int);
                }
                self.entries[i].product
            },
            Option::None => {
                proof {
                    assert(false);
                }
                Option::None
            },
        }
    }

    /// Move the working quantity of a cached, present key.  Only the
    /// in-memory cache changes; the store is never written here.
    pub fn set_working(&mut self, warehouse_id: i64, sku_id: i64, v: i64)
        requires
            old(self).wf(),
            old(self).cache().contains_key((warehouse_id as int, sku_id as int)),
            old(self).cache()[(warehouse_id as int, sku_id as int)] is Some,
        ensures
            final(self).wf(),
            final(self).cache() == old(self).cache().insert(
                (warehouse_id as int, sku_id as int),
                Option::Some(
                    VirtualInventoryProduct {
                        latest_quantity: v,
                        ..old(self).cache()[(warehouse_id as int, sku_id as int)]->0
                    },
                ),
            ),
    {
        proof {
            lemma_entries_map_contains(self.entries@, (warehouse_id as int, sku_id as int));
        }
        match self.find(warehouse_id, sku_id) {
            Option::Some(i) => {
                proof {
                    lemma_entries_map_index(self.entries@, i as int);
                }
                let mut e = self.entries[i];
                match e.product {
                    Option::Some(p) => {
                        let mut q = p;
                        q.latest_quantity = v;
                        e.product = Option::Some(q);
                        self.entries.set(i, e);
                        proof {
                            lemma_entries_map_update(old(self).entries@, i as int, e);
                        }
                    },
                    Option::None => {
                        proof {
                            assert(false);
                        }
                    },
                }
            },
            Option::None => {
                proof {
                    assert(false);
                }
            },
        }
    }

    /// Cache a freshly created product under a key whose first read
    /// found no row: persisted quantity zero, working quantity `v`.
    pub fn seed(&mut self, warehouse_id: i64, sku_id: i64, sku_category_id: i64, v: i64)
        requires
            old(self).wf(),
            old(self).cache().contains_key((warehouse_id as int, sku_id as int)),
            old(self).cache()[(warehouse_id as int, sku_id as int)] is None,
        ensures
            final(self).wf(),
            final(self).cache() == old(self).cache().insert(
                (warehouse_id as int, sku_id as int),
                Option::Some(
                    VirtualInventoryProduct {
                        sku_category_id,
                        quantity: 0,
                        latest_quantity: v,
                    },
                ),
            ),
    {
        proof {
            lemma_entries_map_contains(self.entries@, (warehouse_id as int, sku_id as int));
        }
        match self.find(warehouse_id, sku_id) {
            Option::Some(i) => {
                proof {
                    lemma_entries_map_index(self.entries@, i as int);
                }
                let mut e = self.entries[i];
                e.product = Option::Some(
                    VirtualInventoryProduct { sku_category_id, quantity: 0, latest_quantity: v },
                );
                self.entries.set(i, e);
                proof {
                    lemma_entries_map_update(old(self).entries@, i as int, e);
                }
            },
            Option::None => {
                proof {
                    assert(false);
                }
            },
        }
    }
}

} // verus!
