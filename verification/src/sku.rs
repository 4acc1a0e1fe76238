//! The SKU registry: the collaborator that resolves a sku to its
//! category.  A sku the registry does not know is a fatal condition for
//! every mutation that meets it.

use vstd::prelude::*;

verus! {

/// A stock-keeping unit.
#[derive(Clone, Debug)]
pub struct SKU {
    pub id: i64,
    pub sku_category_id: i64,
    pub name: String,
    pub description: String,
    pub color: Option<String>,
    pub text_color: Option<String>,
}

pub open spec fn skus_map(skus: Seq<SKU>) -> Map<int, int>
    decreases skus.len(),
{
    if skus.len() == 0 {
        Map::empty()
    } else {
        skus_map(skus.drop_last()).insert(
            skus.last().id as int,
            skus.last().sku_category_id as int,
        )
    }
}

proof fn lemma_skus_map_contains(skus: Seq<SKU>, k: int)
    ensures
        skus_map(skus).contains_key(k) <==> exists|i: int|
            0 <= i < skus.len() && (#[trigger] skus[i]).id as int == k,
    decreases skus.len(),
{
    if skus.len() > 0 {
        lemma_skus_map_contains(skus.drop_last(), k);
        if skus.last().id as int == k {
            assert(skus[skus.len() - 1].id as int == k);
        } else if skus_map(skus).contains_key(k) {
            let i = choose|i: int|
                0 <= i < skus.drop_last().len() && (#[trigger] skus.drop_last()[i]).id as int == k;
            assert(skus[i].id as int == k);
        } else {
            assert forall|i: int| 0 <= i < skus.len() implies (#[trigger] skus[i]).id as int
                != k by {
                if i < skus.len() - 1 {
                    assert(skus.drop_last()[i] == skus[i]);
                }
            }
        }
    }
}

proof fn lemma_skus_map_index(skus: Seq<SKU>, i: int)
    requires
        0 <= i < skus.len(),
        forall|a: int, b: int|
            0 <= a < b < skus.len() ==> (#[trigger] skus[a]).id != (#[trigger] skus[b]).id,
    ensures
        skus_map(skus).contains_key(skus[i].id as int),
        skus_map(skus)[skus[i].id as int] == skus[i].sku_category_id as int,
    decreases skus.len(),
{
    if i == skus.len() - 1 {
        lemma_skus_map_contains(skus, skus[i].id as int);
    } else {
        lemma_skus_map_index(skus.drop_last(), i);
        assert(skus.drop_last()[i] == skus[i]);
        assert(skus.last().id != skus[i].id);
    }
}

/// The registry of known SKUs, viewed as a map from sku id to its
/// category id.
#[derive(Clone, Debug)]
pub struct SkuRegistry {
    skus: Vec<SKU>,
}

impl View for SkuRegistry {
    type V = Map<int, int>;

    open spec fn view(&self) -> Map<int, int> {
        skus_map(self.skus_seq())
    }
}

impl SkuRegistry {
    pub closed spec fn skus_seq(&self) -> Seq<SKU> {
        self.skus@
    }

    /// Invariant: one entry per sku id.
    pub open spec fn wf(&self) -> bool {
        forall|a: int, b: int|
            0 <= a < b < self.skus_seq().len() ==> (#[trigger] self.skus_seq()[a]).id != (
            #[trigger] self.skus_seq()[b]).id
    }

    pub fn new() -> (r: Self)
        ensures
            r.wf(),
            r@ == Map::<int, int>::empty(),
    {
        SkuRegistry { skus: Vec::new() }
    }

    /// Register a sku; its id must be fresh.
    pub fn add(&mut self, sku: SKU)
        requires
            old(self).wf(),
            !old(self)@.contains_key(sku.id as int),
        ensures
            final(self).wf(),
            final(self)@ == old(self)@.insert(sku.id as int, sku.sku_category_id as int),
    {
        proof {
            lemma_skus_map_contains(self.skus_seq(), sku.id as int);
        }
        let ghost gid = sku.id as int;
        self.skus.push(sku);
        proof {
            assert(final(self).skus_seq().drop_last() == old(self).skus_seq());
            assert forall|i: int| 0 <= i < old(self).skus_seq().len() implies (
            #[trigger] old(self).skus_seq()[i]).id as int != gid by {
                lemma_skus_map_contains(old(self).skus_seq(), gid);
            }
        }
    }

    /// Resolve a sku to its category; a missing sku yields nothing.
    pub fn resolve(&self, sku_id: i64) -> (r: Option<i64>)
        requires
            self.wf(),
        ensures
            r is Some <==> self@.contains_key(sku_id as int),
            r matches Some(c) ==> c as int == self@[sku_id as int],
    {
        proof {
            lemma_skus_map_contains(self.skus_seq(), sku_id as int);
        }
        let n = self.skus.len();
        let mut i: usize = 0;
        while i < n
            invariant
                self.wf(),
                n == self.skus_seq().len(),
                i <= n,
                forall|j: int| 0 <= j < i ==> (#[trigger] self.skus_seq()[j]).id != sku_id,
            decreases n - i,
        {
            if self.skus[i].id == sku_id {
                proof {
                    lemma_skus_map_index(self.skus_seq(), i as int);
                }
                return Option::Some(self.skus[i].sku_category_id);
            }
            i = i + 1;
        }
        proof {
            lemma_skus_map_contains(self.skus_seq(), sku_id as int);
        }
        Option::None
    }
}

} // verus!
