//! Inventory operations over the store: product creation with explicit or
//! auto-allocated item numbers, full update, availability toggling, and
//! delete with the soft-delete fallback for products that billing history
//! still references.

use vstd::prelude::*;

use crate::calendar::{datetime_string, spec_datetime, MAX_EPOCH_SECS};
use crate::store::{spec_has_category, Product, StoreData};

verus! {

/// Inventory failures: a taken explicit item number, an exhausted item
/// number range, or an allocator that lost every retry (impossible under
/// the serialized store, kept for the callers' sake).
#[derive(Debug)]
pub enum InventoryError {
    ItemNumberInUse,
    ItemNumberRangeExceeded,
    AllocationExhausted,
}

impl InventoryError {
    /// The human-readable text the gateway reports for this failure.
    pub fn message(&self) -> (r: String)
        ensures
            r@ == match *self {
                InventoryError::ItemNumberInUse => "Item No already in use"@,
                InventoryError::ItemNumberRangeExceeded => "Item No overflow"@,
                InventoryError::AllocationExhausted => "Failed to allocate Item No"@,
            },
    {
        match *self {
            InventoryError::ItemNumberInUse => String::from_str("Item No already in use"),
            InventoryError::ItemNumberRangeExceeded => String::from_str("Item No overflow"),
            InventoryError::AllocationExhausted => String::from_str("Failed to allocate Item No"),
        }
    }
}

/// The first index of the product with this row id, or `-1`.
pub open spec fn spec_product_index(p: Seq<Product>, id: int) -> int
    decreases p.len(),
{
    if p.len() == 0 {
        -1
    } else if p[0].id == id {
        0
    } else {
        let r = spec_product_index(p.drop_first(), id);
        if r < 0 {
            -1
        } else {
            r + 1
        }
    }
}

proof fn lemma_product_index_at(p: Seq<Product>, id: int, k: int)
    requires
        0 <= k <= p.len(),
        forall|i: int| 0 <= i < k ==> (#[trigger] p[i]).id != id,
        k < p.len() ==> p[k].id == id,
    ensures
        k < p.len() ==> spec_product_index(p, id) == k,
        k == p.len() ==> spec_product_index(p, id) == -1,
    decreases k,
{
    if p.len() == 0 {
    } else if k == 0 {
    } else {
        lemma_product_index_at(p.drop_first(), id, k - 1);
    }
}

proof fn lemma_max_rec_ge(p: Seq<Product>, i: int)
    requires
        0 <= i < p.len(),
        p[i].item_no is Some,
    ensures
        StoreData::spec_max_item_no_rec(p) >= p[i].item_no->0,
    decreases p.len(),
{
    if i < p.len() - 1 {
        assert(p.drop_last()[i] == p[i]);
        lemma_max_rec_ge(p.drop_last(), i);
    }
}


impl StoreData {
    /// The largest item number in use, `0` when none is.
    #[verifier::loop_isolation(false)]
    pub fn max_item_no(&self) -> (r: i64)
        requires
            self.wf(),
        ensures
            r as int == self.spec_max_item_no(),
            0 <= r <= 9999,
    {
        let mut r: i64 = 0;
        let mut i: usize = 0;
        proof {
            assert(self.products@.take(0) =~= Seq::<Product>::empty());
        }
        while i < self.products.len()
            invariant
                i <= self.products@.len(),
                r as int == Self::spec_max_item_no_rec(self.products@.take(i as int)),
                0 <= r <= 9999,
            decreases self.products@.len() - i,
        {
            proof {
                assert(self.products@.take(i as int + 1).drop_last() =~= self.products@.take(
                    i as int,
                ));
                assert(self.products@.take(i as int + 1).last() == self.products@[i as int]);
            }
            match self.products[i].item_no {
                Some(n) => {
                    if n > r {
                        r = n;
                    }
                },
                None => {},
            }
            i = i + 1;
        }
        proof {
            assert(self.products@.take(self.products@.len() as int) =~= self.products@);
        }
        r
    }

    /// Whether any product carries this item number.
    #[verifier::loop_isolation(false)]
    pub fn item_no_taken(&self, n: i64) -> (r: bool)
        ensures
            r == self.spec_item_no_taken(n as int),
    {
        let mut i: usize = 0;
        while i < self.products.len()
            invariant
                i <= self.products@.len(),
                forall|j: int| 0 <= j < i ==> (#[trigger] self.products@[j]).item_no != Some(n),
            decreases self.products@.len() - i,
        {
            match self.products[i].item_no {
                Some(m) => {
                    if m == n {
                        return true;
                    }
                },
                None => {},
            }
            i = i + 1;
        }
        false
    }

    /// Whether a product other than the row with id `id` carries this item
    /// number.
    pub open spec fn spec_item_no_taken_other(&self, n: int, id: int) -> bool {
        exists|i: int|
            0 <= i < self.products@.len() && (#[trigger] self.products@[i]).item_no == Some(
                n as i64,
            ) && self.products@[i].id != id as i64
    }

    #[verifier::loop_isolation(false)]
    fn item_no_taken_other(&self, n: i64, id: i64) -> (r: bool)
        ensures
            r == self.spec_item_no_taken_other(n as int, id as int),
    {
        let mut i: usize = 0;
        while i < self.products.len()
            invariant
                i <= self.products@.len(),
                forall|j: int|
                    0 <= j < i ==> ((#[trigger] self.products@[j]).item_no != Some(n)
                        || self.products@[j].id == id),
            decreases self.products@.len() - i,
        {
            match self.products[i].item_no {
                Some(m) => {
                    if m == n && self.products[i].id != id {
                        return true;
                    }
                },
                None => {},
            }
            i = i + 1;
        }
        false
    }

    /// The first position of the product with this row id.
    #[verifier::loop_isolation(false)]
    fn product_index(&self, id: i64) -> (r: Option<usize>)
        ensures
            match r {
                Some(k) => k < self.products@.len() && self.products@[k as int].id == id
                    && spec_product_index(self.products@, id as int) == k as int,
                None => spec_product_index(self.products@, id as int) == -1,
            },
    {
        let mut i: usize = 0;
        while i < self.products.len()
            invariant
                i <= self.products@.len(),
                forall|j: int| 0 <= j < i ==> (#[trigger] self.products@[j]).id != id,
            decreases self.products@.len() - i,
        {
            if self.products[i].id == id {
                proof {
                    lemma_product_index_at(self.products@, id as int, i as int);
                }
                return Some(i);
            }
            i = i + 1;
        }
        proof {
            lemma_product_index_at(self.products@, id as int, self.products@.len() as int);
        }
        None
    }

    /// Create a product. An explicit in-range item number is used as
    /// given and a collision is reported as `ItemNumberInUse`; otherwise
    /// the next number past the current maximum is allocated, and a full
    /// range fails with `ItemNumberRangeExceeded`. The category row is
    /// resolved (and created on first reference) before either outcome.
    #[verifier::loop_isolation(false)]
    pub fn create_product(
        &mut self,
        name: &str,
        category: &str,
        price_cents: i64,
        item_no: Option<i64>,
        now_secs: u64,
    ) -> (r: Result<i64, InventoryError>)
        requires
            old(self).wf(),
            old(self).next_product_id < 0x7fff_ffff_ffff_ffff,
            old(self).next_category_id < 0x7fff_ffff_ffff_ffff,
            now_secs <= MAX_EPOCH_SECS,
        ensures
            final(self).wf(),
            final(self).settings@ == old(self).settings@,
            final(self).bills@ == old(self).bills@,
            final(self).bill_items@ == old(self).bill_items@,
            category@.len() == 0 || spec_has_category(old(self).categories@, category@) ==> final(self).categories@ == old(self).categories@,
            match r {
                Ok(id) => {
                    &&& final(self).products@.len() == old(self).products@.len() + 1
                    &&& final(self).products@.drop_last() == old(self).products@
                    &&& final(self).next_product_id == old(self).next_product_id + 1
                    &&& {
                        let p = final(self).products@.last();
                        &&& p.id == id && id == old(self).next_product_id
                        &&& p.name@ == name@
                        &&& p.price_cents == price_cents
                        &&& p.is_available == 1
                        &&& p.created_at@ == spec_datetime(now_secs as nat)
                        &&& p.updated_at@ == spec_datetime(now_secs as nat)
                        &&& p.item_no == (match item_no {
                            Some(n) => if 1 <= n <= 9999 {
                                Some(n)
                            } else {
                                Some((old(self).spec_max_item_no() + 1) as i64)
                            },
                            None => Some((old(self).spec_max_item_no() + 1) as i64),
                        })
                        &&& (category@.len() == 0 ==> p.category_id is None)
                        &&& (category@.len() > 0 ==> exists|i: int|
                            0 <= i < final(self).categories@.len() && (#[trigger] final(self).categories@[i]).name@ == category@ && p.category_id == Some(
                                final(self).categories@[i].id,
                            ))
                    }
                    &&& !(item_no matches Some(n) && 1 <= n <= 9999 && old(
                        self,
                    ).spec_item_no_taken(n as int))
                    &&& ((item_no matches Some(n) && 1 <= n <= 9999) || old(
                        self,
                    ).spec_max_item_no() < 9999)
                },
                Err(InventoryError::ItemNumberInUse) => {
                    &&& final(self).products@ == old(self).products@
                    &&& item_no matches Some(n) && 1 <= n <= 9999 && old(self).spec_item_no_taken(
                        n as int,
                    )
                },
                Err(InventoryError::ItemNumberRangeExceeded) => {
                    &&& final(self).products@ == old(self).products@
                    &&& old(self).spec_max_item_no() == 9999
                    &&& (match item_no {
                        Some(n) => !(1 <= n <= 9999),
                        None => true,
                    })
                },
                Err(InventoryError::AllocationExhausted) => false,
            },
    {
        let cat_id = self.resolve_category_id(category);
        let ghost wcat: int = if category@.len() > 0 {
            choose|i: int|
                0 <= i < self.categories@.len() && (#[trigger] self.categories@[i]).name@
                    == category@ && self.categories@[i].id == cat_id->0
        } else {
            0
        };
        proof {
            if category@.len() > 0 {
                assert(0 <= wcat < self.categories@.len() && self.categories@[wcat].name@
                    == category@ && cat_id == Some(self.categories@[wcat].id));
            }
        }
        if let Some(n) = item_no {
            if 1 <= n && n <= 9999 {
                if self.item_no_taken(n) {
                    return Err(InventoryError::ItemNumberInUse);
                }
                let ts = datetime_string(now_secs);
                let id = self.next_product_id;
                let row = Product {
                    id,
                    item_no: Some(n),
                    name: String::from_str(name),
                    category_id: cat_id,
                    price_cents,
                    is_available: 1,
                    created_at: ts.clone(),
                    updated_at: ts,
                };
                let ghost pre = self.products@;
                self.products.push(row);
                self.next_product_id = id + 1;
                proof {
                    assert(self.products@.drop_last() =~= pre);
                    if category@.len() > 0 {
                        assert(self.categories@[wcat].name@ == category@ && cat_id == Some(
                            self.categories@[wcat].id,
                        ));
                    }
                }
                return Ok(id);
            }
        }
        let mx = self.max_item_no();
        let nx = mx + 1;
        if nx > 9999 {
            return Err(InventoryError::ItemNumberRangeExceeded);
        }
        proof {
            if self.spec_item_no_taken(nx as int) {
                let w = choose|i: int|
                    0 <= i < self.products@.len() && (#[trigger] self.products@[i]).item_no
                        == Some(nx);
                lemma_max_rec_ge(self.products@, w);
            }
        }
        let ts = datetime_string(now_secs);
        let id = self.next_product_id;
        let row = Product {
            id,
            item_no: Some(nx),
            name: String::from_str(name),
            category_id: cat_id,
            price_cents,
            is_available: 1,
            created_at: ts.clone(),
            updated_at: ts,
        };
        let ghost pre = self.products@;
        self.products.push(row);
        self.next_product_id = id + 1;
        proof {
            assert(self.products@.drop_last() =~= pre);
            if category@.len() > 0 {
                assert(self.categories@[wcat].name@ == category@ && cat_id == Some(
                    self.categories@[wcat].id,
                ));
            }
        }
        Ok(id)
    }

    /// Update a product in place: an out-of-range explicit item number is
    /// treated as unset, a collision with another product's number is
    /// `ItemNumberInUse`, and an unknown id changes no product row.
    pub fn update_product(
        &mut self,
        id: i64,
        name: &str,
        category: &str,
        price_cents: i64,
        item_no_raw: Option<i64>,
        now_secs: u64,
    ) -> (r: Result<(), InventoryError>)
        requires
            old(self).wf(),
            old(self).next_category_id < 0x7fff_ffff_ffff_ffff,
            now_secs <= MAX_EPOCH_SECS,
        ensures
            final(self).wf(),
            final(self).settings@ == old(self).settings@,
            final(self).bills@ == old(self).bills@,
            final(self).bill_items@ == old(self).bill_items@,
            final(self).next_product_id == old(self).next_product_id,
            category@.len() == 0 || spec_has_category(old(self).categories@, category@) ==> final(self).categories@ == old(self).categories@,
            ({
                let no = (match item_no_raw {
                    Some(n) => if 1 <= n <= 9999 {
                        Some(n)
                    } else {
                        None
                    },
                    None => None,
                });
                let k = spec_product_index(old(self).products@, id as int);
                match r {
                    Ok(()) => {
                        &&& (k == -1 ==> final(self).products@ == old(self).products@)
                        &&& (k >= 0 ==> {
                            &&& final(self).products@ == old(self).products@.update(
                                k,
                                final(self).products@[k],
                            )
                            &&& {
                                let p = final(self).products@[k];
                                &&& p.id == id
                                &&& p.name@ == name@
                                &&& p.price_cents == price_cents
                                &&& p.item_no == no
                                &&& p.is_available == old(self).products@[k].is_available
                                &&& p.created_at@ == old(self).products@[k].created_at@
                                &&& p.updated_at@ == spec_datetime(now_secs as nat)
                                &&& (category@.len() == 0 ==> p.category_id is None)
                                &&& (category@.len() > 0 ==> exists|i: int|
                                    0 <= i < final(self).categories@.len() && (#[trigger] final(self).categories@[i]).name@ == category@ && p.category_id == Some(
                                        final(self).categories@[i].id,
                                    ))
                            }
                        })
                        &&& !(no matches Some(n) && k >= 0 && old(self).spec_item_no_taken_other(
                            n as int,
                            id as int,
                        ))
                    },
                    Err(InventoryError::ItemNumberInUse) => {
                        &&& final(self).products@ == old(self).products@
                        &&& no matches Some(n) && k >= 0 && old(self).spec_item_no_taken_other(
                            n as int,
                            id as int,
                        )
                    },
                    Err(_) => false,
                }
            }),
    {
        let item_no: Option<i64> = match item_no_raw {
            Some(n) => if 1 <= n && n <= 9999 {
                Some(n)
            } else {
                None
            },
            None => None,
        };
        let cat_id = self.resolve_category_id(category);
        let ghost wcat: int = if category@.len() > 0 {
            choose|i: int|
                0 <= i < self.categories@.len() && (#[trigger] self.categories@[i]).name@
                    == category@ && self.categories@[i].id == cat_id->0
        } else {
            0
        };
        proof {
            if category@.len() > 0 {
                assert(0 <= wcat < self.categories@.len() && self.categories@[wcat].name@
                    == category@ && cat_id == Some(self.categories@[wcat].id));
            }
        }
        let idx = self.product_index(id);
        match idx {
            None => Ok(()),
            Some(k) => {
                if let Some(n) = item_no {
                    if self.item_no_taken_other(n, id) {
                        return Err(InventoryError::ItemNumberInUse);
                    }
                }
                let ghost pre = self.products@;
                let old_row = &self.products[k];
                let row = Product {
                    id,
                    item_no,
                    name: String::from_str(name),
                    category_id: cat_id,
                    price_cents,
                    is_available: old_row.is_available,
                    created_at: old_row.created_at.clone(),
                    updated_at: datetime_string(now_secs),
                };
                self.products.set(k, row);
                proof {
                    assert(self.products@ =~= pre.update(k as int, self.products@[k as int]));
                    assert forall|a: int, b: int|
                        0 <= a < b < self.products@.len() implies (self.products@[a].item_no
                        is Some ==> self.products@[a].item_no != self.products@[b].item_no) by {
                        if a != k && b != k {
                            assert(self.products@[a] == pre[a] && self.products@[b] == pre[b]);
                        } else {
                            assert(pre[a].id != pre[b].id);
                        }
                    }
                    if category@.len() > 0 {
                        assert(self.categories@[wcat].name@ == category@ && cat_id == Some(
                            self.categories@[wcat].id,
                        ));
                    }
                }
                Ok(())
            },
        }
    }

    /// Set a product's availability flag; unknown ids change nothing, and
    /// repeating the call changes nothing more.
    pub fn set_availability(&mut self, id: i64, avail: i64)
        requires
            old(self).wf(),
        ensures
            final(self).wf(),
            final(self).settings@ == old(self).settings@,
            final(self).categories@ == old(self).categories@,
            final(self).bills@ == old(self).bills@,
            final(self).bill_items@ == old(self).bill_items@,
            final(self).next_product_id == old(self).next_product_id,
            final(self).next_category_id == old(self).next_category_id,
            ({
                let k = spec_product_index(old(self).products@, id as int);
                &&& (k == -1 ==> final(self).products@ == old(self).products@)
                &&& (k >= 0 ==> final(self).products@ == old(self).products@.update(
                    k,
                    Product { is_available: avail, ..old(self).products@[k] },
                ))
            }),
    {
        let idx = self.product_index(id);
        match idx {
            None => {},
            Some(k) => {
                let ghost pre = self.products@;
                let old_row = &self.products[k];
                let row = Product {
                    id: old_row.id,
                    item_no: old_row.item_no,
                    name: old_row.name.clone(),
                    category_id: old_row.category_id,
                    price_cents: old_row.price_cents,
                    is_available: avail,
                    created_at: old_row.created_at.clone(),
                    updated_at: old_row.updated_at.clone(),
                };
                self.products.set(k, row);
                proof {
                    assert(self.products@ =~= pre.update(
                        k as int,
                        Product { is_available: avail, ..pre[k as int] },
                    ));
                    assert forall|a: int, b: int|
                        0 <= a < b < self.products@.len() implies (self.products@[a].item_no
                        is Some ==> self.products@[a].item_no != self.products@[b].item_no) by {
                        assert(self.products@[a].item_no == pre[a].item_no);
                        assert(self.products@[b].item_no == pre[b].item_no);
                    }
                }
            },
        }
    }

    /// Delete a product: a row still referenced by billing history is
    /// soft-deleted (kept with availability cleared) and reported as
    /// disabled; an unreferenced row is removed outright. Unknown ids
    /// change nothing.
    pub fn delete_product(&mut self, id: i64) -> (disabled: bool)
        requires
            old(self).wf(),
        ensures
            final(self).wf(),
            final(self).settings@ == old(self).settings@,
            final(self).categories@ == old(self).categories@,
            final(self).bills@ == old(self).bills@,
            final(self).bill_items@ == old(self).bill_items@,
            disabled == old(self).spec_product_referenced(id as int),
            ({
                let k = spec_product_index(old(self).products@, id as int);
                if old(self).spec_product_referenced(id as int) {
                    &&& (k == -1 ==> final(self).products@ == old(self).products@)
                    &&& (k >= 0 ==> final(self).products@ == old(self).products@.update(
                        k,
                        Product { is_available: 0, ..old(self).products@[k] },
                    ))
                } else {
                    &&& (k == -1 ==> final(self).products@ == old(self).products@)
                    &&& (k >= 0 ==> final(self).products@ == old(self).products@.remove(k))
                }
            }),
    {
        let referenced = self.product_referenced(id);
        if referenced {
            self.set_availability(id, 0);
            true
        } else {
            let idx = self.product_index(id);
            match idx {
                None => {},
                Some(k) => {
                    let ghost pre = self.products@;
                    let _ = self.products.remove(k);
                    proof {
                        assert forall|a: int, b: int|
                            0 <= a < b < self.products@.len() implies (self.products@[a].item_no
                            is Some ==> self.products@[a].item_no != self.products@[b].item_no)
                            && self.products@[a].id != self.products@[b].id by {
                            let a0 = if a < k {
                                a
                            } else {
                                a + 1
                            };
                            let b0 = if b < k {
                                b
                            } else {
                                b + 1
                            };
                            assert(self.products@[a] == pre[a0]);
                            assert(self.products@[b] == pre[b0]);
                        }
                    }
                },
            }
            false
        }
    }

    /// Whether any bill item references this product.
    #[verifier::loop_isolation(false)]
    pub fn product_referenced(&self, id: i64) -> (r: bool)
        ensures
            r == self.spec_product_referenced(id as int),
    {
        let mut i: usize = 0;
        while i < self.bill_items.len()
            invariant
                i <= self.bill_items@.len(),
                forall|j: int| 0 <= j < i ==> (#[trigger] self.bill_items@[j]).product_id != id,
            decreases self.bill_items@.len() - i,
        {
            if self.bill_items[i].product_id == id {
                return true;
            }
            i = i + 1;
        }
        false
    }
}

} // verus!
