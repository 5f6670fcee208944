//! The in-memory relational store behind the engine: settings, categories,
//! products, bills and bill items, with the schema's invariants stated as
//! one well-formedness predicate that every operation preserves. The
//! durable file mirror of this store lives outside the library; every rule
//! about its rows is proved here.

use vstd::prelude::*;

use crate::text::{spec_dec, spec_dec_padded};

verus! {

/// One key/value configuration row.
pub struct Setting {
    pub key: String,
    pub value: String,
}

/// One category row.
pub struct Category {
    pub id: i64,
    pub name: String,
    pub is_active: i64,
}

/// One product row; `item_no` is the optional human-facing code.
pub struct Product {
    pub id: i64,
    pub item_no: Option<i64>,
    pub name: String,
    pub category_id: Option<i64>,
    pub price_cents: i64,
    pub is_available: i64,
    pub created_at: String,
    pub updated_at: String,
}

/// One bill row, immutable once written.
pub struct Bill {
    pub id: i64,
    pub bill_no: String,
    pub subtotal_cents: i64,
    pub discount_rate_bps: i64,
    pub discount_cents: i64,
    pub total_cents: i64,
    pub created_at: String,
}

/// One bill line item, owned by its bill.
pub struct BillItem {
    pub id: i64,
    pub bill_id: i64,
    pub product_id: i64,
    pub product_name: String,
    pub unit_price_cents: i64,
    pub qty: i64,
    pub line_total_cents: i64,
}

/// The whole store: every table plus the row-id counters.
pub struct StoreData {
    pub settings: Vec<Setting>,
    pub categories: Vec<Category>,
    pub products: Vec<Product>,
    pub bills: Vec<Bill>,
    pub bill_items: Vec<BillItem>,
    pub next_category_id: i64,
    pub next_product_id: i64,
}

/// Some category carries this name.
pub open spec fn spec_has_category(c: Seq<Category>, name: Seq<char>) -> bool {
    exists|i: int| 0 <= i < c.len() && (#[trigger] c[i]).name@ == name
}

/// The value of a settings key, when the key is present.
pub open spec fn spec_setting(s: Seq<Setting>, key: Seq<char>) -> Option<Seq<char>>
    decreases s.len(),
{
    if s.len() == 0 {
        None
    } else if s[0].key@ == key {
        Some(s[0].value@)
    } else {
        spec_setting(s.drop_first(), key)
    }
}

/// The bill number assigned to sequence value `n`: `MNE-` plus the value
/// zero-filled to six digits.
pub open spec fn spec_bill_no(n: nat) -> Seq<char> {
    "MNE-"@ + spec_dec_padded(n, 6)
}

impl StoreData {
    /// The largest item number in use, `0` when none is.
    pub open spec fn spec_max_item_no(&self) -> int {
        Self::spec_max_item_no_rec(self.products@)
    }

    pub open spec fn spec_max_item_no_rec(p: Seq<Product>) -> int
        decreases p.len(),
    {
        if p.len() == 0 {
            0
        } else {
            let rest = Self::spec_max_item_no_rec(p.drop_last());
            match p.last().item_no {
                Some(n) => if n > rest {
                    n as int
                } else {
                    rest
                },
                None => rest,
            }
        }
    }

    /// Some product carries this item number.
    pub open spec fn spec_item_no_taken(&self, n: int) -> bool {
        exists|i: int|
            0 <= i < self.products@.len() && self.products@[i].item_no == Some(n as i64)
    }

    /// Some bill item references this product.
    pub open spec fn spec_product_referenced(&self, id: int) -> bool {
        exists|i: int|
            0 <= i < self.bill_items@.len() && self.bill_items@[i].product_id == id as i64
    }

    /// The schema's invariants: unique settings keys; the bill sequence
    /// setting holding exactly the bill count; bills numbered gap-free in
    /// row order; line items owned by existing bills with clamped
    /// quantities and consistent line totals; unique product ids and
    /// unique in-range item numbers; unique non-empty category names.
    pub open spec fn wf(&self) -> bool {
        &&& (forall|i: int, j: int|
            0 <= i < j < self.settings@.len() ==> self.settings@[i].key@ != self.settings@[j].key@)
        &&& spec_setting(self.settings@, "bill_seq"@) == Some(spec_dec(self.bills@.len()))
        &&& spec_setting(self.settings@, "discount_rate_bps"@) is Some
        &&& (forall|i: int|
            0 <= i < self.bills@.len() ==> (#[trigger] self.bills@[i]).id == i + 1
                && self.bills@[i].bill_no@ == spec_bill_no((i + 1) as nat)
                && self.bills@[i].total_cents == self.bills@[i].subtotal_cents
                - self.bills@[i].discount_cents)
        &&& (forall|i: int|
            0 <= i < self.bill_items@.len() ==> (#[trigger] self.bill_items@[i]).id == i + 1 && 1
                <= self.bill_items@[i].bill_id <= self.bills@.len() && 1
                <= self.bill_items@[i].qty <= 1000 && self.bill_items@[i].unit_price_cents >= 0
                && self.bill_items@[i].line_total_cents == self.bill_items@[i].qty
                * self.bill_items@[i].unit_price_cents)
        &&& (forall|i: int|
            0 <= i < self.products@.len() ==> 1 <= (#[trigger] self.products@[i]).id
                < self.next_product_id)
        &&& (forall|i: int, j: int|
            0 <= i < j < self.products@.len() ==> self.products@[i].id != self.products@[j].id)
        &&& (forall|i: int|
            0 <= i < self.products@.len() ==> match (#[trigger] self.products@[i]).item_no {
                Some(n) => 1 <= n <= 9999,
                None => true,
            })
        &&& (forall|i: int, j: int|
            0 <= i < j < self.products@.len() ==> (self.products@[i].item_no is Some
                ==> self.products@[i].item_no != self.products@[j].item_no))
        &&& (forall|i: int|
            0 <= i < self.categories@.len() ==> 1 <= (#[trigger] self.categories@[i]).id
                < self.next_category_id && self.categories@[i].name@.len() > 0)
        &&& (forall|i: int, j: int|
            0 <= i < j < self.categories@.len() ==> self.categories@[i].id
                != self.categories@[j].id && self.categories@[i].name@
                != self.categories@[j].name@)
        &&& 1 <= self.next_category_id
        &&& 1 <= self.next_product_id
    }
}

proof fn lemma_setting_push_new(s: Seq<Setting>, key: Seq<char>, x: Setting)
    requires
        spec_setting(s, key) is None,
        x.key@ == key,
    ensures
        spec_setting(s.push(x), key) == Some(x.value@),
    decreases s.len(),
{
    if s.len() > 0 {
        assert(s.push(x).drop_first() =~= s.drop_first().push(x));
        lemma_setting_push_new(s.drop_first(), key, x);
    }
}

proof fn lemma_setting_update(s: Seq<Setting>, key: Seq<char>, i: int, x: Setting)
    requires
        0 <= i < s.len(),
        s[i].key@ == key,
        x.key@ == key,
        forall|j: int| 0 <= j < i ==> (#[trigger] s[j]).key@ != key,
    ensures
        spec_setting(s.update(i, x), key) == Some(x.value@),
    decreases i,
{
    if i == 0 {
    } else {
        assert(s.update(i, x).drop_first() =~= s.drop_first().update(i - 1, x));
        assert(forall|j: int|
            0 <= j < i - 1 ==> (#[trigger] s.drop_first()[j]).key@ == s[j + 1].key@);
        lemma_setting_update(s.drop_first(), key, i - 1, x);
    }
}

proof fn lemma_setting_update_other(s: Seq<Setting>, key: Seq<char>, i: int, x: Setting)
    requires
        0 <= i < s.len(),
        s[i].key@ != key,
        x.key@ == s[i].key@,
    ensures
        spec_setting(s.update(i, x), key) == spec_setting(s, key),
    decreases i,
{
    if i == 0 {
        assert(s.update(0, x).drop_first() =~= s.drop_first());
    } else {
        assert(s.update(i, x).drop_first() =~= s.drop_first().update(i - 1, x));
        lemma_setting_update_other(s.drop_first(), key, i - 1, x);
    }
}

impl StoreData {
    /// Look a settings key up, handing back the fallback when it is
    /// absent, as a missing row would.
    #[verifier::loop_isolation(false)]
    pub fn get_setting(&self, key: &str, fallback: &str) -> (r: String)
        ensures
            r@ == match spec_setting(self.settings@, key@) {
                Some(v) => v,
                None => fallback@,
            },
    {
        let ks = String::from_str(key);
        let mut i: usize = 0;
        proof {
            assert(self.settings@.skip(0) =~= self.settings@);
        }
        while i < self.settings.len()
            invariant
                i <= self.settings@.len(),
                ks@ == key@,
                spec_setting(self.settings@, key@) == spec_setting(
                    self.settings@.skip(i as int),
                    key@,
                ),
            decreases self.settings@.len() - i,
        {
            let ghost rem = self.settings@.skip(i as int);
            proof {
                assert(rem[0] == self.settings@[i as int]);
                assert(rem.drop_first() =~= self.settings@.skip(i as int + 1));
            }
            if self.settings[i].key.eq(&ks) {
                return self.settings[i].value.clone();
            }
            i = i + 1;
        }
        String::from_str(fallback)
    }

    /// Insert or overwrite a settings key. The bill sequence key is
    /// reserved: the bill transaction is its only writer.
    #[verifier::loop_isolation(false)]
    pub fn set_setting(&mut self, key: &str, value: &str)
        requires
            old(self).wf(),
            key@ != "bill_seq"@,
        ensures
            final(self).wf(),
            spec_setting(final(self).settings@, key@) == Some(value@),
            forall|k: Seq<char>|
                k != key@ ==> #[trigger] spec_setting(final(self).settings@, k) == spec_setting(
                    old(self).settings@,
                    k,
                ),
            final(self).categories@ == old(self).categories@,
            final(self).products@ == old(self).products@,
            final(self).bills@ == old(self).bills@,
            final(self).bill_items@ == old(self).bill_items@,
            final(self).next_category_id == old(self).next_category_id,
            final(self).next_product_id == old(self).next_product_id,
    {
        let ks = String::from_str(key);
        let mut i: usize = 0;
        while i < self.settings.len()
            invariant
                i <= self.settings@.len(),
                ks@ == key@,
                *self == *old(self),
                forall|j: int| 0 <= j < i ==> (#[trigger] self.settings@[j]).key@ != key@,
            decreases self.settings@.len() - i,
        {
            if self.settings[i].key.eq(&ks) {
                let ghost pre = self.settings@;
                let row = Setting { key: String::from_str(key), value: String::from_str(value) };
                self.settings.set(i, row);
                proof {
                    lemma_setting_update(pre, key@, i as int, self.settings@[i as int]);
                    assert forall|k: Seq<char>| k != key@ implies #[trigger] spec_setting(
                        self.settings@,
                        k,
                    ) == spec_setting(pre, k) by {
                        lemma_setting_update_other(pre, k, i as int, self.settings@[i as int]);
                    }
                    assert(forall|j: int|
                        0 <= j < self.settings@.len() && j != i ==> self.settings@[j] == pre[j]);
                    assert(forall|j: int|
                        0 <= j < self.settings@.len() ==> (#[trigger] self.settings@[j]).key@
                            == pre[j].key@);
                    reveal_strlit("bill_seq");
                    reveal_strlit("discount_rate_bps");
                }
                return ;
            }
            i = i + 1;
        }
        let ghost pre = self.settings@;
        proof {
            lemma_setting_absent_rev(pre, key@);
        }
        let row = Setting { key: String::from_str(key), value: String::from_str(value) };
        self.settings.push(row);
        proof {
            lemma_setting_push_new(pre, key@, self.settings@.last());
            assert forall|k: Seq<char>| k != key@ implies #[trigger] spec_setting(
                self.settings@,
                k,
            ) == spec_setting(pre, k) by {
                lemma_setting_push_other(pre, k, self.settings@.last());
            }
            assert(forall|j: int| 0 <= j < pre.len() ==> self.settings@[j] == pre[j]);
            assert(self.settings@.last().key@ == key@);
            reveal_strlit("bill_seq");
            reveal_strlit("discount_rate_bps");
        }
    }
}

impl StoreData {
    /// Advance the bill sequence setting to `n`. This is the one writer of
    /// the `bill_seq` key, used inside the bill transaction just before
    /// the bill row whose count it reflects is appended; well-formedness
    /// is restored by that append.
    #[verifier::loop_isolation(false)]
    pub(crate) fn set_bill_seq(&mut self, n: u64)
        requires
            spec_setting(old(self).settings@, "bill_seq"@) is Some,
            forall|i: int, j: int|
                0 <= i < j < old(self).settings@.len() ==> old(self).settings@[i].key@ != old(
                    self,
                ).settings@[j].key@,
        ensures
            spec_setting(final(self).settings@, "bill_seq"@) == Some(spec_dec(n as nat)),
            forall|k: Seq<char>|
                k != "bill_seq"@ ==> #[trigger] spec_setting(final(self).settings@, k)
                    == spec_setting(old(self).settings@, k),
            final(self).settings@.len() == old(self).settings@.len(),
            forall|j: int|
                0 <= j < old(self).settings@.len() ==> (#[trigger] final(self).settings@[j]).key@
                    == old(self).settings@[j].key@,
            final(self).categories@ == old(self).categories@,
            final(self).products@ == old(self).products@,
            final(self).bills@ == old(self).bills@,
            final(self).bill_items@ == old(self).bill_items@,
            final(self).next_category_id == old(self).next_category_id,
            final(self).next_product_id == old(self).next_product_id,
    {
        let ks = String::from_str("bill_seq");
        let mut i: usize = 0;
        while i < self.settings.len()
            invariant
                i <= self.settings@.len(),
                ks@ == "bill_seq"@,
                *self == *old(self),
                forall|j: int| 0 <= j < i ==> (#[trigger] self.settings@[j]).key@ != "bill_seq"@,
            decreases self.settings@.len() - i,
        {
            if self.settings[i].key.eq(&ks) {
                let ghost pre = self.settings@;
                let row = Setting { key: ks, value: crate::text::dec_string(n) };
                self.settings.set(i, row);
                proof {
                    lemma_setting_update(pre, "bill_seq"@, i as int, self.settings@[i as int]);
                    assert forall|k: Seq<char>| k != "bill_seq"@ implies #[trigger] spec_setting(
                        self.settings@,
                        k,
                    ) == spec_setting(pre, k) by {
                        lemma_setting_update_other(pre, k, i as int, self.settings@[i as int]);
                    }
                    assert(forall|j: int|
                        0 <= j < self.settings@.len() ==> (#[trigger] self.settings@[j]).key@
                            == pre[j].key@);
                }
                return ;
            }
            i = i + 1;
        }
        proof {
            lemma_setting_absent_rev(self.settings@, "bill_seq"@);
            assert(false);
        }
    }
}

proof fn lemma_setting_absent_rev(s: Seq<Setting>, key: Seq<char>)
    requires
        forall|i: int| 0 <= i < s.len() ==> (#[trigger] s[i]).key@ != key,
    ensures
        spec_setting(s, key) is None,
    decreases s.len(),
{
    if s.len() > 0 {
        assert(forall|i: int|
            0 <= i < s.drop_first().len() ==> (#[trigger] s.drop_first()[i]).key@ == s[i
                + 1].key@);
        lemma_setting_absent_rev(s.drop_first(), key);
    }
}

proof fn lemma_setting_push_other(s: Seq<Setting>, key: Seq<char>, x: Setting)
    requires
        x.key@ != key,
    ensures
        spec_setting(s.push(x), key) == spec_setting(s, key),
    decreases s.len(),
{
    if s.len() > 0 {
        assert(s.push(x).drop_first() =~= s.drop_first().push(x));
        lemma_setting_push_other(s.drop_first(), key, x);
    } else {
        assert(s.push(x).drop_first() =~= s);
    }
}

impl StoreData {
    /// A freshly initialized store: empty tables, the bill sequence seeded
    /// at zero and the legacy discount rate seeded alongside it.
    pub fn init() -> (s: StoreData)
        ensures
            s.wf(),
            s.settings@.len() == 2,
            s.settings@[0].key@ == "bill_seq"@,
            s.settings@[1].key@ == "discount_rate_bps"@,
            spec_setting(s.settings@, "bill_seq"@) == Some("0"@),
            spec_setting(s.settings@, "discount_rate_bps"@) == Some("0"@),
            s.categories@.len() == 0,
            s.products@.len() == 0,
            s.bills@.len() == 0,
            s.bill_items@.len() == 0,
            s.next_category_id == 1,
            s.next_product_id == 1,
    {
        let mut settings: Vec<Setting> = Vec::new();
        settings.push(
            Setting { key: String::from_str("bill_seq"), value: String::from_str("0") },
        );
        settings.push(
            Setting { key: String::from_str("discount_rate_bps"), value: String::from_str("0") },
        );
        let s = StoreData {
            settings,
            categories: Vec::new(),
            products: Vec::new(),
            bills: Vec::new(),
            bill_items: Vec::new(),
            next_category_id: 1,
            next_product_id: 1,
        };
        proof {
            reveal_strlit("bill_seq");
            reveal_strlit("discount_rate_bps");
            reveal_strlit("0");
            assert("bill_seq"@.len() == 8);
            assert("discount_rate_bps"@.len() == 17);
            assert(s.settings@[0].key@ == "bill_seq"@);
            assert(s.settings@[1].key@ == "discount_rate_bps"@);
            assert(s.settings@[0].key@ != s.settings@[1].key@);
            assert(spec_setting(s.settings@, "bill_seq"@) == Some("0"@));
            assert(s.settings@.drop_first()[0] == s.settings@[1]);
            assert(s.settings@.drop_first().len() == 1);
            assert(spec_setting(s.settings@.drop_first(), "discount_rate_bps"@) == Some("0"@));
            assert(spec_setting(s.settings@, "discount_rate_bps"@) == Some("0"@));
            assert(spec_dec(0) =~= "0"@);
        }
        s
    }

    /// Re-apply the schema to an existing store: seed the two settings
    /// keys only where they are missing and touch nothing else. On a
    /// well-formed store this is a no-op.
    pub fn apply_schema(&mut self)
        ensures
            old(self).wf() ==> *final(self) == *old(self),
            spec_setting(old(self).settings@, "bill_seq"@) is Some && spec_setting(
                old(self).settings@,
                "discount_rate_bps"@,
            ) is Some ==> *final(self) == *old(self),
    {
        let have_seq = self.has_setting("bill_seq");
        if !have_seq {
            self.settings.push(
                Setting { key: String::from_str("bill_seq"), value: String::from_str("0") },
            );
        }
        let have_rate = self.has_setting("discount_rate_bps");
        if !have_rate {
            self.settings.push(
                Setting {
                    key: String::from_str("discount_rate_bps"),
                    value: String::from_str("0"),
                },
            );
        }
    }

    /// Whether a settings key is present.
    #[verifier::loop_isolation(false)]
    pub fn has_setting(&self, key: &str) -> (r: bool)
        ensures
            r == (spec_setting(self.settings@, key@) is Some),
    {
        let ks = String::from_str(key);
        let mut i: usize = 0;
        proof {
            assert(self.settings@.skip(0) =~= self.settings@);
        }
        while i < self.settings.len()
            invariant
                i <= self.settings@.len(),
                ks@ == key@,
                spec_setting(self.settings@, key@) == spec_setting(
                    self.settings@.skip(i as int),
                    key@,
                ),
            decreases self.settings@.len() - i,
        {
            let ghost rem = self.settings@.skip(i as int);
            proof {
                assert(rem[0] == self.settings@[i as int]);
                assert(rem.drop_first() =~= self.settings@.skip(i as int + 1));
            }
            if self.settings[i].key.eq(&ks) {
                return true;
            }
            i = i + 1;
        }
        false
    }

    /// Resolve a category name to its row id, creating the row on first
    /// reference; the empty name maps to no category.
    #[verifier::loop_isolation(false)]
    pub fn resolve_category_id(&mut self, name: &str) -> (r: Option<i64>)
        requires
            old(self).wf(),
            old(self).next_category_id < 0x7fff_ffff_ffff_ffff,
        ensures
            final(self).wf(),
            final(self).settings@ == old(self).settings@,
            final(self).products@ == old(self).products@,
            final(self).bills@ == old(self).bills@,
            final(self).bill_items@ == old(self).bill_items@,
            final(self).next_product_id == old(self).next_product_id,
            name@.len() == 0 ==> r is None && *final(self) == *old(self),
            name@.len() > 0 ==> match r {
                Some(id) => exists|i: int|
                    0 <= i < final(self).categories@.len() && (#[trigger] final(self).categories@[i]).name@ == name@ && final(self).categories@[i].id == id,
                None => false,
            },
            name@.len() > 0 && spec_has_category(old(self).categories@, name@) ==> *final(self)
                == *old(self),
            name@.len() > 0 && !spec_has_category(old(self).categories@, name@) ==> final(self).categories@ == old(self).categories@.push(final(self).categories@.last()) && final(self).next_category_id == old(self).next_category_id + 1,
    {
        if name.is_empty() {
            return None;
        }
        let ns = String::from_str(name);
        let mut i: usize = 0;
        while i < self.categories.len()
            invariant
                i <= self.categories@.len(),
                ns@ == name@,
                *self == *old(self),
                forall|j: int| 0 <= j < i ==> (#[trigger] self.categories@[j]).name@ != name@,
            decreases self.categories@.len() - i,
        {
            if self.categories[i].name.eq(&ns) {
                return Some(self.categories[i].id);
            }
            i = i + 1;
        }
        let id = self.next_category_id;
        let row = Category { id, name: ns, is_active: 1 };
        self.categories.push(row);
        self.next_category_id = id + 1;
        proof {
            let pre = old(self).categories@;
            assert(forall|j: int| 0 <= j < pre.len() ==> self.categories@[j] == pre[j]);
            assert(self.categories@.last().name@ == name@);
            assert(self.categories@.last().id == id);
            assert(self.categories@.len() == pre.len() + 1);
            assert forall|a: int, b: int|
                0 <= a < b < self.categories@.len() implies self.categories@[a].id
                != self.categories@[b].id && self.categories@[a].name@
                != self.categories@[b].name@ by {
                if b == pre.len() {
                    assert(self.categories@[a] == pre[a]);
                    assert(pre[a].id < old(self).next_category_id);
                    assert(pre[a].name@ != name@);
                }
            }
        }
        Some(id)
    }
}

} // verus!


verus! {

/// The value view of settings rows.
pub open spec fn v_settings(s: Seq<Setting>) -> Seq<(Seq<char>, Seq<char>)> {
    s.map_values(|x: Setting| (x.key@, x.value@))
}

/// The value view of category rows.
pub open spec fn v_categories(s: Seq<Category>) -> Seq<(int, Seq<char>, int)> {
    s.map_values(|x: Category| (x.id as int, x.name@, x.is_active as int))
}

/// The value view of product rows.
pub open spec fn v_products(s: Seq<Product>) -> Seq<
    (int, Option<i64>, Seq<char>, Option<i64>, int, int, Seq<char>, Seq<char>),
> {
    s.map_values(
        |x: Product|
            (
                x.id as int,
                x.item_no,
                x.name@,
                x.category_id,
                x.price_cents as int,
                x.is_available as int,
                x.created_at@,
                x.updated_at@,
            ),
    )
}

/// The value view of bill rows.
pub open spec fn v_bills(s: Seq<Bill>) -> Seq<(int, Seq<char>, int, int, int, int, Seq<char>)> {
    s.map_values(
        |x: Bill|
            (
                x.id as int,
                x.bill_no@,
                x.subtotal_cents as int,
                x.discount_rate_bps as int,
                x.discount_cents as int,
                x.total_cents as int,
                x.created_at@,
            ),
    )
}

/// The value view of bill item rows.
pub open spec fn v_bill_items(s: Seq<BillItem>) -> Seq<(int, int, int, Seq<char>, int, int, int)> {
    s.map_values(
        |x: BillItem|
            (
                x.id as int,
                x.bill_id as int,
                x.product_id as int,
                x.product_name@,
                x.unit_price_cents as int,
                x.qty as int,
                x.line_total_cents as int,
            ),
    )
}

/// Two stores hold the same content: every table row for row by value,
/// and the same id counters.
pub open spec fn store_eq(a: &StoreData, b: &StoreData) -> bool {
    &&& v_settings(a.settings@) == v_settings(b.settings@)
    &&& v_categories(a.categories@) == v_categories(b.categories@)
    &&& v_products(a.products@) == v_products(b.products@)
    &&& v_bills(a.bills@) == v_bills(b.bills@)
    &&& v_bill_items(a.bill_items@) == v_bill_items(b.bill_items@)
    &&& a.next_category_id == b.next_category_id
    &&& a.next_product_id == b.next_product_id
}

/// Content equality between stores carries over: two stores equal to a
/// third are equal to each other.
pub proof fn lemma_store_eq_trans(a: &StoreData, b: &StoreData, c: &StoreData)
    requires
        store_eq(a, b),
        store_eq(b, c),
    ensures
        store_eq(a, c),
{
}

/// A store with the same content as a well-formed store is well-formed.
pub proof fn lemma_store_eq_wf(a: &StoreData, b: &StoreData)
    requires
        store_eq(a, b),
        a.wf(),
    ensures
        b.wf(),
{
    assert(v_settings(a.settings@).len() == a.settings@.len());
    assert(v_settings(b.settings@).len() == b.settings@.len());
    assert(v_categories(a.categories@).len() == a.categories@.len());
    assert(v_categories(b.categories@).len() == b.categories@.len());
    assert(v_products(a.products@).len() == a.products@.len());
    assert(v_products(b.products@).len() == b.products@.len());
    assert(v_bills(a.bills@).len() == a.bills@.len());
    assert(v_bills(b.bills@).len() == b.bills@.len());
    assert(v_bill_items(a.bill_items@).len() == a.bill_items@.len());
    assert(v_bill_items(b.bill_items@).len() == b.bill_items@.len());
    assert forall|i: int| 0 <= i < b.settings@.len() implies (#[trigger] b.settings@[i]).key@
        == a.settings@[i].key@ && b.settings@[i].value@ == a.settings@[i].value@ by {
        assert(v_settings(a.settings@)[i] == v_settings(b.settings@)[i]);
    }
    lemma_setting_eq(a.settings@, b.settings@, "bill_seq"@);
    lemma_setting_eq(a.settings@, b.settings@, "discount_rate_bps"@);
    assert forall|i: int| 0 <= i < b.bills@.len() implies {
        let x = #[trigger] b.bills@[i];
        x.id == a.bills@[i].id && x.bill_no@ == a.bills@[i].bill_no@ && x.total_cents
            == a.bills@[i].total_cents && x.subtotal_cents == a.bills@[i].subtotal_cents
            && x.discount_cents == a.bills@[i].discount_cents
    } by {
        assert(v_bills(a.bills@)[i] == v_bills(b.bills@)[i]);
    }
    assert forall|i: int| 0 <= i < b.bill_items@.len() implies {
        let x = #[trigger] b.bill_items@[i];
        x.id == a.bill_items@[i].id && x.bill_id == a.bill_items@[i].bill_id && x.qty
            == a.bill_items@[i].qty && x.unit_price_cents == a.bill_items@[i].unit_price_cents
            && x.line_total_cents == a.bill_items@[i].line_total_cents
    } by {
        assert(v_bill_items(a.bill_items@)[i] == v_bill_items(b.bill_items@)[i]);
    }
    assert forall|i: int| 0 <= i < b.products@.len() implies {
        let x = #[trigger] b.products@[i];
        x.id == a.products@[i].id && x.item_no == a.products@[i].item_no
    } by {
        assert(v_products(a.products@)[i] == v_products(b.products@)[i]);
    }
    assert forall|i: int| 0 <= i < b.categories@.len() implies {
        let x = #[trigger] b.categories@[i];
        x.id == a.categories@[i].id && x.name@ == a.categories@[i].name@
    } by {
        assert(v_categories(a.categories@)[i] == v_categories(b.categories@)[i]);
    }
}

proof fn lemma_setting_eq(a: Seq<Setting>, b: Seq<Setting>, key: Seq<char>)
    requires
        a.len() == b.len(),
        forall|i: int| 0 <= i < a.len() ==> v_settings(a)[i] == v_settings(b)[i],
    ensures
        spec_setting(a, key) == spec_setting(b, key),
    decreases a.len(),
{
    if a.len() > 0 {
        assert(v_settings(a)[0] == v_settings(b)[0]);
        assert(a[0].key@ == b[0].key@ && a[0].value@ == b[0].value@);
        assert(forall|i: int|
            0 <= i < a.drop_first().len() ==> v_settings(a.drop_first())[i] == v_settings(
                b.drop_first(),
            )[i]) by {
            assert(forall|i: int|
                0 <= i < a.drop_first().len() ==> a.drop_first()[i] == a[i + 1]
                    && b.drop_first()[i] == b[i + 1] && v_settings(a)[i + 1] == v_settings(b)[i
                    + 1]);
        }
        lemma_setting_eq(a.drop_first(), b.drop_first(), key);
    }
}

impl StoreData {
    /// A deep copy of the store: fresh strings, identical content.
    #[verifier::loop_isolation(false)]
    pub fn deep_clone(&self) -> (r: StoreData)
        ensures
            store_eq(self, &r),
    {
        let mut settings: Vec<Setting> = Vec::new();
        let mut i: usize = 0;
        proof {
            assert(v_settings(settings@) =~= v_settings(self.settings@).take(0));
        }
        while i < self.settings.len()
            invariant
                i <= self.settings@.len(),
                v_settings(settings@) == v_settings(self.settings@).take(i as int),
            decreases self.settings@.len() - i,
        {
            settings.push(
                Setting { key: self.settings[i].key.clone(), value: self.settings[i].value.clone() },
            );
            proof {
                assert(v_settings(settings@) =~= v_settings(self.settings@).take(i as int + 1));
            }
            i = i + 1;
        }
        let mut categories: Vec<Category> = Vec::new();
        let mut j: usize = 0;
        proof {
            assert(v_settings(settings@) =~= v_settings(self.settings@));
            assert(v_categories(categories@) =~= v_categories(self.categories@).take(0));
        }
        while j < self.categories.len()
            invariant
                j <= self.categories@.len(),
                v_categories(categories@) == v_categories(self.categories@).take(j as int),
            decreases self.categories@.len() - j,
        {
            categories.push(
                Category {
                    id: self.categories[j].id,
                    name: self.categories[j].name.clone(),
                    is_active: self.categories[j].is_active,
                },
            );
            proof {
                assert(v_categories(categories@) =~= v_categories(self.categories@).take(
                    j as int + 1,
                ));
            }
            j = j + 1;
        }
        let mut products: Vec<Product> = Vec::new();
        let mut k: usize = 0;
        proof {
            assert(v_categories(categories@) =~= v_categories(self.categories@));
            assert(v_products(products@) =~= v_products(self.products@).take(0));
        }
        while k < self.products.len()
            invariant
                k <= self.products@.len(),
                v_products(products@) == v_products(self.products@).take(k as int),
            decreases self.products@.len() - k,
        {
            products.push(
                Product {
                    id: self.products[k].id,
                    item_no: self.products[k].item_no,
                    name: self.products[k].name.clone(),
                    category_id: self.products[k].category_id,
                    price_cents: self.products[k].price_cents,
                    is_available: self.products[k].is_available,
                    created_at: self.products[k].created_at.clone(),
                    updated_at: self.products[k].updated_at.clone(),
                },
            );
            proof {
                assert(v_products(products@) =~= v_products(self.products@).take(k as int + 1));
            }
            k = k + 1;
        }
        let mut bills: Vec<Bill> = Vec::new();
        let mut m: usize = 0;
        proof {
            assert(v_products(products@) =~= v_products(self.products@));
            assert(v_bills(bills@) =~= v_bills(self.bills@).take(0));
        }
        while m < self.bills.len()
            invariant
                m <= self.bills@.len(),
                v_bills(bills@) == v_bills(self.bills@).take(m as int),
            decreases self.bills@.len() - m,
        {
            bills.push(
                Bill {
                    id: self.bills[m].id,
                    bill_no: self.bills[m].bill_no.clone(),
                    subtotal_cents: self.bills[m].subtotal_cents,
                    discount_rate_bps: self.bills[m].discount_rate_bps,
                    discount_cents: self.bills[m].discount_cents,
                    total_cents: self.bills[m].total_cents,
                    created_at: self.bills[m].created_at.clone(),
                },
            );
            proof {
                assert(v_bills(bills@) =~= v_bills(self.bills@).take(m as int + 1));
            }
            m = m + 1;
        }
        let mut bill_items: Vec<BillItem> = Vec::new();
        let mut n: usize = 0;
        proof {
            assert(v_bills(bills@) =~= v_bills(self.bills@));
            assert(v_bill_items(bill_items@) =~= v_bill_items(self.bill_items@).take(0));
        }
        while n < self.bill_items.len()
            invariant
                n <= self.bill_items@.len(),
                v_bill_items(bill_items@) == v_bill_items(self.bill_items@).take(n as int),
            decreases self.bill_items@.len() - n,
        {
            bill_items.push(
                BillItem {
                    id: self.bill_items[n].id,
                    bill_id: self.bill_items[n].bill_id,
                    product_id: self.bill_items[n].product_id,
                    product_name: self.bill_items[n].product_name.clone(),
                    unit_price_cents: self.bill_items[n].unit_price_cents,
                    qty: self.bill_items[n].qty,
                    line_total_cents: self.bill_items[n].line_total_cents,
                },
            );
            proof {
                assert(v_bill_items(bill_items@) =~= v_bill_items(self.bill_items@).take(
                    n as int + 1,
                ));
            }
            n = n + 1;
        }
        proof {
            assert(v_bill_items(bill_items@) =~= v_bill_items(self.bill_items@));
        }
        StoreData {
            settings,
            categories,
            products,
            bills,
            bill_items,
            next_category_id: self.next_category_id,
            next_product_id: self.next_product_id,
        }
    }
}

} // verus!

verus! {

impl StoreData {
    /// Decide content equality with another store, table by table.
    #[verifier::loop_isolation(false)]
    pub fn content_equals(&self, other: &StoreData) -> (r: bool)
        ensures
            r == store_eq(self, other),
    {
        if self.settings.len() != other.settings.len() || self.categories.len()
            != other.categories.len() || self.products.len() != other.products.len()
            || self.bills.len() != other.bills.len() || self.bill_items.len()
            != other.bill_items.len() || self.next_category_id != other.next_category_id
            || self.next_product_id != other.next_product_id {
            proof {
                assert(v_settings(self.settings@).len() == self.settings@.len());
                assert(v_settings(other.settings@).len() == other.settings@.len());
                assert(v_categories(self.categories@).len() == self.categories@.len());
                assert(v_categories(other.categories@).len() == other.categories@.len());
                assert(v_products(self.products@).len() == self.products@.len());
                assert(v_products(other.products@).len() == other.products@.len());
                assert(v_bills(self.bills@).len() == self.bills@.len());
                assert(v_bills(other.bills@).len() == other.bills@.len());
                assert(v_bill_items(self.bill_items@).len() == self.bill_items@.len());
                assert(v_bill_items(other.bill_items@).len() == other.bill_items@.len());
            }
            return false;
        }
        let mut i: usize = 0;
        while i < self.settings.len()
            invariant
                i <= self.settings@.len(),
                self.settings@.len() == other.settings@.len(),
                forall|j: int|
                    0 <= j < i ==> v_settings(self.settings@)[j] == v_settings(other.settings@)[j],
            decreases self.settings@.len() - i,
        {
            let a = &self.settings[i];
            let b = &other.settings[i];
            if !a.key.eq(&b.key) || !a.value.eq(&b.value) {
                proof {
                    assert(v_settings(self.settings@)[i as int] != v_settings(
                        other.settings@,
                    )[i as int]);
                }
                return false;
            }
            i = i + 1;
        }
        let mut i2: usize = 0;
        while i2 < self.categories.len()
            invariant
                i2 <= self.categories@.len(),
                self.categories@.len() == other.categories@.len(),
                forall|j: int|
                    0 <= j < i2 ==> v_categories(self.categories@)[j] == v_categories(
                        other.categories@,
                    )[j],
            decreases self.categories@.len() - i2,
        {
            let a = &self.categories[i2];
            let b = &other.categories[i2];
            if a.id != b.id || !a.name.eq(&b.name) || a.is_active != b.is_active {
                proof {
                    assert(v_categories(self.categories@)[i2 as int] != v_categories(
                        other.categories@,
                    )[i2 as int]);
                }
                return false;
            }
            i2 = i2 + 1;
        }
        let mut i3: usize = 0;
        while i3 < self.products.len()
            invariant
                i3 <= self.products@.len(),
                self.products@.len() == other.products@.len(),
                forall|j: int|
                    0 <= j < i3 ==> v_products(self.products@)[j] == v_products(other.products@)[j],
            decreases self.products@.len() - i3,
        {
            let a = &self.products[i3];
            let b = &other.products[i3];
            let no_eq: bool = match (a.item_no, b.item_no) {
                (Some(x), Some(y)) => x == y,
                (None, None) => true,
                _ => false,
            };
            let cat_eq: bool = match (a.category_id, b.category_id) {
                (Some(x), Some(y)) => x == y,
                (None, None) => true,
                _ => false,
            };
            if a.id != b.id || !no_eq || !a.name.eq(&b.name) || !cat_eq || a.price_cents
                != b.price_cents || a.is_available != b.is_available || !a.created_at.eq(
                &b.created_at,
            ) || !a.updated_at.eq(&b.updated_at) {
                proof {
                    assert(v_products(self.products@)[i3 as int] != v_products(
                        other.products@,
                    )[i3 as int]);
                }
                return false;
            }
            i3 = i3 + 1;
        }
        let mut i4: usize = 0;
        while i4 < self.bills.len()
            invariant
                i4 <= self.bills@.len(),
                self.bills@.len() == other.bills@.len(),
                forall|j: int| 0 <= j < i4 ==> v_bills(self.bills@)[j] == v_bills(other.bills@)[j],
            decreases self.bills@.len() - i4,
        {
            let a = &self.bills[i4];
            let b = &other.bills[i4];
            if a.id != b.id || !a.bill_no.eq(&b.bill_no) || a.subtotal_cents != b.subtotal_cents
                || a.discount_rate_bps != b.discount_rate_bps || a.discount_cents
                != b.discount_cents || a.total_cents != b.total_cents || !a.created_at.eq(
                &b.created_at,
            ) {
                proof {
                    assert(v_bills(self.bills@)[i4 as int] != v_bills(other.bills@)[i4 as int]);
                }
                return false;
            }
            i4 = i4 + 1;
        }
        let mut i5: usize = 0;
        while i5 < self.bill_items.len()
            invariant
                i5 <= self.bill_items@.len(),
                self.bill_items@.len() == other.bill_items@.len(),
                forall|j: int|
                    0 <= j < i5 ==> v_bill_items(self.bill_items@)[j] == v_bill_items(
                        other.bill_items@,
                    )[j],
            decreases self.bill_items@.len() - i5,
        {
            let a = &self.bill_items[i5];
            let b = &other.bill_items[i5];
            if a.id != b.id || a.bill_id != b.bill_id || a.product_id != b.product_id
                || !a.product_name.eq(&b.product_name) || a.unit_price_cents != b.unit_price_cents
                || a.qty != b.qty || a.line_total_cents != b.line_total_cents {
                proof {
                    assert(v_bill_items(self.bill_items@)[i5 as int] != v_bill_items(
                        other.bill_items@,
                    )[i5 as int]);
                }
                return false;
            }
            i5 = i5 + 1;
        }
        proof {
            assert(v_settings(self.settings@) =~= v_settings(other.settings@));
            assert(v_categories(self.categories@) =~= v_categories(other.categories@));
            assert(v_products(self.products@) =~= v_products(other.products@));
            assert(v_bills(self.bills@) =~= v_bills(other.bills@));
            assert(v_bill_items(self.bill_items@) =~= v_bill_items(other.bill_items@));
        }
        true
    }
}

} // verus!

verus! {

impl StoreData {
    /// Decide well-formedness at run time: every schema invariant that
    /// `wf` states, checked row by row. Callers that receive a store from
    /// outside (a loaded file) gate on this before trusting it.
    #[verifier::loop_isolation(false)]
    #[verifier::rlimit(60)]
    pub fn check_wf(&self) -> (b: bool)
        ensures
            b == self.wf(),
    {
        if self.next_category_id < 1 || self.next_product_id < 1 {
            return false;
        }
        let ns = self.settings.len();
        let mut i: usize = 0;
        while i < ns
            invariant
                i <= ns,
                ns == self.settings@.len(),
                forall|a: int, b: int|
                    0 <= a < b < ns && a < i ==> self.settings@[a].key@ != self.settings@[b].key@,
            decreases ns - i,
        {
            let mut j: usize = i + 1;
            while j < ns
                invariant
                    i < j <= ns,
                    forall|b: int| i < b < j ==> self.settings@[i as int].key@ != self.settings@[b].key@,
                decreases ns - j,
            {
                if self.settings[i].key.eq(&self.settings[j].key) {
                    return false;
                }
                j = j + 1;
            }
            i = i + 1;
        }
        if !self.has_setting("bill_seq") {
            return false;
        }
        if !self.has_setting("discount_rate_bps") {
            return false;
        }
        if self.bills.len() as u64 > 0x7fff_ffff_ffff_ffffu64 {
            proof {
                if self.wf() {
                    let w = 0x7fff_ffff_ffff_ffffint;
                    assert(self.bills@[w].id == w + 1);
                    assert(false);
                }
            }
            return false;
        }
        let seq_val = self.get_setting("bill_seq", "");
        let expected = crate::text::dec_string(self.bills.len() as u64);
        if !seq_val.eq(&expected) {
            return false;
        }
        let nb = self.bills.len();
        let mut i2: usize = 0;
        while i2 < nb
            invariant
                i2 <= nb,
                nb == self.bills@.len(),
                forall|a: int|
                    0 <= a < i2 ==> (#[trigger] self.bills@[a]).id == a + 1
                        && self.bills@[a].bill_no@ == spec_bill_no((a + 1) as nat)
                        && self.bills@[a].total_cents == self.bills@[a].subtotal_cents
                        - self.bills@[a].discount_cents,
            decreases nb - i2,
        {
            let b = &self.bills[i2];
            if b.id != (i2 as i64) + 1 {
                return false;
            }
            let mut want = crate::text::chars_vec("MNE-");
            crate::text::push_dec_padded(&mut want, (i2 as u64) + 1, 6);
            let want_s = crate::text::chars_to_string(&want);
            if !b.bill_no.eq(&want_s) {
                proof {
                    assert(want_s@ =~= spec_bill_no((i2 + 1) as nat));
                }
                return false;
            }
            proof {
                assert(want_s@ =~= spec_bill_no((i2 + 1) as nat));
            }
            if (b.total_cents as i128) != (b.subtotal_cents as i128) - (b.discount_cents as i128) {
                return false;
            }
            i2 = i2 + 1;
        }
        if self.bill_items.len() as u64 > 0x7fff_ffff_ffff_ffffu64 {
            proof {
                if self.wf() {
                    let w = 0x7fff_ffff_ffff_ffffint;
                    assert(self.bill_items@[w].id == w + 1);
                    assert(false);
                }
            }
            return false;
        }
        let ni = self.bill_items.len();
        let mut i3: usize = 0;
        while i3 < ni
            invariant
                i3 <= ni,
                ni == self.bill_items@.len(),
                forall|a: int|
                    0 <= a < i3 ==> (#[trigger] self.bill_items@[a]).id == a + 1 && 1
                        <= self.bill_items@[a].bill_id <= self.bills@.len() && 1
                        <= self.bill_items@[a].qty <= 1000
                        && self.bill_items@[a].unit_price_cents >= 0
                        && self.bill_items@[a].line_total_cents == self.bill_items@[a].qty
                        * self.bill_items@[a].unit_price_cents,
            decreases ni - i3,
        {
            let it = &self.bill_items[i3];
            if it.id != (i3 as i64) + 1 {
                return false;
            }
            if it.bill_id < 1 || (it.bill_id as i128) > (self.bills.len() as i128) {
                return false;
            }
            if it.qty < 1 || it.qty > 1000 || it.unit_price_cents < 0 {
                return false;
            }
            proof {
                assert(-0x8000_0000_0000_0000_0000_0000_0000_0000 <= (it.qty as int) * (
                it.unit_price_cents as int) < 0x8000_0000_0000_0000_0000_0000_0000_0000)
                    by (nonlinear_arith)
                    requires
                        -0x8000_0000_0000_0000 <= (it.qty as int),
                        (it.qty as int) < 0x8000_0000_0000_0000,
                        -0x8000_0000_0000_0000 <= (it.unit_price_cents as int),
                        (it.unit_price_cents as int) < 0x8000_0000_0000_0000,
                ;
            }
            if (it.line_total_cents as i128) != (it.qty as i128) * (it.unit_price_cents as i128) {
                return false;
            }
            i3 = i3 + 1;
        }
        let np = self.products.len();
        let mut i4: usize = 0;
        while i4 < np
            invariant
                i4 <= np,
                np == self.products@.len(),
                forall|a: int|
                    0 <= a < i4 ==> 1 <= (#[trigger] self.products@[a]).id < self.next_product_id
                        && (match self.products@[a].item_no {
                        Some(n) => 1 <= n <= 9999,
                        None => true,
                    }),
                forall|a: int, b: int|
                    0 <= a < b < np && a < i4 ==> self.products@[a].id != self.products@[b].id && (
                    self.products@[a].item_no is Some ==> self.products@[a].item_no
                        != self.products@[b].item_no),
            decreases np - i4,
        {
            let p = &self.products[i4];
            if p.id < 1 || p.id >= self.next_product_id {
                return false;
            }
            match p.item_no {
                Some(n) => {
                    if n < 1 || n > 9999 {
                        return false;
                    }
                },
                None => {},
            }
            let mut j4: usize = i4 + 1;
            while j4 < np
                invariant
                    i4 < j4 <= np,
                    forall|b: int|
                        i4 < b < j4 ==> self.products@[i4 as int].id != self.products@[b].id && (
                        self.products@[i4 as int].item_no is Some ==> self.products@[
                            i4 as int].item_no != self.products@[b].item_no),
                decreases np - j4,
            {
                let q = &self.products[j4];
                if p.id == q.id {
                    return false;
                }
                match (p.item_no, q.item_no) {
                    (Some(x), Some(y)) => {
                        if x == y {
                            return false;
                        }
                    },
                    _ => {},
                }
                j4 = j4 + 1;
            }
            i4 = i4 + 1;
        }
        let nc = self.categories.len();
        let mut i5: usize = 0;
        while i5 < nc
            invariant
                i5 <= nc,
                nc == self.categories@.len(),
                forall|a: int|
                    0 <= a < i5 ==> 1 <= (#[trigger] self.categories@[a]).id
                        < self.next_category_id && self.categories@[a].name@.len() > 0,
                forall|a: int, b: int|
                    0 <= a < b < nc && a < i5 ==> self.categories@[a].id != self.categories@[b].id
                        && self.categories@[a].name@ != self.categories@[b].name@,
            decreases nc - i5,
        {
            let c = &self.categories[i5];
            if c.id < 1 || c.id >= self.next_category_id {
                return false;
            }
            if c.name.as_str().is_empty() {
                return false;
            }
            let mut j5: usize = i5 + 1;
            while j5 < nc
                invariant
                    i5 < j5 <= nc,
                    forall|b: int|
                        i5 < b < j5 ==> self.categories@[i5 as int].id != self.categories@[b].id
                            && self.categories@[i5 as int].name@ != self.categories@[b].name@,
                decreases nc - j5,
            {
                let d = &self.categories[j5];
                if c.id == d.id {
                    return false;
                }
                if c.name.eq(&d.name) {
                    return false;
                }
                j5 = j5 + 1;
            }
            i5 = i5 + 1;
        }
        true
    }
}

} // verus!
