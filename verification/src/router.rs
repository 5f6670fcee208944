//! The request router: one dispatch over `(method, path)` that parses the
//! query string, validates the typed body, runs the engine operation and
//! shapes the typed response — the seam between the command gateway and
//! the verified engine.

use vstd::multiset::Multiset;
use vstd::prelude::*;

use crate::backup::{
    list_backups, spec_db_files, spec_sorted_desc, v_entries, BackupEntry, Engine, FsEntry,
};
use crate::bills::{
    spec_subtotal, spec_valid_items, BillItemInput, MAX_BILL_ITEMS, MAX_UNIT_PRICE_CENTS,
};
use crate::inventory::spec_product_index;
use crate::calendar::MAX_EPOCH_SECS;
use crate::printing::print_stream;
use crate::calendar::spec_datetime;
use crate::query::{
    parse_qs, qs_get, spec_parse_i64, spec_parse_qs, spec_qs_get, spec_to_date_only, to_date_only,
};
use crate::text::spec_trim;
use crate::receipt::{format_receipt, ReceiptPayload};
use crate::store::{spec_bill_no, Category, Product, StoreData};
use crate::text::{chars_to_string, chars_vec, push_chars, push_str_chars, trim_chars};

verus! {

/// A request body already lifted out of the gateway's JSON: every field
/// the routes may read, each optional, missing fields validated here.
pub struct Body {
    pub name: Option<String>,
    pub category: Option<String>,
    pub price_cents: Option<i64>,
    pub item_no: Option<i64>,
    pub is_available: Option<i64>,
    pub items: Option<Vec<BillItemInput>>,
    pub discount_rate_bps: Option<i64>,
    pub backup_path: Option<String>,
    pub backup_interval_minutes: Option<i64>,
    pub target: Option<String>,
    pub source: Option<String>,
    pub file_name: Option<String>,
    pub printer_name: Option<String>,
    pub payload: Option<ReceiptPayload>,
}

/// One category listing row.
pub struct CategoryRow {
    pub id: i64,
    pub name: String,
    pub is_active: i64,
}

/// One product listing row, joined with its category's name.
pub struct ProductRow {
    pub id: i64,
    pub item_no: Option<i64>,
    pub name: String,
    pub category: Option<String>,
    pub price_cents: i64,
    pub is_available: i64,
}

/// One bill listing row.
pub struct BillRow {
    pub id: i64,
    pub bill_no: String,
    pub subtotal_cents: i64,
    pub discount_rate_bps: i64,
    pub discount_cents: i64,
    pub total_cents: i64,
    pub created_at: String,
}

/// One bill line-item row.
pub struct BillItemRow {
    pub product_id: i64,
    pub product_name: String,
    pub unit_price_cents: i64,
    pub qty: i64,
    pub line_total_cents: i64,
}

/// What the engine reads from the world on each call: the clock, the
/// live store file's size, and — for the route that lists backup files —
/// the entries of the directory it consults (`backup_files_dir` names
/// that directory so the caller can read it first; an unreadable
/// directory is an empty listing).
pub struct Env {
    pub now_secs: u64,
    pub db_size_bytes: u64,
    pub dir_entries: Vec<FsEntry>,
}

/// The typed success responses of the route surface. A print response
/// carries the device byte stream for the caller's transport to ship.
pub enum Response {
    Health,
    Metrics { bills: i64, db_size_bytes: u64 },
    Categories { rows: Vec<CategoryRow> },
    Products { rows: Vec<ProductRow> },
    Done,
    DoneDisabled { disabled: bool },
    BillCreated { bill_no: String },
    Bills { rows: Vec<BillRow>, total: i64 },
    BillItems { items: Vec<BillItemRow> },
    BackupSettings { backup_path: String, backup_interval_minutes: i64 },
    BackupFiles { files: Vec<BackupEntry>, backup_path: String },
    BackupDone { file: String },
    RestorePlan { source: String },
    Print { printer: String, stream: Vec<u8> },
}

/// `needle` occurs contiguously in `hay`.
pub open spec fn spec_contains(hay: Seq<char>, needle: Seq<char>) -> bool {
    exists|i: int|
        0 <= i <= hay.len() - needle.len() && #[trigger] hay.subrange(i, i + needle.len())
            == needle
}

/// Substring search, as the store's pattern match performs it.
#[verifier::loop_isolation(false)]
pub fn contains_chars(hay: &Vec<char>, needle: &Vec<char>) -> (r: bool)
    ensures
        r == spec_contains(hay@, needle@),
{
    if needle.len() > hay.len() {
        return false;
    }
    if needle.len() == 0 {
        proof {
            assert(hay@.subrange(0, 0 + needle@.len() as int) =~= needle@);
        }
        return true;
    }
    let mut i: usize = 0;
    while i <= hay.len() - needle.len()
        invariant
            needle@.len() <= hay@.len(),
            i <= hay@.len() - needle@.len() + 1,
            forall|k: int|
                0 <= k < i ==> #[trigger] hay@.subrange(k, k + needle@.len()) != needle@,
        decreases hay@.len() - needle@.len() + 1 - i,
    {
        let mut j: usize = 0;
        let mut ok = true;
        proof {
            assert(hay@.subrange(i as int, i as int) =~= needle@.take(0));
        }
        while j < needle.len()
            invariant
                j <= needle@.len(),
                i + needle@.len() <= hay@.len(),
                ok == (hay@.subrange(i as int, i + j) == needle@.take(j as int)),
            decreases needle@.len() - j,
        {
            let ghost pre_ok = ok;
            if hay[i + j] != needle[j] {
                ok = false;
            }
            proof {
                let a = hay@.subrange(i as int, i + j + 1);
                let b = needle@.take(j as int + 1);
                assert(a.drop_last() =~= hay@.subrange(i as int, i + j));
                assert(b.drop_last() =~= needle@.take(j as int));
                if pre_ok && hay@[i + j] == needle@[j as int] {
                    assert(a =~= b);
                } else {
                    if a == b {
                        assert(a.drop_last() == b.drop_last() && a.last() == b.last());
                    }
                }
            }
            j = j + 1;
        }
        proof {
            assert(needle@.take(needle@.len() as int) =~= needle@);
        }
        if ok {
            proof {
                assert(hay@.subrange(i as int, i as int + needle@.len() as int) == needle@);
            }
            return true;
        }
        i = i + 1;
    }
    false
}

/// Text order by code point, the byte order of the store's text
/// comparison: a proper prefix comes first.
pub open spec fn spec_str_le(a: Seq<char>, b: Seq<char>) -> bool
    decreases a.len(),
{
    if a.len() == 0 {
        true
    } else if b.len() == 0 {
        false
    } else if (a[0] as u32) < (b[0] as u32) {
        true
    } else if (a[0] as u32) > (b[0] as u32) {
        false
    } else {
        spec_str_le(a.drop_first(), b.drop_first())
    }
}

/// Compare two texts by code point.
#[verifier::loop_isolation(false)]
pub fn str_le(a: &Vec<char>, b: &Vec<char>) -> (r: bool)
    ensures
        r == spec_str_le(a@, b@),
{
    let mut i: usize = 0;
    proof {
        assert(a@.skip(0) =~= a@);
        assert(b@.skip(0) =~= b@);
    }
    while i < a.len() && i < b.len()
        invariant
            i <= a@.len() && i <= b@.len(),
            spec_str_le(a@, b@) == spec_str_le(a@.skip(i as int), b@.skip(i as int)),
        decreases a@.len() - i,
    {
        let ghost ra = a@.skip(i as int);
        let ghost rb = b@.skip(i as int);
        proof {
            assert(ra[0] == a@[i as int] && rb[0] == b@[i as int]);
            assert(ra.drop_first() =~= a@.skip(i as int + 1));
            assert(rb.drop_first() =~= b@.skip(i as int + 1));
        }
        let ca = a[i];
        let cb = b[i];
        if (ca as u32) < (cb as u32) {
            return true;
        }
        if (ca as u32) > (cb as u32) {
            return false;
        }
        proof {
            assert(spec_str_le(ra, rb) == spec_str_le(ra.drop_first(), rb.drop_first()));
        }
        i = i + 1;
    }
    proof {
        assert(a@.skip(i as int).len() == a@.len() - i);
        assert(b@.skip(i as int).len() == b@.len() - i);
    }
    a.len() - i == 0
}

/// The text order is total: of any two texts one comes at or before the
/// other.
pub proof fn lemma_str_le_total(a: Seq<char>, b: Seq<char>)
    ensures
        spec_str_le(a, b) || spec_str_le(b, a),
    decreases a.len(),
{
    if a.len() > 0 && b.len() > 0 && (a[0] as u32) == (b[0] as u32) {
        lemma_str_le_total(a.drop_first(), b.drop_first());
    }
}

/// The text order is reflexive.
pub proof fn lemma_str_le_refl(a: Seq<char>)
    ensures
        spec_str_le(a, a),
    decreases a.len(),
{
    if a.len() > 0 {
        lemma_str_le_refl(a.drop_first());
    }
}

/// The text order is transitive.
pub proof fn lemma_str_le_trans(a: Seq<char>, b: Seq<char>, c: Seq<char>)
    requires
        spec_str_le(a, b),
        spec_str_le(b, c),
    ensures
        spec_str_le(a, c),
    decreases a.len(),
{
    if a.len() > 0 && b.len() > 0 && c.len() > 0 {
        if (a[0] as u32) == (b[0] as u32) && (b[0] as u32) == (c[0] as u32) {
            lemma_str_le_trans(a.drop_first(), b.drop_first(), c.drop_first());
        }
    }
}

/// The name of the category with this id.
pub open spec fn spec_cat_name(c: Seq<Category>, id: int) -> Option<Seq<char>>
    decreases c.len(),
{
    if c.len() == 0 {
        None
    } else if c[0].id == id {
        Some(c[0].name@)
    } else {
        spec_cat_name(c.drop_first(), id)
    }
}

#[verifier::loop_isolation(false)]
fn cat_name(s: &StoreData, id: i64) -> (r: Option<String>)
    ensures
        match r {
            Some(n) => spec_cat_name(s.categories@, id as int) == Some(n@),
            None => spec_cat_name(s.categories@, id as int) is None,
        },
{
    let mut i: usize = 0;
    proof {
        assert(s.categories@.skip(0) =~= s.categories@);
    }
    while i < s.categories.len()
        invariant
            i <= s.categories@.len(),
            spec_cat_name(s.categories@, id as int) == spec_cat_name(
                s.categories@.skip(i as int),
                id as int,
            ),
        decreases s.categories@.len() - i,
    {
        let ghost rem = s.categories@.skip(i as int);
        proof {
            assert(rem[0] == s.categories@[i as int]);
            assert(rem.drop_first() =~= s.categories@.skip(i as int + 1));
        }
        if s.categories[i].id == id {
            return Some(s.categories[i].name.clone());
        }
        i = i + 1;
    }
    None
}

/// The listing view of one product: id, item number, name, category name,
/// price and availability.
pub open spec fn spec_product_row(s: &StoreData, p: Product) -> (
    int,
    Option<i64>,
    Seq<char>,
    Option<Seq<char>>,
    int,
    int,
) {
    (
        p.id as int,
        p.item_no,
        p.name@,
        match p.category_id {
            Some(cid) => spec_cat_name(s.categories@, cid as int),
            None => None,
        },
        p.price_cents as int,
        p.is_available as int,
    )
}

/// The value view of a product row.
pub open spec fn v_row(r: ProductRow) -> (int, Option<i64>, Seq<char>, Option<Seq<char>>, int, int) {
    (
        r.id as int,
        r.item_no,
        r.name@,
        match r.category {
            Some(c) => Some(c@),
            None => None,
        },
        r.price_cents as int,
        r.is_available as int,
    )
}

/// The value views of product rows.
pub open spec fn v_rows(rs: Seq<ProductRow>) -> Seq<
    (int, Option<i64>, Seq<char>, Option<Seq<char>>, int, int),
> {
    rs.map_values(|r: ProductRow| v_row(r))
}

/// The listing sort key of a product row: rows with an item number first,
/// in item-number order.
pub open spec fn spec_row_key(r: (int, Option<i64>, Seq<char>, Option<Seq<char>>, int, int)) -> (
    int,
    int,
) {
    match r.1 {
        Some(n) => (0, n as int),
        None => (1, 0),
    }
}

/// Row `a` sorts at or before row `b`: numbered rows first in number
/// order, then the unnumbered rows in name order.
pub open spec fn spec_key_le(
    a: (int, Option<i64>, Seq<char>, Option<Seq<char>>, int, int),
    b: (int, Option<i64>, Seq<char>, Option<Seq<char>>, int, int),
) -> bool {
    ||| spec_row_key(a).0 < spec_row_key(b).0
    ||| (spec_row_key(a).0 == spec_row_key(b).0 && spec_row_key(a).1 < spec_row_key(b).1)
    ||| (spec_row_key(a) == spec_row_key(b) && spec_str_le(a.2, b.2))
}

proof fn lemma_key_le_total(
    a: (int, Option<i64>, Seq<char>, Option<Seq<char>>, int, int),
    b: (int, Option<i64>, Seq<char>, Option<Seq<char>>, int, int),
)
    ensures
        spec_key_le(a, b) || spec_key_le(b, a),
{
    lemma_str_le_total(a.2, b.2);
}

proof fn lemma_key_le_trans(
    a: (int, Option<i64>, Seq<char>, Option<Seq<char>>, int, int),
    b: (int, Option<i64>, Seq<char>, Option<Seq<char>>, int, int),
    c: (int, Option<i64>, Seq<char>, Option<Seq<char>>, int, int),
)
    requires
        spec_key_le(a, b),
        spec_key_le(b, c),
    ensures
        spec_key_le(a, c),
{
    if spec_row_key(a) == spec_row_key(b) && spec_row_key(b) == spec_row_key(c) {
        lemma_str_le_trans(a.2, b.2, c.2);
    }
}

/// Product rows in listing order.
pub open spec fn spec_rows_sorted(s: Seq<(int, Option<i64>, Seq<char>, Option<Seq<char>>, int, int)>) -> bool {
    forall|i: int, j: int| 0 <= i < j < s.len() ==> spec_key_le(#[trigger] s[i], #[trigger] s[j])
}

#[verifier::loop_isolation(false)]
fn key_le(a: &ProductRow, b: &ProductRow) -> (r: bool)
    ensures
        r == spec_key_le(v_row(*a), v_row(*b)),
{
    let ka: (i64, i64) = match a.item_no {
        Some(n) => (0, n),
        None => (1, 0),
    };
    let kb: (i64, i64) = match b.item_no {
        Some(n) => (0, n),
        None => (1, 0),
    };
    if ka.0 != kb.0 {
        return ka.0 < kb.0;
    }
    if ka.1 != kb.1 {
        return ka.1 < kb.1;
    }
    let na = chars_vec(a.name.as_str());
    let nb = chars_vec(b.name.as_str());
    str_le(&na, &nb)
}

/// Sort product rows into listing order, keeping exactly the same rows.
#[verifier::loop_isolation(false)]
pub fn sort_product_rows(rows: Vec<ProductRow>) -> (r: Vec<ProductRow>)
    ensures
        v_rows(r@).to_multiset() == v_rows(rows@).to_multiset(),
        spec_rows_sorted(v_rows(r@)),
{
    broadcast use vstd::seq_lib::group_seq_properties;

    let ghost orig = v_rows(rows@);
    let mut pool = rows;
    let mut out: Vec<ProductRow> = Vec::new();
    proof {
        assert(v_rows(out@) =~= Seq::<
            (int, Option<i64>, Seq<char>, Option<Seq<char>>, int, int),
        >::empty());
        assert(v_rows(out@).to_multiset().add(v_rows(pool@).to_multiset()) =~= orig.to_multiset());
    }
    while pool.len() > 0
        invariant
            v_rows(out@).to_multiset().add(v_rows(pool@).to_multiset()) == orig.to_multiset(),
            spec_rows_sorted(v_rows(out@)),
            forall|a: int, b: int|
                0 <= a < v_rows(out@).len() && 0 <= b < v_rows(pool@).len() ==> spec_key_le(
                    #[trigger] v_rows(out@)[a],
                    #[trigger] v_rows(pool@)[b],
                ),
        decreases pool@.len(),
    {
        let mut mi: usize = 0;
        let mut k: usize = 1;
        proof {
            lemma_str_le_refl(v_row(pool@[0]).2);
            assert(spec_key_le(v_row(pool@[0]), v_rows(pool@)[0]));
        }
        while k < pool.len()
            invariant
                mi < k <= pool@.len(),
                forall|j: int|
                    0 <= j < k ==> spec_key_le(
                        v_row(pool@[mi as int]),
                        #[trigger] v_rows(pool@)[j],
                    ),
            decreases pool@.len() - k,
        {
            proof {
                assert(v_rows(pool@)[k as int] == v_row(pool@[k as int]));
            }
            if !key_le(&pool[mi], &pool[k]) {
                proof {
                    lemma_key_le_total(v_row(pool@[mi as int]), v_row(pool@[k as int]));
                    assert forall|j: int| 0 <= j < k implies spec_key_le(
                        v_row(pool@[k as int]),
                        #[trigger] v_rows(pool@)[j],
                    ) by {
                        lemma_key_le_trans(
                            v_row(pool@[k as int]),
                            v_row(pool@[mi as int]),
                            v_rows(pool@)[j],
                        );
                    }
                    lemma_str_le_refl(v_row(pool@[k as int]).2);
                    assert(spec_key_le(v_row(pool@[k as int]), v_rows(pool@)[k as int]));
                }
                mi = k;
            } else {
                proof {
                    assert(spec_key_le(v_row(pool@[mi as int]), v_rows(pool@)[k as int]));
                }
            }
            k = k + 1;
        }
        let ghost prev_pool = pool@;
        let ghost prev_out = out@;
        let x = pool.remove(mi);
        out.push(x);
        proof {
            assert(v_rows(pool@) =~= v_rows(prev_pool).remove(mi as int));
            assert(v_rows(out@) =~= v_rows(prev_out).push(v_row(prev_pool[mi as int])));
            assert(v_rows(prev_pool).remove(mi as int).to_multiset() =~= v_rows(
                prev_pool,
            ).to_multiset().remove(v_row(prev_pool[mi as int])));
            assert(v_rows(prev_out).push(v_row(prev_pool[mi as int])).to_multiset() =~= v_rows(
                prev_out,
            ).to_multiset().insert(v_row(prev_pool[mi as int])));
            assert(v_rows(out@).to_multiset().add(v_rows(pool@).to_multiset())
                =~= orig.to_multiset());
            assert(forall|j: int|
                0 <= j < v_rows(pool@).len() ==> spec_key_le(
                    v_row(prev_pool[mi as int]),
                    #[trigger] v_rows(pool@)[j],
                ));
            assert(forall|a: int|
                0 <= a < v_rows(out@).len() ==> v_rows(out@)[a] == if a < prev_out.len() {
                    v_rows(prev_out)[a]
                } else {
                    v_row(prev_pool[mi as int])
                });
        }
    }
    proof {
        assert(v_rows(pool@).to_multiset() =~= Multiset::<
            (int, Option<i64>, Seq<char>, Option<Seq<char>>, int, int),
        >::empty());
        assert(v_rows(out@).to_multiset() =~= orig.to_multiset());
    }
    out
}

/// The listing rows of every product, in stored order.
pub open spec fn spec_all_rows(s: &StoreData) -> Seq<
    (int, Option<i64>, Seq<char>, Option<Seq<char>>, int, int),
> {
    s.products@.map_values(|p: Product| spec_product_row(s, p))
}

/// Build the listing row of every product, in stored order.
#[verifier::loop_isolation(false)]
pub fn product_rows(s: &StoreData) -> (r: Vec<ProductRow>)
    ensures
        v_rows(r@) == spec_all_rows(s),
{
    let mut out: Vec<ProductRow> = Vec::new();
    let mut i: usize = 0;
    proof {
        assert(v_rows(out@) =~= spec_all_rows(s).take(0));
    }
    while i < s.products.len()
        invariant
            i <= s.products@.len(),
            v_rows(out@) == spec_all_rows(s).take(i as int),
        decreases s.products@.len() - i,
    {
        let p = &s.products[i];
        let category: Option<String> = match p.category_id {
            Some(cid) => cat_name(s, cid),
            None => None,
        };
        out.push(
            ProductRow {
                id: p.id,
                item_no: p.item_no,
                name: p.name.clone(),
                category,
                price_cents: p.price_cents,
                is_available: p.is_available,
            },
        );
        proof {
            assert(spec_all_rows(s)[i as int] == spec_product_row(s, s.products@[i as int]));
            assert(v_rows(out@) =~= spec_all_rows(s).take(i as int + 1));
        }
        i = i + 1;
    }
    proof {
        assert(spec_all_rows(s).take(s.products@.len() as int) =~= spec_all_rows(s));
    }
    out
}

/// A product matches a search query when it is available and the query
/// occurs in its name or in the decimal text of its item number.
pub open spec fn spec_search_match(p: Product, q: Seq<char>) -> bool {
    p.is_available == 1 && (spec_contains(p.name@, q) || (p.item_no matches Some(n)
        && spec_contains(crate::text::spec_dec(n as nat), q)))
}

#[verifier::loop_isolation(false)]
fn search_match(p: &Product, q: &Vec<char>) -> (r: bool)
    requires
        p.item_no matches Some(n) ==> n >= 0,
    ensures
        r == spec_search_match(*p, q@),
{
    if p.is_available != 1 {
        return false;
    }
    let nm = chars_vec(p.name.as_str());
    if contains_chars(&nm, q) {
        return true;
    }
    match p.item_no {
        Some(n) => {
            let mut d: Vec<char> = Vec::new();
            crate::text::push_dec(&mut d, n as u64);
            contains_chars(&d, q)
        },
        None => false,
    }
}

/// The value view of a bill row.
pub open spec fn v_brow(r: BillRow) -> (int, Seq<char>, int, int, int, int, Seq<char>) {
    (
        r.id as int,
        r.bill_no@,
        r.subtotal_cents as int,
        r.discount_rate_bps as int,
        r.discount_cents as int,
        r.total_cents as int,
        r.created_at@,
    )
}

/// The value views of bill rows.
pub open spec fn v_brows(rs: Seq<BillRow>) -> Seq<(int, Seq<char>, int, int, int, int, Seq<char>)> {
    rs.map_values(|r: BillRow| v_brow(r))
}

/// A bill passes the listing filters: the query occurs in its number, and
/// its timestamp lies in the requested day range.
pub open spec fn spec_bill_keep(
    b: crate::store::Bill,
    bnq: Seq<char>,
    start: Option<Seq<char>>,
    end: Option<Seq<char>>,
) -> bool {
    &&& (bnq.len() == 0 || spec_contains(b.bill_no@, bnq))
    &&& (start matches Some(s) ==> spec_str_le(s, b.created_at@))
    &&& (end matches Some(e) ==> spec_str_le(b.created_at@, e))
}

/// The bills that pass the listing filters, in stored order.
pub open spec fn spec_bills_filtered(
    bs: Seq<crate::store::Bill>,
    bnq: Seq<char>,
    start: Option<Seq<char>>,
    end: Option<Seq<char>>,
) -> Seq<(int, Seq<char>, int, int, int, int, Seq<char>)>
    decreases bs.len(),
{
    if bs.len() == 0 {
        Seq::empty()
    } else {
        let rest = spec_bills_filtered(bs.drop_first(), bnq, start, end);
        if spec_bill_keep(bs[0], bnq, start, end) {
            seq![
                (
                    bs[0].id as int,
                    bs[0].bill_no@,
                    bs[0].subtotal_cents as int,
                    bs[0].discount_rate_bps as int,
                    bs[0].discount_cents as int,
                    bs[0].total_cents as int,
                    bs[0].created_at@,
                ),
            ] + rest
        } else {
            rest
        }
    }
}

fn bill_row_of(b: &crate::store::Bill) -> (r: BillRow)
    ensures
        v_brow(r) == (
            b.id as int,
            b.bill_no@,
            b.subtotal_cents as int,
            b.discount_rate_bps as int,
            b.discount_cents as int,
            b.total_cents as int,
            b.created_at@,
        ),
{
    BillRow {
        id: b.id,
        bill_no: b.bill_no.clone(),
        subtotal_cents: b.subtotal_cents,
        discount_rate_bps: b.discount_rate_bps,
        discount_cents: b.discount_cents,
        total_cents: b.total_cents,
        created_at: b.created_at.clone(),
    }
}

/// One page of the bill listing, most recent first, and the filtered
/// total.
#[verifier::loop_isolation(false)]
pub fn bills_page(
    s: &StoreData,
    bnq: &Vec<char>,
    start: &Option<String>,
    end: &Option<String>,
    page: i64,
    limit: i64,
) -> (r: (Vec<BillRow>, i64))
    requires
        s.bills@.len() < 0x0001_0000_0000_0000,
        page >= 1,
        1 <= limit <= 100,
    ensures
        ({
            let f = spec_bills_filtered(
                s.bills@,
                bnq@,
                match start {
                    Some(x) => Some(x@),
                    None => None,
                },
                match end {
                    Some(x) => Some(x@),
                    None => None,
                },
            );
            let off = (page - 1) * limit;
            &&& r.1 == f.len()
            &&& (off >= f.len() ==> r.0@.len() == 0)
            &&& (off < f.len() ==> v_brows(r.0@) == f.reverse().subrange(
                off,
                if off + limit <= f.len() {
                    off + limit
                } else {
                    f.len() as int
                },
            ))
        }),
{
    let ghost gstart: Option<Seq<char>> = match start {
        Some(x) => Some(x@),
        None => None,
    };
    let ghost gend: Option<Seq<char>> = match end {
        Some(x) => Some(x@),
        None => None,
    };
    let mut filt: Vec<BillRow> = Vec::new();
    let mut i: usize = 0;
    proof {
        assert(s.bills@.skip(0) =~= s.bills@);
        assert(v_brows(filt@) + spec_bills_filtered(s.bills@, bnq@, gstart, gend)
            =~= spec_bills_filtered(s.bills@, bnq@, gstart, gend));
    }
    while i < s.bills.len()
        invariant
            i <= s.bills@.len(),
            spec_bills_filtered(s.bills@, bnq@, gstart, gend) == v_brows(filt@)
                + spec_bills_filtered(s.bills@.skip(i as int), bnq@, gstart, gend),
        decreases s.bills@.len() - i,
    {
        let ghost rem = s.bills@.skip(i as int);
        proof {
            assert(rem[0] == s.bills@[i as int]);
            assert(rem.drop_first() =~= s.bills@.skip(i as int + 1));
        }
        let b = &s.bills[i];
        let mut keep = true;
        if bnq.len() > 0 {
            let no = chars_vec(b.bill_no.as_str());
            if !contains_chars(&no, bnq) {
                keep = false;
            }
        }
        if keep {
            match start {
                Some(sf) => {
                    let sc = chars_vec(sf.as_str());
                    let ca = chars_vec(b.created_at.as_str());
                    if !str_le(&sc, &ca) {
                        keep = false;
                    }
                },
                None => {},
            }
        }
        if keep {
            match end {
                Some(ef) => {
                    let ec = chars_vec(ef.as_str());
                    let ca = chars_vec(b.created_at.as_str());
                    if !str_le(&ca, &ec) {
                        keep = false;
                    }
                },
                None => {},
            }
        }
        proof {
            assert(keep == spec_bill_keep(s.bills@[i as int], bnq@, gstart, gend));
        }
        if keep {
            let ghost prev = filt@;
            filt.push(bill_row_of(b));
            proof {
                assert(v_brows(filt@) =~= v_brows(prev).push(v_brow(filt@.last())));
                assert(v_brows(filt@) + spec_bills_filtered(
                    s.bills@.skip(i as int + 1),
                    bnq@,
                    gstart,
                    gend,
                ) =~= v_brows(prev) + spec_bills_filtered(rem, bnq@, gstart, gend));
            }
        }
        i = i + 1;
    }
    proof {
        assert(s.bills@.skip(s.bills@.len() as int) =~= Seq::<crate::store::Bill>::empty());
        assert(v_brows(filt@) + spec_bills_filtered(
            s.bills@.skip(s.bills@.len() as int),
            bnq@,
            gstart,
            gend,
        ) =~= v_brows(filt@));
        assert(v_brows(filt@).len() <= s.bills@.len()) by {
            lemma_filtered_len(s.bills@, bnq@, gstart, gend);
        }
    }
    let ghost f = spec_bills_filtered(s.bills@, bnq@, gstart, gend);
    let total = filt.len() as i64;

    proof {
        assert(0 <= (page as int - 1) * (limit as int) <= 0x7fff_ffff_ffff_ffff * 100)
            by (nonlinear_arith)
            requires
                1 <= page as int <= 0x7fff_ffff_ffff_ffff,
                1 <= limit as int <= 100,
        ;
    }
    let off128: i128 = (page as i128 - 1) * (limit as i128);
    let flen = filt.len();
    proof {
        assert(v_brows(filt@).len() == filt@.len());
        assert(flen as int <= s.bills@.len());
    }
    if off128 >= flen as i128 {
        let empty: Vec<BillRow> = Vec::new();
        return (empty, total);
    }
    let off = off128 as usize;
    let cnt: usize = if (limit as usize) <= flen - off {
        limit as usize
    } else {
        flen - off
    };
    let mut rows: Vec<BillRow> = Vec::new();
    let mut k: usize = 0;
    proof {
        assert(f.reverse().len() == f.len());
        assert(v_brows(rows@) =~= f.reverse().subrange(off as int, off as int));
    }
    while k < cnt
        invariant
            k <= cnt,
            off + cnt <= flen,
            flen == f.len(),
            v_brows(filt@) == f,
            v_brows(rows@) == f.reverse().subrange(off as int, off as int + k),
        decreases cnt - k,
    {
        let src_i = flen - 1 - (off + k);
        let ghost prev = rows@;
        let b = &filt[src_i];
        rows.push(
            BillRow {
                id: b.id,
                bill_no: b.bill_no.clone(),
                subtotal_cents: b.subtotal_cents,
                discount_rate_bps: b.discount_rate_bps,
                discount_cents: b.discount_cents,
                total_cents: b.total_cents,
                created_at: b.created_at.clone(),
            },
        );
        proof {
            assert(f.reverse()[off + k] == f[f.len() - 1 - (off + k)]);
            assert(v_brows(filt@)[src_i as int] == v_brow(filt@[src_i as int]));
            assert(v_brows(rows@) =~= f.reverse().subrange(off as int, off as int + k + 1));
        }
        k = k + 1;
    }
    (rows, total)
}

proof fn lemma_filtered_len(
    bs: Seq<crate::store::Bill>,
    bnq: Seq<char>,
    start: Option<Seq<char>>,
    end: Option<Seq<char>>,
)
    ensures
        spec_bills_filtered(bs, bnq, start, end).len() <= bs.len(),
    decreases bs.len(),
{
    if bs.len() > 0 {
        lemma_filtered_len(bs.drop_first(), bnq, start, end);
    }
}

proof fn lemma_filtered_elem(
    bs: Seq<crate::store::Bill>,
    bnq: Seq<char>,
    start: Option<Seq<char>>,
    end: Option<Seq<char>>,
)
    ensures
        forall|j: int|
            0 <= j < spec_bills_filtered(bs, bnq, start, end).len() ==> exists|i: int|
                0 <= i < bs.len() && (#[trigger] spec_bills_filtered(bs, bnq, start, end)[j]).6
                    == bs[i].created_at@,
    decreases bs.len(),
{
    if bs.len() > 0 {
        lemma_filtered_elem(bs.drop_first(), bnq, start, end);
        let f = spec_bills_filtered(bs, bnq, start, end);
        let rest = spec_bills_filtered(bs.drop_first(), bnq, start, end);
        assert forall|j: int| 0 <= j < f.len() implies exists|i: int|
            0 <= i < bs.len() && (#[trigger] f[j]).6 == bs[i].created_at@ by {
            if spec_bill_keep(bs[0], bnq, start, end) && j == 0 {
                assert(f[0].6 == bs[0].created_at@);
            } else {
                let j2 = if spec_bill_keep(bs[0], bnq, start, end) {
                    j - 1
                } else {
                    j
                };
                assert(f[j] == rest[j2]);
                let w = choose|i: int|
                    0 <= i < bs.drop_first().len() && rest[j2].6 == bs.drop_first()[
                        i].created_at@;
                assert(bs.drop_first()[w] == bs[w + 1]);
                assert(f[j].6 == bs[w + 1].created_at@);
            }
        }
    }
}

proof fn lemma_filtered_ordered(
    bs: Seq<crate::store::Bill>,
    bnq: Seq<char>,
    start: Option<Seq<char>>,
    end: Option<Seq<char>>,
)
    requires
        forall|a: int, b: int|
            0 <= a < b < bs.len() ==> spec_str_le(
                (#[trigger] bs[a]).created_at@,
                (#[trigger] bs[b]).created_at@,
            ),
    ensures
        forall|a: int, b: int|
            0 <= a < b < spec_bills_filtered(bs, bnq, start, end).len() ==> spec_str_le(
                (#[trigger] spec_bills_filtered(bs, bnq, start, end)[a]).6,
                (#[trigger] spec_bills_filtered(bs, bnq, start, end)[b]).6,
            ),
    decreases bs.len(),
{
    if bs.len() > 0 {
        assert(forall|i: int| 0 <= i < bs.drop_first().len() ==> bs.drop_first()[i] == bs[i + 1]);
        lemma_filtered_ordered(bs.drop_first(), bnq, start, end);
        lemma_filtered_elem(bs.drop_first(), bnq, start, end);
        let f = spec_bills_filtered(bs, bnq, start, end);
        let rest = spec_bills_filtered(bs.drop_first(), bnq, start, end);
        assert forall|a: int, b: int| 0 <= a < b < f.len() implies spec_str_le(
            (#[trigger] f[a]).6,
            (#[trigger] f[b]).6,
        ) by {
            if spec_bill_keep(bs[0], bnq, start, end) && a == 0 {
                assert(f[b] == rest[b - 1]);
                let w = choose|i: int|
                    0 <= i < bs.drop_first().len() && rest[b - 1].6 == bs.drop_first()[
                        i].created_at@;
                assert(spec_str_le(bs[0].created_at@, bs[w + 1].created_at@));
            } else {
                let off: int = if spec_bill_keep(bs[0], bnq, start, end) {
                    1
                } else {
                    0
                };
                assert(f[a] == rest[a - off] && f[b] == rest[b - off]);
            }
        }
    }
}

/// Under a monotone clock — bills stored with non-decreasing timestamps —
/// the bill listing really is most recent first: the reversed filtered
/// rows are sorted by timestamp, newest to oldest.
pub proof fn lemma_listing_most_recent_first(
    bs: Seq<crate::store::Bill>,
    bnq: Seq<char>,
    start: Option<Seq<char>>,
    end: Option<Seq<char>>,
)
    requires
        forall|a: int, b: int|
            0 <= a < b < bs.len() ==> spec_str_le(
                (#[trigger] bs[a]).created_at@,
                (#[trigger] bs[b]).created_at@,
            ),
    ensures
        forall|a: int, b: int|
            0 <= a < b < spec_bills_filtered(bs, bnq, start, end).len() ==> spec_str_le(
                (#[trigger] spec_bills_filtered(bs, bnq, start, end).reverse()[b]).6,
                (#[trigger] spec_bills_filtered(bs, bnq, start, end).reverse()[a]).6,
            ),
{
    lemma_filtered_ordered(bs, bnq, start, end);
    let f = spec_bills_filtered(bs, bnq, start, end);
    assert forall|a: int, b: int| 0 <= a < b < f.len() implies spec_str_le(
        (#[trigger] f.reverse()[b]).6,
        (#[trigger] f.reverse()[a]).6,
    ) by {
        assert(f.reverse()[a] == f[f.len() - 1 - a]);
        assert(f.reverse()[b] == f[f.len() - 1 - b]);
    }
}

/// The value views of category rows.
pub open spec fn v_crows(rs: Seq<CategoryRow>) -> Seq<(int, Seq<char>, int)> {
    rs.map_values(|r: CategoryRow| (r.id as int, r.name@, r.is_active as int))
}

/// The category listing, in stored order.
#[verifier::loop_isolation(false)]
pub fn categories_rows(s: &StoreData) -> (r: Vec<CategoryRow>)
    ensures
        v_crows(r@) == crate::store::v_categories(s.categories@),
{
    let mut out: Vec<CategoryRow> = Vec::new();
    let mut i: usize = 0;
    proof {
        assert(v_crows(out@) =~= crate::store::v_categories(s.categories@).take(0));
    }
    while i < s.categories.len()
        invariant
            i <= s.categories@.len(),
            v_crows(out@) == crate::store::v_categories(s.categories@).take(i as int),
        decreases s.categories@.len() - i,
    {
        let c = &s.categories[i];
        out.push(CategoryRow { id: c.id, name: c.name.clone(), is_active: c.is_active });
        proof {
            assert(v_crows(out@) =~= crate::store::v_categories(s.categories@).take(i as int + 1));
        }
        i = i + 1;
    }
    proof {
        assert(crate::store::v_categories(s.categories@).take(s.categories@.len() as int)
            =~= crate::store::v_categories(s.categories@));
    }
    out
}

/// Category rows in listing order: by name.
pub open spec fn spec_crows_sorted(s: Seq<(int, Seq<char>, int)>) -> bool {
    forall|i: int, j: int|
        0 <= i < j < s.len() ==> spec_str_le((#[trigger] s[i]).1, (#[trigger] s[j]).1)
}

/// Sort category rows by name, keeping exactly the same rows.
#[verifier::loop_isolation(false)]
pub fn sort_category_rows(rows: Vec<CategoryRow>) -> (r: Vec<CategoryRow>)
    ensures
        v_crows(r@).to_multiset() == v_crows(rows@).to_multiset(),
        spec_crows_sorted(v_crows(r@)),
{
    broadcast use vstd::seq_lib::group_seq_properties;

    let ghost orig = v_crows(rows@);
    let mut pool = rows;
    let mut out: Vec<CategoryRow> = Vec::new();
    proof {
        assert(v_crows(out@) =~= Seq::<(int, Seq<char>, int)>::empty());
        assert(v_crows(out@).to_multiset().add(v_crows(pool@).to_multiset())
            =~= orig.to_multiset());
    }
    while pool.len() > 0
        invariant
            v_crows(out@).to_multiset().add(v_crows(pool@).to_multiset()) == orig.to_multiset(),
            spec_crows_sorted(v_crows(out@)),
            forall|a: int, b: int|
                0 <= a < v_crows(out@).len() && 0 <= b < v_crows(pool@).len() ==> spec_str_le(
                    (#[trigger] v_crows(out@)[a]).1,
                    (#[trigger] v_crows(pool@)[b]).1,
                ),
        decreases pool@.len(),
    {
        let mut mi: usize = 0;
        let mut k: usize = 1;
        proof {
            lemma_str_le_refl(pool@[0].name@);
            assert(spec_str_le(pool@[0].name@, v_crows(pool@)[0].1));
        }
        while k < pool.len()
            invariant
                mi < k <= pool@.len(),
                forall|j: int|
                    0 <= j < k ==> spec_str_le(
                        pool@[mi as int].name@,
                        (#[trigger] v_crows(pool@)[j]).1,
                    ),
            decreases pool@.len() - k,
        {
            proof {
                assert(v_crows(pool@)[k as int] == (
                    pool@[k as int].id as int,
                    pool@[k as int].name@,
                    pool@[k as int].is_active as int,
                ));
            }
            let na = chars_vec(pool[mi].name.as_str());
            let nb = chars_vec(pool[k].name.as_str());
            if !str_le(&na, &nb) {
                proof {
                    lemma_str_le_total(pool@[mi as int].name@, pool@[k as int].name@);
                    assert forall|j: int| 0 <= j < k implies spec_str_le(
                        pool@[k as int].name@,
                        (#[trigger] v_crows(pool@)[j]).1,
                    ) by {
                        lemma_str_le_trans(
                            pool@[k as int].name@,
                            pool@[mi as int].name@,
                            v_crows(pool@)[j].1,
                        );
                    }
                    lemma_str_le_refl(pool@[k as int].name@);
                    assert(spec_str_le(pool@[k as int].name@, v_crows(pool@)[k as int].1));
                }
                mi = k;
            } else {
                proof {
                    assert(spec_str_le(pool@[mi as int].name@, v_crows(pool@)[k as int].1));
                }
            }
            k = k + 1;
        }
        let ghost prev_pool = pool@;
        let ghost prev_out = out@;
        let x = pool.remove(mi);
        out.push(x);
        proof {
            let moved = (
                prev_pool[mi as int].id as int,
                prev_pool[mi as int].name@,
                prev_pool[mi as int].is_active as int,
            );
            assert(v_crows(pool@) =~= v_crows(prev_pool).remove(mi as int));
            assert(v_crows(out@) =~= v_crows(prev_out).push(moved));
            assert(v_crows(prev_pool).remove(mi as int).to_multiset() =~= v_crows(
                prev_pool,
            ).to_multiset().remove(moved));
            assert(v_crows(prev_out).push(moved).to_multiset() =~= v_crows(
                prev_out,
            ).to_multiset().insert(moved));
            assert(v_crows(out@).to_multiset().add(v_crows(pool@).to_multiset())
                =~= orig.to_multiset());
            assert(forall|j: int|
                0 <= j < v_crows(pool@).len() ==> spec_str_le(
                    moved.1,
                    (#[trigger] v_crows(pool@)[j]).1,
                ));
            assert(forall|a: int|
                0 <= a < v_crows(out@).len() ==> v_crows(out@)[a] == if a < prev_out.len() {
                    v_crows(prev_out)[a]
                } else {
                    moved
                });
        }
    }
    proof {
        assert(v_crows(pool@).to_multiset() =~= Multiset::<(int, Seq<char>, int)>::empty());
        assert(v_crows(out@).to_multiset() =~= orig.to_multiset());
    }
    out
}

/// The value views of bill item rows.
pub open spec fn v_irows(rs: Seq<BillItemRow>) -> Seq<(int, Seq<char>, int, int, int)> {
    rs.map_values(
        |r: BillItemRow|
            (
                r.product_id as int,
                r.product_name@,
                r.unit_price_cents as int,
                r.qty as int,
                r.line_total_cents as int,
            ),
    )
}

/// The line items of one bill, in stored order.
pub open spec fn spec_items_of(items: Seq<crate::store::BillItem>, bid: int) -> Seq<
    (int, Seq<char>, int, int, int),
>
    decreases items.len(),
{
    if items.len() == 0 {
        Seq::empty()
    } else {
        let rest = spec_items_of(items.drop_first(), bid);
        if items[0].bill_id == bid {
            seq![
                (
                    items[0].product_id as int,
                    items[0].product_name@,
                    items[0].unit_price_cents as int,
                    items[0].qty as int,
                    items[0].line_total_cents as int,
                ),
            ] + rest
        } else {
            rest
        }
    }
}

/// List the line items of one bill.
#[verifier::loop_isolation(false)]
pub fn bill_items_rows(s: &StoreData, bill_id: i64) -> (r: Vec<BillItemRow>)
    ensures
        v_irows(r@) == spec_items_of(s.bill_items@, bill_id as int),
{
    let mut out: Vec<BillItemRow> = Vec::new();
    let mut i: usize = 0;
    proof {
        assert(s.bill_items@.skip(0) =~= s.bill_items@);
        assert(v_irows(out@) + spec_items_of(s.bill_items@, bill_id as int) =~= spec_items_of(
            s.bill_items@,
            bill_id as int,
        ));
    }
    while i < s.bill_items.len()
        invariant
            i <= s.bill_items@.len(),
            spec_items_of(s.bill_items@, bill_id as int) == v_irows(out@) + spec_items_of(
                s.bill_items@.skip(i as int),
                bill_id as int,
            ),
        decreases s.bill_items@.len() - i,
    {
        let ghost rem = s.bill_items@.skip(i as int);
        proof {
            assert(rem[0] == s.bill_items@[i as int]);
            assert(rem.drop_first() =~= s.bill_items@.skip(i as int + 1));
        }
        let it = &s.bill_items[i];
        if it.bill_id == bill_id {
            let ghost prev = out@;
            out.push(
                BillItemRow {
                    product_id: it.product_id,
                    product_name: it.product_name.clone(),
                    unit_price_cents: it.unit_price_cents,
                    qty: it.qty,
                    line_total_cents: it.line_total_cents,
                },
            );
            proof {
                assert(v_irows(out@) =~= v_irows(prev).push(
                    (
                        it.product_id as int,
                        it.product_name@,
                        it.unit_price_cents as int,
                        it.qty as int,
                        it.line_total_cents as int,
                    ),
                ));
                assert(v_irows(out@) + spec_items_of(
                    s.bill_items@.skip(i as int + 1),
                    bill_id as int,
                ) =~= v_irows(prev) + spec_items_of(rem, bill_id as int));
            }
        }
        i = i + 1;
    }
    proof {
        assert(s.bill_items@.skip(s.bill_items@.len() as int) =~= Seq::<
            crate::store::BillItem,
        >::empty());
        assert(v_irows(out@) + spec_items_of(
            s.bill_items@.skip(s.bill_items@.len() as int),
            bill_id as int,
        ) =~= v_irows(out@));
    }
    out
}

/// The available products matching a search query, in stored order.
pub open spec fn spec_search_rows(s: &StoreData, q: Seq<char>) -> Seq<
    (int, Option<i64>, Seq<char>, Option<Seq<char>>, int, int),
> {
    spec_search_rows_rec(s, s.products@, q)
}

pub open spec fn spec_search_rows_rec(s: &StoreData, ps: Seq<Product>, q: Seq<char>) -> Seq<
    (int, Option<i64>, Seq<char>, Option<Seq<char>>, int, int),
>
    decreases ps.len(),
{
    if ps.len() == 0 {
        Seq::empty()
    } else {
        let rest = spec_search_rows_rec(s, ps.drop_first(), q);
        if spec_search_match(ps[0], q) {
            seq![spec_product_row(s, ps[0])] + rest
        } else {
            rest
        }
    }
}

/// The matching product rows of a search, in stored order.
#[verifier::loop_isolation(false)]
pub fn search_rows(s: &StoreData, q: &Vec<char>) -> (r: Vec<ProductRow>)
    requires
        s.wf(),
    ensures
        v_rows(r@) == spec_search_rows(s, q@),
{
    let mut out: Vec<ProductRow> = Vec::new();
    let mut i: usize = 0;
    proof {
        assert(s.products@.skip(0) =~= s.products@);
        assert(v_rows(out@) + spec_search_rows_rec(s, s.products@, q@) =~= spec_search_rows_rec(
            s,
            s.products@,
            q@,
        ));
    }
    while i < s.products.len()
        invariant
            i <= s.products@.len(),
            spec_search_rows_rec(s, s.products@, q@) == v_rows(out@) + spec_search_rows_rec(
                s,
                s.products@.skip(i as int),
                q@,
            ),
        decreases s.products@.len() - i,
    {
        let ghost rem = s.products@.skip(i as int);
        proof {
            assert(rem[0] == s.products@[i as int]);
            assert(rem.drop_first() =~= s.products@.skip(i as int + 1));
        }
        let p = &s.products[i];
        if search_match(p, q) {
            let category: Option<String> = match p.category_id {
                Some(cid) => cat_name(s, cid),
                None => None,
            };
            let ghost prev = out@;
            out.push(
                ProductRow {
                    id: p.id,
                    item_no: p.item_no,
                    name: p.name.clone(),
                    category,
                    price_cents: p.price_cents,
                    is_available: p.is_available,
                },
            );
            proof {
                assert(v_rows(out@) =~= v_rows(prev).push(
                    spec_product_row(s, s.products@[i as int]),
                ));
                assert(v_rows(out@) + spec_search_rows_rec(
                    s,
                    s.products@.skip(i as int + 1),
                    q@,
                ) =~= v_rows(prev) + spec_search_rows_rec(s, rem, q@));
            }
        }
        i = i + 1;
    }
    proof {
        assert(s.products@.skip(s.products@.len() as int) =~= Seq::<Product>::empty());
        assert(v_rows(out@) + spec_search_rows_rec(
            s,
            s.products@.skip(s.products@.len() as int),
            q@,
        ) =~= v_rows(out@));
    }
    out
}


/// The call failed with this message and the engine is untouched.
pub open spec fn spec_err(e0: Engine, e1: Engine, r: Result<Response, String>, msg: Seq<char>) -> bool {
    &&& r matches Err(e) && e@ == msg
    &&& e1 == e0
}

/// The store is detached: the route reports unavailability and changes
/// nothing.
pub open spec fn spec_unavailable(e0: Engine, e1: Engine, r: Result<Response, String>) -> bool {
    spec_err(e0, e1, r, "Database not available"@)
}

/// Everything around the attached store is kept: snapshots and paths.
pub open spec fn spec_engine_kept(e0: Engine, e1: Engine) -> bool {
    &&& e1.backups@ == e0.backups@
    &&& e1.db_path == e0.db_path
    &&& e1.backup_dir == e0.backup_dir
}

/// The page number a bill listing uses: the parsed `page` value raised to
/// at least one, defaulting to one.
pub open spec fn spec_qpage(q: Seq<(Seq<char>, Seq<char>)>) -> int {
    match spec_qs_get(q, "page"@) {
        Some(v) => match spec_parse_i64(v) {
            Some(p) => if p < 1 {
                1
            } else {
                p
            },
            None => 1,
        },
        None => 1,
    }
}

/// The page size a bill listing uses: the parsed `limit` clamped to one
/// through one hundred, defaulting to ten.
pub open spec fn spec_qlimit(q: Seq<(Seq<char>, Seq<char>)>) -> int {
    match spec_qs_get(q, "limit"@) {
        Some(v) => match spec_parse_i64(v) {
            Some(l) => if l < 1 {
                1
            } else if l > 100 {
                100
            } else {
                l
            },
            None => 10,
        },
        None => 10,
    }
}

/// A date-range bound: the validated date-only value extended to the
/// given time of day, or nothing.
pub open spec fn spec_qdate(
    q: Seq<(Seq<char>, Seq<char>)>,
    key: Seq<char>,
    time: Seq<char>,
) -> Option<Seq<char>> {
    match spec_qs_get(q, key) {
        Some(v) => match spec_to_date_only(v) {
            Some(d) => Some(d + time),
            None => None,
        },
        None => None,
    }
}

/// The product-creation route's outcome over an attached store: the
/// mapped result of the create operation — a new row with the requested
/// or allocated number, or its two named refusals, and nothing else.
pub open spec fn spec_products_post(
    st: StoreData,
    e0: Engine,
    e1: Engine,
    env: Env,
    b: Body,
    r: Result<Response, String>,
) -> bool {
    let nm = spec_trim(b.name->0@);
    let cat = match b.category {
        Some(c) => c@,
        None => Seq::<char>::empty(),
    };
    let explicit = b.item_no matches Some(n) && 1 <= n <= 9999;
    &&& spec_engine_kept(e0, e1)
    &&& e1.store is Some
    &&& {
        let st1 = e1.store->0;
        &&& st1.settings@ == st.settings@
        &&& st1.bills@ == st.bills@
        &&& st1.bill_items@ == st.bill_items@
        &&& match r {
            Ok(resp) => {
                &&& resp matches Response::Done
                &&& st1.products@.len() == st.products@.len() + 1
                &&& st1.products@.drop_last() == st.products@
                &&& {
                    let p = st1.products@.last();
                    &&& p.name@ == nm
                    &&& p.price_cents == b.price_cents->0
                    &&& p.is_available == 1
                    &&& p.created_at@ == spec_datetime(env.now_secs as nat)
                    &&& p.item_no == (if explicit {
                        b.item_no
                    } else {
                        Some((st.spec_max_item_no() + 1) as i64)
                    })
                    &&& (cat.len() == 0 ==> p.category_id is None)
                    &&& (cat.len() > 0 ==> exists|i: int|
                        0 <= i < st1.categories@.len() && (#[trigger] st1.categories@[i]).name@
                            == cat && p.category_id == Some(st1.categories@[i].id))
                }
                &&& !(explicit && st.spec_item_no_taken(b.item_no->0 as int))
                &&& (explicit || st.spec_max_item_no() < 9999)
            },
            Err(e) => {
                &&& st1.products@ == st.products@
                &&& ((e@ == "Item No already in use"@ && explicit && st.spec_item_no_taken(
                    b.item_no->0 as int,
                )) || (e@ == "Item No overflow"@ && !explicit && st.spec_max_item_no() == 9999))
            },
        }
    }
}

/// The product-update route's outcome over an attached store: an unknown
/// id changes no product, a collision with another row's number is the
/// named refusal, otherwise the row is rewritten in place.
pub open spec fn spec_products_put(
    st: StoreData,
    e0: Engine,
    e1: Engine,
    env: Env,
    b: Body,
    id: int,
    r: Result<Response, String>,
) -> bool {
    let nm = spec_trim(b.name->0@);
    let cat = match b.category {
        Some(c) => c@,
        None => Seq::<char>::empty(),
    };
    let no = match b.item_no {
        Some(n) => if 1 <= n <= 9999 {
            Some(n)
        } else {
            None
        },
        None => None,
    };
    let k = spec_product_index(st.products@, id);
    &&& spec_engine_kept(e0, e1)
    &&& e1.store is Some
    &&& {
        let st1 = e1.store->0;
        &&& st1.settings@ == st.settings@
        &&& st1.bills@ == st.bills@
        &&& st1.bill_items@ == st.bill_items@
        &&& match r {
            Ok(resp) => {
                &&& resp matches Response::Done
                &&& (k == -1 ==> st1.products@ == st.products@)
                &&& (k >= 0 ==> {
                    &&& st1.products@ == st.products@.update(k, st1.products@[k])
                    &&& {
                        let p = st1.products@[k];
                        &&& p.id == id as i64
                        &&& p.name@ == nm
                        &&& p.price_cents == b.price_cents->0
                        &&& p.item_no == no
                        &&& p.is_available == st.products@[k].is_available
                        &&& p.updated_at@ == spec_datetime(env.now_secs as nat)
                    }
                })
                &&& !(no matches Some(n) && k >= 0 && st.spec_item_no_taken_other(
                    n as int,
                    id,
                ))
            },
            Err(e) => {
                &&& e@ == "Item No already in use"@
                &&& st1.products@ == st.products@
                &&& no matches Some(n) && k >= 0 && st.spec_item_no_taken_other(n as int, id)
            },
        }
    }
}

/// The bill route's outcome over an attached store: a request with a
/// valid item is owed its bill — appended whole, with the rounded
/// discount and the advanced sequence — and a request without one is owed
/// its rejection with nothing consumed.
pub open spec fn spec_bills_post(
    st: StoreData,
    e0: Engine,
    e1: Engine,
    env: Env,
    items: Seq<BillItemInput>,
    dr: int,
    r: Result<Response, String>,
) -> bool {
    let v = spec_valid_items(items);
    let sub = spec_subtotal(v);
    let disc = crate::bills::spec_discount(sub, dr);
    if v.len() == 0 {
        spec_err(e0, e1, r, "No valid items"@)
    } else {
        &&& spec_engine_kept(e0, e1)
        &&& e1.store is Some
        &&& r matches Ok(resp)
        &&& resp matches Response::BillCreated { bill_no }
        &&& bill_no@ == spec_bill_no((st.bills@.len() + 1) as nat)
        &&& {
            let st1 = e1.store->0;
            &&& st1.products@ == st.products@
            &&& st1.categories@ == st.categories@
            &&& st1.bills@.len() == st.bills@.len() + 1
            &&& st1.bills@.drop_last() == st.bills@
            &&& {
                let nb = st1.bills@.last();
                &&& nb.bill_no@ == spec_bill_no((st.bills@.len() + 1) as nat)
                &&& nb.subtotal_cents == sub
                &&& nb.discount_rate_bps == dr
                &&& nb.discount_cents == disc
                &&& nb.total_cents == sub - disc
                &&& nb.created_at@ == spec_datetime(env.now_secs as nat)
            }
            &&& st1.bill_items@.len() == st.bill_items@.len() + v.len()
            &&& st1.bill_items@.take(st.bill_items@.len() as int) == st.bill_items@
            &&& (forall|k: int|
                0 <= k < v.len() ==> {
                    let bi = #[trigger] st1.bill_items@[st.bill_items@.len() + k];
                    &&& bi.bill_id == st.bills@.len() + 1
                    &&& bi.product_id == v[k].0
                    &&& bi.product_name@ == v[k].1
                    &&& bi.unit_price_cents == v[k].2
                    &&& bi.qty == v[k].3
                    &&& bi.line_total_cents == v[k].3 * v[k].2
                })
            &&& crate::store::spec_setting(st1.settings@, "bill_seq"@) == Some(
                crate::text::spec_dec((st.bills@.len() + 1) as nat),
            )
        }
    }
}

/// The route table's whole behaviour: for each `(method, path)` arm, in
/// dispatch order, what the call returns and what it does to the engine —
/// success owed where the inputs are in order, each failure forced with
/// its message and an untouched engine.
pub open spec fn spec_api(
    e0: Engine,
    e1: Engine,
    env: Env,
    m: Seq<char>,
    path: Seq<char>,
    body: Option<Body>,
    r: Result<Response, String>,
) -> bool {
    let base = spec_parse_qs(path).0;
    let q = spec_parse_qs(path).1;
    if m == "GET"@ && base == "/health"@ {
        r matches Ok(resp) && resp matches Response::Health && e1 == e0
    } else if m == "GET"@ && base == "/metrics"@ {
        match e0.store {
            None => spec_unavailable(e0, e1, r),
            Some(st) => {
                &&& e1 == e0
                &&& r matches Ok(resp)
                &&& resp matches Response::Metrics { bills, db_size_bytes }
                &&& bills == st.bills@.len()
                &&& db_size_bytes == env.db_size_bytes
            },
        }
    } else if m == "GET"@ && base == "/categories"@ {
        match e0.store {
            None => spec_unavailable(e0, e1, r),
            Some(st) => {
                &&& e1 == e0
                &&& r matches Ok(resp)
                &&& resp matches Response::Categories { rows }
                &&& v_crows(rows@).to_multiset() == crate::store::v_categories(
                    st.categories@,
                ).to_multiset()
                &&& spec_crows_sorted(v_crows(rows@))
            },
        }
    } else if m == "GET"@ && base == "/products/search"@ {
        match e0.store {
            None => spec_unavailable(e0, e1, r),
            Some(st) => {
                let qv = match spec_qs_get(q, "q"@) {
                    Some(v) => v,
                    None => Seq::<char>::empty(),
                };
                &&& e1 == e0
                &&& r matches Ok(resp)
                &&& resp matches Response::Products { rows }
                &&& exists|all: Seq<(int, Option<i64>, Seq<char>, Option<Seq<char>>, int, int)>|
                    {
                        &&& #[trigger] all.to_multiset() == spec_search_rows(
                            &st,
                            qv,
                        ).to_multiset()
                        &&& spec_rows_sorted(all)
                        &&& v_rows(rows@) == (if all.len() <= 20 {
                            all
                        } else {
                            all.take(20)
                        })
                    }
            },
        }
    } else if m == "GET"@ && base == "/products"@ {
        match e0.store {
            None => spec_unavailable(e0, e1, r),
            Some(st) => {
                &&& e1 == e0
                &&& r matches Ok(resp)
                &&& resp matches Response::Products { rows }
                &&& v_rows(rows@).to_multiset() == spec_all_rows(&st).to_multiset()
                &&& spec_rows_sorted(v_rows(rows@))
            },
        }
    } else if m == "POST"@ && base == "/products"@ {
        match e0.store {
            None => spec_unavailable(e0, e1, r),
            Some(st) => match body {
                None => spec_err(e0, e1, r, "Missing body"@),
                Some(b) => if b.name is None {
                    spec_err(e0, e1, r, "name required"@)
                } else if b.price_cents is None {
                    spec_err(e0, e1, r, "price_cents required"@)
                } else {
                    spec_products_post(st, e0, e1, env, b, r)
                },
            },
        }
    } else if m == "PUT"@ && base.len() >= 13 && base.skip(base.len() - 13) == "/availability"@ {
        let from: int = if base.len() >= 10 && base.take(10) == "/products/"@ {
            10
        } else {
            0
        };
        let to = base.len() - 13;
        let idp = if from <= to {
            spec_parse_i64(base.subrange(from, to))
        } else {
            None
        };
        match idp {
            None => spec_err(e0, e1, r, "Invalid product id"@),
            Some(id) => match body {
                None => spec_err(e0, e1, r, "Missing body"@),
                Some(b) => match e0.store {
                    None => spec_unavailable(e0, e1, r),
                    Some(st) => {
                        let avail = match b.is_available {
                            Some(v) => v,
                            None => 1,
                        };
                        let k = spec_product_index(st.products@, id);
                        &&& spec_engine_kept(e0, e1)
                        &&& e1.store is Some
                        &&& r matches Ok(resp)
                        &&& resp matches Response::Done
                        &&& {
                            let st1 = e1.store->0;
                            &&& st1.settings@ == st.settings@
                            &&& st1.categories@ == st.categories@
                            &&& st1.bills@ == st.bills@
                            &&& st1.bill_items@ == st.bill_items@
                            &&& (k == -1 ==> st1.products@ == st.products@)
                            &&& (k >= 0 ==> st1.products@ == st.products@.update(
                                k,
                                crate::store::Product { is_available: avail, ..st.products@[k] },
                            ))
                        }
                    },
                },
            },
        }
    } else if m == "PUT"@ && base.len() >= 10 && base.take(10) == "/products/"@ {
        match spec_parse_i64(base.skip(10)) {
            None => spec_err(e0, e1, r, "Invalid id"@),
            Some(id) => match body {
                None => spec_err(e0, e1, r, "Missing body"@),
                Some(b) => if b.name is None {
                    spec_err(e0, e1, r, "name required"@)
                } else if b.price_cents is None {
                    spec_err(e0, e1, r, "price_cents required"@)
                } else {
                    match e0.store {
                        None => spec_unavailable(e0, e1, r),
                        Some(st) => spec_products_put(st, e0, e1, env, b, id, r),
                    }
                },
            },
        }
    } else if m == "DELETE"@ && base.len() >= 10 && base.take(10) == "/products/"@ {
        match spec_parse_i64(base.skip(10)) {
            None => spec_err(e0, e1, r, "Invalid id"@),
            Some(id) => match e0.store {
                None => spec_unavailable(e0, e1, r),
                Some(st) => {
                    let k = spec_product_index(st.products@, id);
                    let referenced = st.spec_product_referenced(id);
                    &&& spec_engine_kept(e0, e1)
                    &&& e1.store is Some
                    &&& r matches Ok(resp)
                    &&& resp matches Response::DoneDisabled { disabled }
                    &&& disabled == referenced
                    &&& {
                        let st1 = e1.store->0;
                        &&& st1.settings@ == st.settings@
                        &&& st1.categories@ == st.categories@
                        &&& st1.bills@ == st.bills@
                        &&& st1.bill_items@ == st.bill_items@
                        &&& (k == -1 ==> st1.products@ == st.products@)
                        &&& (referenced && k >= 0 ==> st1.products@ == st.products@.update(
                            k,
                            crate::store::Product { is_available: 0, ..st.products@[k] },
                        ))
                        &&& (!referenced && k >= 0 ==> st1.products@ == st.products@.remove(k))
                    }
                },
            },
        }
    } else if m == "POST"@ && base == "/bills"@ {
        match body {
            None => spec_err(e0, e1, r, "Missing body"@),
            Some(b) => match b.items {
                None => spec_err(e0, e1, r, "items required"@),
                Some(items) => if items@.len() == 0 {
                    spec_err(e0, e1, r, "No items"@)
                } else if items@.len() > MAX_BILL_ITEMS {
                    spec_err(e0, e1, r, "Too many items"@)
                } else if exists|i: int|
                    0 <= i < items@.len() && (#[trigger] items@[i]).unit_price_cents
                        > MAX_UNIT_PRICE_CENTS {
                    spec_err(e0, e1, r, "Invalid unit price"@)
                } else {
                    let dr = match b.discount_rate_bps {
                        Some(v) => v,
                        None => 0,
                    };
                    if dr < -10000 || dr > 10000 {
                        spec_err(e0, e1, r, "Invalid discount rate"@)
                    } else {
                        match e0.store {
                            None => spec_unavailable(e0, e1, r),
                            Some(st) => spec_bills_post(st, e0, e1, env, items@, dr as int, r),
                        }
                    }
                },
            },
        }
    } else if m == "GET"@ && base == "/bills"@ {
        match e0.store {
            None => spec_unavailable(e0, e1, r),
            Some(st) => {
                let bnq = match spec_qs_get(q, "bill_no"@) {
                    Some(v) => v,
                    None => Seq::<char>::empty(),
                };
                let start = spec_qdate(q, "start"@, " 00:00:00"@);
                let end = spec_qdate(q, "end"@, " 23:59:59"@);
                let f = spec_bills_filtered(st.bills@, bnq, start, end);
                let off = (spec_qpage(q) - 1) * spec_qlimit(q);
                &&& e1 == e0
                &&& r matches Ok(resp)
                &&& resp matches Response::Bills { rows, total }
                &&& total == f.len()
                &&& (off >= f.len() ==> rows@.len() == 0)
                &&& (off < f.len() ==> v_brows(rows@) == f.reverse().subrange(
                    off,
                    if off + spec_qlimit(q) <= f.len() {
                        off + spec_qlimit(q)
                    } else {
                        f.len() as int
                    },
                ))
            },
        }
    } else if m == "GET"@ && base.len() >= 7 && base.take(7) == "/bills/"@ {
        match spec_parse_i64(base.skip(7)) {
            None => spec_err(e0, e1, r, "Invalid id"@),
            Some(id) => match e0.store {
                None => spec_unavailable(e0, e1, r),
                Some(st) => {
                    &&& e1 == e0
                    &&& r matches Ok(resp)
                    &&& resp matches Response::BillItems { items }
                    &&& v_irows(items@) == spec_items_of(st.bill_items@, id)
                },
            },
        }
    } else if m == "GET"@ && base == "/backup/settings"@ {
        match e0.store {
            None => spec_unavailable(e0, e1, r),
            Some(st) => {
                let bp = match crate::store::spec_setting(st.settings@, "backup_path"@) {
                    Some(v) => v,
                    None => e0.backup_dir@,
                };
                let ivs = match crate::store::spec_setting(
                    st.settings@,
                    "backup_interval_minutes"@,
                ) {
                    Some(v) => v,
                    None => "1440"@,
                };
                let iv = match spec_parse_i64(ivs) {
                    Some(v) => v,
                    None => 1440,
                };
                &&& e1 == e0
                &&& r matches Ok(resp)
                &&& resp matches Response::BackupSettings { backup_path, backup_interval_minutes }
                &&& backup_path@ == bp
                &&& backup_interval_minutes == iv
            },
        }
    } else if m == "POST"@ && base == "/backup/settings"@ {
        match e0.store {
            None => spec_unavailable(e0, e1, r),
            Some(st) => match body {
                None => spec_err(e0, e1, r, "Missing body"@),
                Some(b) => {
                    let bp = match b.backup_path {
                        Some(p) => p@,
                        None => e0.backup_dir@,
                    };
                    let iv = match b.backup_interval_minutes {
                        Some(v) => v,
                        None => 1440,
                    };
                    &&& spec_engine_kept(e0, e1)
                    &&& e1.store is Some
                    &&& r matches Ok(resp)
                    &&& resp matches Response::Done
                    &&& {
                        let st1 = e1.store->0;
                        &&& st1.categories@ == st.categories@
                        &&& st1.products@ == st.products@
                        &&& st1.bills@ == st.bills@
                        &&& st1.bill_items@ == st.bill_items@
                        &&& crate::store::spec_setting(st1.settings@, "backup_path"@) == Some(bp)
                        &&& crate::store::spec_setting(st1.settings@, "backup_interval_minutes"@)
                            == Some(crate::text::spec_dec_i64(iv as int))
                        &&& (forall|k: Seq<char>|
                            k != "backup_path"@ && k != "backup_interval_minutes"@
                                ==> #[trigger] crate::store::spec_setting(st1.settings@, k)
                                == crate::store::spec_setting(st.settings@, k))
                    }
                },
            },
        }
    } else if m == "GET"@ && base == "/backup/files"@ {
        match e0.store {
            None => spec_unavailable(e0, e1, r),
            Some(st) => {
                let tv = match spec_qs_get(q, "path"@) {
                    Some(v) => v,
                    None => match crate::store::spec_setting(st.settings@, "backup_path"@) {
                        Some(v) => v,
                        None => e0.backup_dir@,
                    },
                };
                &&& e1 == e0
                &&& r matches Ok(resp)
                &&& resp matches Response::BackupFiles { files, backup_path }
                &&& backup_path@ == tv
                &&& v_entries(files@).to_multiset() == spec_db_files(
                    env.dir_entries@,
                ).to_multiset()
                &&& spec_sorted_desc(v_entries(files@))
            },
        }
    } else if m == "POST"@ && base == "/backup/run"@ {
        match e0.store {
            None => spec_unavailable(e0, e1, r),
            Some(st) => {
                let tv = match body {
                    Some(b) => match b.target {
                        Some(v) => v@,
                        None => match crate::store::spec_setting(st.settings@, "backup_path"@) {
                            Some(v) => v,
                            None => e0.backup_dir@,
                        },
                    },
                    None => match crate::store::spec_setting(st.settings@, "backup_path"@) {
                        Some(v) => v,
                        None => e0.backup_dir@,
                    },
                };
                &&& e1.store == e0.store
                &&& e1.db_path == e0.db_path
                &&& e1.backup_dir == e0.backup_dir
                &&& r matches Ok(resp)
                &&& resp matches Response::BackupDone { file }
                &&& file@ == tv + "/"@ + crate::calendar::spec_backup_file_name(
                    env.now_secs as nat,
                )
                &&& e1.backups@.len() == e0.backups@.len() + 1
                &&& e1.backups@.drop_last() == e0.backups@
                &&& {
                    let snap = e1.backups@.last();
                    &&& snap.dir@ == tv
                    &&& snap.path@ == file@
                    &&& snap.created_secs == env.now_secs
                    &&& snap.size_bytes == env.db_size_bytes
                    &&& crate::store::store_eq(&snap.data, &st)
                }
            },
        }
    } else if m == "POST"@ && base == "/backup/restore"@ {
        match body {
            None => spec_err(e0, e1, r, "Missing body"@),
            Some(b) => {
                let src = match b.source {
                    Some(s) => s@,
                    None => match b.backup_path {
                        Some(bp) => match b.file_name {
                            Some(f) => bp@ + "/"@ + f@,
                            None => bp@,
                        },
                        None => Seq::<char>::empty(),
                    },
                };
                if src.len() == 0 {
                    spec_err(e0, e1, r, "No backup source"@)
                } else {
                    &&& e1 == e0
                    &&& r matches Ok(resp)
                    &&& resp matches Response::RestorePlan { source }
                    &&& source@ == src
                }
            },
        }
    } else if m == "POST"@ && base == "/print"@ {
        match body {
            None => spec_err(e0, e1, r, "Missing body"@),
            Some(b) => match b.payload {
                None => spec_err(e0, e1, r, "Missing payload"@),
                Some(p) => {
                    &&& e1 == e0
                    &&& r matches Ok(resp)
                    &&& resp matches Response::Print { printer, stream }
                    &&& printer@ == (match b.printer_name {
                        Some(n) => n@,
                        None => "Rugtek printer"@,
                    })
                    &&& stream@ == crate::printing::spec_print_stream(
                        vstd::utf8::encode_utf8(crate::receipt::spec_format_receipt(p)),
                    )
                },
            },
        }
    } else {
        spec_err(e0, e1, r, "Not found: "@ + m + " "@ + path)
    }
}

/// Compare two string slices by content.
fn s_eq(a: &str, b: &str) -> (r: bool)
    ensures
        r == (a@ == b@),
{
    let sa = String::from_str(a);
    let sb = String::from_str(b);
    sa.eq(&sb)
}

/// Whether `s` begins with `pre`.
#[verifier::loop_isolation(false)]
fn starts_with_chars(s: &Vec<char>, pre: &str) -> (r: bool)
    ensures
        r == (s@.len() >= pre@.len() && s@.take(pre@.len() as int) == pre@),
{
    let pc = chars_vec(pre);
    if pc.len() > s.len() {
        return false;
    }
    let mut i: usize = 0;
    while i < pc.len()
        invariant
            i <= pc@.len() <= s@.len(),
            pc@ == pre@,
            s@.take(i as int) == pre@.take(i as int),
        decreases pc@.len() - i,
    {
        proof {
            assert(s@.take(i as int + 1).drop_last() =~= s@.take(i as int));
            assert(pre@.take(i as int + 1).drop_last() =~= pre@.take(i as int));
        }
        if s[i] != pc[i] {
            proof {
                if s@.take(pre@.len() as int) == pre@ {
                    assert(s@.take(pre@.len() as int)[i as int] == pre@[i as int]);
                }
            }
            return false;
        }
        proof {
            assert(s@.take(i as int + 1) =~= pre@.take(i as int + 1));
        }
        i = i + 1;
    }
    proof {
        assert(pre@.take(pre@.len() as int) =~= pre@);
    }
    true
}

/// Whether `s` ends with `suf`.
#[verifier::loop_isolation(false)]
fn ends_with_chars(s: &Vec<char>, suf: &str) -> (r: bool)
    ensures
        r == (s@.len() >= suf@.len() && s@.skip(s@.len() - suf@.len()) == suf@),
{
    let sc = chars_vec(suf);
    if sc.len() > s.len() {
        return false;
    }
    let base = s.len() - sc.len();
    let mut i: usize = 0;
    let ghost tail = s@.skip(base as int);
    proof {
        assert(tail.len() == suf@.len());
    }
    while i < sc.len()
        invariant
            i <= sc@.len(),
            base == s@.len() - suf@.len(),
            sc@ == suf@,
            tail == s@.skip(base as int),
            tail.take(i as int) == suf@.take(i as int),
        decreases sc@.len() - i,
    {
        proof {
            assert(tail.take(i as int + 1).drop_last() =~= tail.take(i as int));
            assert(suf@.take(i as int + 1).drop_last() =~= suf@.take(i as int));
            assert(tail[i as int] == s@[base + i]);
        }
        if s[base + i] != sc[i] {
            proof {
                if tail == suf@ {
                    assert(tail[i as int] == suf@[i as int]);
                }
            }
            return false;
        }
        proof {
            assert(tail.take(i as int + 1) =~= suf@.take(i as int + 1));
        }
        i = i + 1;
    }
    proof {
        assert(tail.take(suf@.len() as int) =~= tail);
        assert(suf@.take(suf@.len() as int) =~= suf@);
    }
    true
}

/// Copy a character range of `s`.
#[verifier::loop_isolation(false)]
fn subrange_chars(s: &Vec<char>, from: usize, to: usize) -> (r: Vec<char>)
    requires
        from <= to <= s@.len(),
    ensures
        r@ == s@.subrange(from as int, to as int),
{
    let mut out: Vec<char> = Vec::new();
    let mut i: usize = from;
    proof {
        assert(out@ =~= s@.subrange(from as int, from as int));
    }
    while i < to
        invariant
            from <= i <= to <= s@.len(),
            out@ == s@.subrange(from as int, i as int),
        decreases to - i,
    {
        out.push(s[i]);
        proof {
            assert(out@ =~= s@.subrange(from as int, i as int + 1));
        }
        i = i + 1;
    }
    out
}

fn err_str(msg: &str) -> (r: Result<Response, String>)
    ensures
        r matches Err(e) && e@ == msg@,
{
    Err(String::from_str(msg))
}

/// Dispatch one gateway call against the engine: parse the query string,
/// validate the body, run the operation and shape the typed response. An
/// unknown route reports itself; a detached store reports
/// unavailability; a bill request that fails leaves the engine exactly as
/// it was, consuming no sequence value.
#[verifier::loop_isolation(false)]
#[verifier::rlimit(100)]
pub fn api_call(
    engine: &mut Engine,
    env: &Env,
    method: &str,
    path: &str,
    body: Option<Body>,
) -> (r: Result<Response, String>)
    requires
        old(engine).wf(),
        env.now_secs <= MAX_EPOCH_SECS,
        old(engine).store matches Some(s) ==> s.bills@.len() < 0x0001_0000_0000_0000
            && s.bill_items@.len() < 0x0001_0000_0000_0000 && s.next_product_id
            < 0x7fff_ffff_ffff_ffff && s.next_category_id < 0x7fff_ffff_ffff_ffff,
    ensures
        final(engine).wf(),
        method@ == "GET"@ ==> *final(engine) == *old(engine),
        spec_api(*old(engine), *final(engine), *env, method@, path@, body, r),
{
    proof {
        reveal_strlit("GET");
        reveal_strlit("POST");
        reveal_strlit("PUT");
        reveal_strlit("DELETE");
        reveal_strlit("/bills");
        reveal_strlit("/health");
        reveal_strlit("/metrics");
        reveal_strlit("/categories");
        reveal_strlit("/products/search");
        reveal_strlit("/products");
        reveal_strlit("/products/");
        reveal_strlit("/availability");
        reveal_strlit("/bills/");
        reveal_strlit("/backup/settings");
        reveal_strlit("/backup/files");
        reveal_strlit("/backup/run");
        reveal_strlit("/backup/restore");
        reveal_strlit("/print");
        reveal_strlit("");
        assert(""@.len() == 0);
        assert(""@ =~= Seq::<char>::empty());
        assert("/availability"@.len() == 13);
        assert("/products/"@.len() == 10);
        assert("/bills/"@.len() == 7);
        assert("GET"@ != "PUT"@) by {
            assert("GET"@[0] == 'G');
            assert("PUT"@[0] == 'P');
        }
        assert("GET"@.len() != "POST"@.len());
        assert("GET"@.len() != "DELETE"@.len());
        assert("POST"@.len() != "PUT"@.len());
        assert("POST"@.len() != "DELETE"@.len());
    }
    let ghost gbody: Option<Body> = body;
    let m_get = s_eq(method, "GET");
    let m_post = s_eq(method, "POST");
    let m_put = s_eq(method, "PUT");
    let m_del = s_eq(method, "DELETE");
    let (base_s, qs) = parse_qs(path);
    let bm = chars_vec(base_s.as_str());

    if m_get && s_eq(base_s.as_str(), "/health") {
        return Ok(Response::Health);
    }

    if m_get && s_eq(base_s.as_str(), "/metrics") {
        match &engine.store {
            None => {
                return err_str("Database not available");
            },
            Some(st) => {
                let count = st.bills.len() as i64;
                return Ok(Response::Metrics { bills: count, db_size_bytes: env.db_size_bytes });
            },
        }
    }

    if m_get && s_eq(base_s.as_str(), "/categories") {
        match &engine.store {
            None => {
                return err_str("Database not available");
            },
            Some(st) => {
                let rows = sort_category_rows(categories_rows(st));
                return Ok(Response::Categories { rows });
            },
        }
    }

    if m_get && s_eq(base_s.as_str(), "/products/search") {
        match &engine.store {
            None => {
                return err_str("Database not available");
            },
            Some(st) => {
                let q: Vec<char> = match qs_get(&qs, "q") {
                    Some(v) => chars_vec(v.as_str()),
                    None => Vec::new(),
                };
                let rows = search_rows(st, &q);
                let mut sorted = sort_product_rows(rows);
                let ghost allv = v_rows(sorted@);
                if sorted.len() > 20 {
                    sorted.truncate(20);
                    proof {
                        assert(v_rows(sorted@) =~= allv.take(20));
                    }
                }
                return Ok(Response::Products { rows: sorted });
            },
        }
    }

    if m_get && s_eq(base_s.as_str(), "/products") {
        match &engine.store {
            None => {
                return err_str("Database not available");
            },
            Some(st) => {
                let rows = product_rows(st);
                let sorted = sort_product_rows(rows);
                return Ok(Response::Products { rows: sorted });
            },
        }
    }

    if m_post && s_eq(base_s.as_str(), "/products") {
        if engine.store.is_none() {
            return err_str("Database not available");
        }
        let b = match body {
            None => {
                return err_str("Missing body");
            },
            Some(b) => b,
        };
        let name_raw = match b.name {
            None => {
                return err_str("name required");
            },
            Some(n) => n,
        };
        let nm = chars_vec(name_raw.as_str());
        let nt = trim_chars(&nm);
        let name = chars_to_string(&nt);
        let category = match b.category {
            Some(c) => c,
            None => String::from_str(""),
        };
        let price = match b.price_cents {
            None => {
                return err_str("price_cents required");
            },
            Some(p) => p,
        };
        let taken = engine.store.take();
        match taken {
            None => {
                return err_str("Database not available");
            },
            Some(mut st) => {
                let res = st.create_product(
                    name.as_str(),
                    category.as_str(),
                    price,
                    b.item_no,
                    env.now_secs,
                );
                engine.store = Some(st);
                let out: Result<Response, String> = match res {
                    Ok(_) => Ok(Response::Done),
                    Err(e) => Err(e.message()),
                };
                proof {
                    let bb = gbody->0;
                    assert(name_raw == bb.name->0);
                    assert(name@ == spec_trim(name_raw@));
                    assert(spec_products_post(
                        old(engine).store->0,
                        *old(engine),
                        *engine,
                        *env,
                        bb,
                        out,
                    ));
                }
                return out;
            },
        }
    }

    if m_put && ends_with_chars(&bm, "/availability") {
        let suffix_len: usize = 13;
        let has_pre = starts_with_chars(&bm, "/products/");
        let from: usize = if has_pre {
            10
        } else {
            0
        };
        let to: usize = bm.len() - suffix_len;
        let id: i64 = if from <= to {
            let mid = subrange_chars(&bm, from, to);
            let mids = chars_to_string(&mid);
            match crate::query::parse_i64(mids.as_str()) {
                Some(v) => v,
                None => {
                    return err_str("Invalid product id");
                },
            }
        } else {
            return err_str("Invalid product id");
        };
        let b = match body {
            None => {
                return err_str("Missing body");
            },
            Some(b) => b,
        };
        let avail = match b.is_available {
            Some(v) => v,
            None => 1,
        };
        let taken = engine.store.take();
        match taken {
            None => {
                return err_str("Database not available");
            },
            Some(mut st) => {
                st.set_availability(id, avail);
                engine.store = Some(st);
                return Ok(Response::Done);
            },
        }
    }

    if m_put && starts_with_chars(&bm, "/products/") {
        let mid = subrange_chars(&bm, 10, bm.len());
        let mids = chars_to_string(&mid);
        let id: i64 = match crate::query::parse_i64(mids.as_str()) {
            Some(v) => v,
            None => {
                return err_str("Invalid id");
            },
        };
        let b = match body {
            None => {
                return err_str("Missing body");
            },
            Some(b) => b,
        };
        let name_raw = match b.name {
            None => {
                return err_str("name required");
            },
            Some(n) => n,
        };
        let nm = chars_vec(name_raw.as_str());
        let nt = trim_chars(&nm);
        let name = chars_to_string(&nt);
        let category = match b.category {
            Some(c) => c,
            None => String::from_str(""),
        };
        let price = match b.price_cents {
            None => {
                return err_str("price_cents required");
            },
            Some(p) => p,
        };
        let taken = engine.store.take();
        match taken {
            None => {
                return err_str("Database not available");
            },
            Some(mut st) => {
                let res = st.update_product(
                    id,
                    name.as_str(),
                    category.as_str(),
                    price,
                    b.item_no,
                    env.now_secs,
                );
                engine.store = Some(st);
                return match res {
                    Ok(_) => Ok(Response::Done),
                    Err(e) => Err(e.message()),
                };
            },
        }
    }

    if m_del && starts_with_chars(&bm, "/products/") {
        let mid = subrange_chars(&bm, 10, bm.len());
        let mids = chars_to_string(&mid);
        let id: i64 = match crate::query::parse_i64(mids.as_str()) {
            Some(v) => v,
            None => {
                return err_str("Invalid id");
            },
        };
        let taken = engine.store.take();
        match taken {
            None => {
                return err_str("Database not available");
            },
            Some(mut st) => {
                let disabled = st.delete_product(id);
                engine.store = Some(st);
                return Ok(Response::DoneDisabled { disabled });
            },
        }
    }

    if m_post && s_eq(base_s.as_str(), "/bills") {
        let b = match body {
            None => {
                return err_str("Missing body");
            },
            Some(b) => b,
        };
        let items = match b.items {
            None => {
                return err_str("items required");
            },
            Some(v) => v,
        };
        if items.len() == 0 {
            return err_str("No items");
        }
        if items.len() > MAX_BILL_ITEMS {
            return err_str("Too many items");
        }
        let mut ci: usize = 0;
        while ci < items.len()
            invariant
                ci <= items@.len(),
                forall|i: int|
                    0 <= i < ci ==> (#[trigger] items@[i]).unit_price_cents
                        <= MAX_UNIT_PRICE_CENTS,
                *engine == *old(engine),
            decreases items@.len() - ci,
        {
            if items[ci].unit_price_cents > MAX_UNIT_PRICE_CENTS {
                return err_str("Invalid unit price");
            }
            ci = ci + 1;
        }
        let dr = match b.discount_rate_bps {
            Some(v) => v,
            None => 0,
        };
        if dr < -10000 || dr > 10000 {
            return err_str("Invalid discount rate");
        }
        let taken = engine.store.take();
        match taken {
            None => {
                engine.store = None;
                proof {
                    assert(*engine =~= *old(engine));
                }
                return err_str("Database not available");
            },
            Some(mut st) => {
                let res = st.create_bill(&items, dr, env.now_secs);
                engine.store = Some(st);
                return match res {
                    Ok(bill_no) => Ok(Response::BillCreated { bill_no }),
                    Err(e) => {
                        proof {
                            assert(*engine =~= *old(engine));
                        }
                        Err(e.message())
                    },
                };
            },
        }
    }

    if m_get && s_eq(base_s.as_str(), "/bills") {
        match &engine.store {
            None => {
                return err_str("Database not available");
            },
            Some(st) => {
                let page: i64 = match qs_get(&qs, "page") {
                    Some(v) => match crate::query::parse_i64(v.as_str()) {
                        Some(p) => if p < 1 {
                            1
                        } else {
                            p
                        },
                        None => 1,
                    },
                    None => 1,
                };
                let limit: i64 = match qs_get(&qs, "limit") {
                    Some(v) => match crate::query::parse_i64(v.as_str()) {
                        Some(l) => if l < 1 {
                            1
                        } else if l > 100 {
                            100
                        } else {
                            l
                        },
                        None => 10,
                    },
                    None => 10,
                };
                let bnq: Vec<char> = match qs_get(&qs, "bill_no") {
                    Some(v) => chars_vec(v.as_str()),
                    None => Vec::new(),
                };
                let start: Option<String> = match qs_get(&qs, "start") {
                    Some(v) => match to_date_only(v.as_str()) {
                        Some(d) => {
                            let mut dc = chars_vec(d.as_str());
                            push_str_chars(&mut dc, " 00:00:00");
                            Some(chars_to_string(&dc))
                        },
                        None => None,
                    },
                    None => None,
                };
                let end: Option<String> = match qs_get(&qs, "end") {
                    Some(v) => match to_date_only(v.as_str()) {
                        Some(d) => {
                            let mut dc = chars_vec(d.as_str());
                            push_str_chars(&mut dc, " 23:59:59");
                            Some(chars_to_string(&dc))
                        },
                        None => None,
                    },
                    None => None,
                };
                let (rows, total) = bills_page(st, &bnq, &start, &end, page, limit);
                return Ok(Response::Bills { rows, total });
            },
        }
    }

    if m_get && starts_with_chars(&bm, "/bills/") {
        let mid = subrange_chars(&bm, 7, bm.len());
        let mids = chars_to_string(&mid);
        let id: i64 = match crate::query::parse_i64(mids.as_str()) {
            Some(v) => v,
            None => {
                return err_str("Invalid id");
            },
        };
        match &engine.store {
            None => {
                return err_str("Database not available");
            },
            Some(st) => {
                return Ok(Response::BillItems { items: bill_items_rows(st, id) });
            },
        }
    }

    if m_get && s_eq(base_s.as_str(), "/backup/settings") {
        match &engine.store {
            None => {
                return err_str("Database not available");
            },
            Some(st) => {
                let bp = st.get_setting("backup_path", engine.backup_dir.as_str());
                let ivs = st.get_setting("backup_interval_minutes", "1440");
                let iv: i64 = match crate::query::parse_i64(ivs.as_str()) {
                    Some(v) => v,
                    None => 1440,
                };
                return Ok(
                    Response::BackupSettings { backup_path: bp, backup_interval_minutes: iv },
                );
            },
        }
    }

    if m_post && s_eq(base_s.as_str(), "/backup/settings") {
        if engine.store.is_none() {
            return err_str("Database not available");
        }
        let b = match body {
            None => {
                return err_str("Missing body");
            },
            Some(b) => b,
        };
        let bp = match b.backup_path {
            Some(p) => p,
            None => engine.backup_dir.clone(),
        };
        let iv = match b.backup_interval_minutes {
            Some(v) => v,
            None => 1440,
        };
        let ivs = crate::text::dec_string_i64(iv);
        let taken = engine.store.take();
        match taken {
            None => {
                return err_str("Database not available");
            },
            Some(mut st) => {
                proof {
                    reveal_strlit("backup_path");
                    reveal_strlit("backup_interval_minutes");
                    reveal_strlit("bill_seq");
                    assert("backup_path"@.len() == 11);
                    assert("backup_interval_minutes"@.len() == 23);
                    assert("bill_seq"@.len() == 8);
                }
                st.set_setting("backup_path", bp.as_str());
                st.set_setting("backup_interval_minutes", ivs.as_str());
                engine.store = Some(st);
                return Ok(Response::Done);
            },
        }
    }

    if m_get && s_eq(base_s.as_str(), "/backup/files") {
        match &engine.store {
            None => {
                return err_str("Database not available");
            },
            Some(st) => {
                let t = match qs_get(&qs, "path") {
                    Some(v) => v.clone(),
                    None => st.get_setting("backup_path", engine.backup_dir.as_str()),
                };
                let files = list_backups(&env.dir_entries);
                return Ok(Response::BackupFiles { files, backup_path: t });
            },
        }
    }

    if m_post && s_eq(base_s.as_str(), "/backup/run") {
        let target: Option<String> = match body {
            Some(b) => b.target,
            None => None,
        };
        if engine.store.is_none() {
            return err_str("Database not available");
        }
        let t = match target {
            Some(v) => v,
            None => match &engine.store {
                Some(st) => st.get_setting("backup_path", engine.backup_dir.as_str()),
                None => {
                    return err_str("Database not available");
                },
            },
        };
        let file = engine.backup(t.as_str(), env.now_secs, env.db_size_bytes);
        return Ok(Response::BackupDone { file });
    }

    if m_post && s_eq(base_s.as_str(), "/backup/restore") {
        let b = match body {
            None => {
                return err_str("Missing body");
            },
            Some(b) => b,
        };
        let src: String = match b.source {
            Some(s) => s,
            None => match b.backup_path {
                Some(bp) => match b.file_name {
                    Some(fnm) => {
                        let mut p = chars_vec(bp.as_str());
                        push_str_chars(&mut p, "/");
                        let fc = chars_vec(fnm.as_str());
                        push_chars(&mut p, &fc);
                        chars_to_string(&p)
                    },
                    None => bp,
                },
                None => String::from_str(""),
            },
        };
        if src.as_str().is_empty() {
            return err_str("No backup source");
        }
        proof {
            let bb = gbody->0;
            let src_spec = match bb.source {
                Some(s) => s@,
                None => match bb.backup_path {
                    Some(bp) => match bb.file_name {
                        Some(f) => bp@ + "/"@ + f@,
                        None => bp@,
                    },
                    None => Seq::<char>::empty(),
                },
            };
            assert(src@ == src_spec);
            assert(src@.len() != 0);
        }
        return Ok(Response::RestorePlan { source: src });
    }

    if m_post && s_eq(base_s.as_str(), "/print") {
        let b = match body {
            None => {
                return err_str("Missing body");
            },
            Some(b) => b,
        };
        let printer = match b.printer_name {
            Some(p) => p,
            None => String::from_str("Rugtek printer"),
        };
        let payload = match b.payload {
            None => {
                return err_str("Missing payload");
            },
            Some(p) => p,
        };
        let receipt = format_receipt(&payload);
        let stream = print_stream(receipt.as_str());
        return Ok(Response::Print { printer, stream });
    }

    let mut msg = chars_vec("Not found: ");
    push_str_chars(&mut msg, method);
    push_str_chars(&mut msg, " ");
    push_str_chars(&mut msg, path);
    Err(chars_to_string(&msg))
}

/// The directory the backup-files route will consult for this call: the
/// query's `path` value when given, else the stored backup path, else the
/// given default. The caller reads this directory and hands its entries
/// in through the environment.
pub fn backup_files_dir(st: &StoreData, path: &str, fallback: &str) -> (r: String)
    ensures
        r@ == (match spec_qs_get(spec_parse_qs(path@).1, "path"@) {
            Some(v) => v,
            None => match crate::store::spec_setting(st.settings@, "backup_path"@) {
                Some(v) => v,
                None => fallback@,
            },
        }),
{
    let (_base, qs) = parse_qs(path);
    match qs_get(&qs, "path") {
        Some(v) => v.clone(),
        None => st.get_setting("backup_path", fallback),
    }
}

} // verus!

