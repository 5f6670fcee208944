//! The bill transaction engine: candidate line items are validated and
//! normalized, the bill sequence is advanced, the discount is rounded from
//! basis points, and the bill row with its line items is appended — all or
//! nothing, so a rejected request consumes no sequence value.

use vstd::prelude::*;

use crate::calendar::{datetime_string, spec_datetime, MAX_EPOCH_SECS};
use crate::clamp_qty;
use crate::spec_clamp_qty;
use crate::store::{spec_bill_no, spec_setting, Bill, BillItem, StoreData};
use crate::text::{chars_to_string, chars_vec, push_dec_padded, spec_dec, spec_trim, trim_chars};

verus! {

/// The ceiling the engine accepts for a single unit price, in cents; with
/// the quantity and item-count ceilings it keeps every money sum inside a
/// 64-bit integer.
pub const MAX_UNIT_PRICE_CENTS: i64 = 450_000_000_000;

/// The ceiling the engine accepts for the number of candidate line items
/// of one bill.
pub const MAX_BILL_ITEMS: usize = 10_000;

/// One candidate line item of a bill request.
pub struct BillItemInput {
    pub product_id: i64,
    pub product_name: String,
    pub unit_price_cents: i64,
    pub qty: i64,
}

/// A bill request whose candidate items all fall away is rejected whole.
#[derive(Debug)]
pub enum BillError {
    NoValidItems,
}

impl BillError {
    /// The human-readable text the gateway reports for this failure.
    pub fn message(&self) -> (r: String)
        ensures
            r@ == "No valid items"@,
    {
        String::from_str("No valid items")
    }
}

/// A candidate is kept when it names an existing product id and its
/// trimmed name is non-empty.
pub open spec fn spec_valid_item(it: BillItemInput) -> bool {
    it.product_id > 0 && spec_trim(it.product_name@).len() > 0
}

/// A negative unit price is floored to zero.
pub open spec fn spec_norm_unit(u: int) -> int {
    if u < 0 {
        0
    } else {
        u
    }
}

/// The validated, normalized lines of a request, in order: product id,
/// trimmed name, floored unit price, clamped quantity.
pub open spec fn spec_valid_items(l: Seq<BillItemInput>) -> Seq<(int, Seq<char>, int, int)>
    decreases l.len(),
{
    if l.len() == 0 {
        Seq::empty()
    } else {
        let rest = spec_valid_items(l.drop_first());
        if spec_valid_item(l[0]) {
            seq![
                (
                    l[0].product_id as int,
                    spec_trim(l[0].product_name@),
                    spec_norm_unit(l[0].unit_price_cents as int),
                    spec_clamp_qty(l[0].qty as int),
                ),
            ] + rest
        } else {
            rest
        }
    }
}

/// The sum of the line totals (quantity times unit price) of validated
/// lines.
pub open spec fn spec_subtotal(v: Seq<(int, Seq<char>, int, int)>) -> int
    decreases v.len(),
{
    if v.len() == 0 {
        0
    } else {
        spec_subtotal(v.drop_last()) + v.last().3 * v.last().2
    }
}

/// The discount for a subtotal at a rate in basis points: the product
/// over ten thousand, rounded half away from zero. A negative rate — a
/// surcharge — rounds symmetrically.
pub open spec fn spec_discount(subtotal: int, rate_bps: int) -> int {
    let x = subtotal * rate_bps;
    if x >= 0 {
        (x + 5000) / 10000
    } else {
        -((-x + 5000) / 10000)
    }
}

struct ValidItem {
    pid: i64,
    name: String,
    unit: i64,
    qty: i64,
}

spec fn v_items(v: Seq<ValidItem>) -> Seq<(int, Seq<char>, int, int)> {
    v.map_values(|it: ValidItem| (it.pid as int, it.name@, it.unit as int, it.qty as int))
}

proof fn lemma_valid_items_props(l: Seq<BillItemInput>, ubound: int)
    requires
        ubound >= 0,
        forall|i: int| 0 <= i < l.len() ==> (#[trigger] l[i]).unit_price_cents <= ubound,
    ensures
        spec_valid_items(l).len() <= l.len(),
        forall|k: int|
            0 <= k < spec_valid_items(l).len() ==> {
                let e = #[trigger] spec_valid_items(l)[k];
                0 <= e.2 <= ubound && 1 <= e.3 <= 1000 && e.0 > 0 && e.1.len() > 0
            },
    decreases l.len(),
{
    if l.len() > 0 {
        assert(forall|i: int| 0 <= i < l.drop_first().len() ==> l.drop_first()[i] == l[i + 1]);
        lemma_valid_items_props(l.drop_first(), ubound);
    }
}

impl StoreData {
    /// Validate the candidate items, advance the bill sequence, compute
    /// the rounded discount and append the bill with its line items, as
    /// one atomic step: a request with no valid item is rejected with the
    /// store unchanged and no sequence value consumed.
    #[verifier::loop_isolation(false)]
    pub fn create_bill(
        &mut self,
        items: &Vec<BillItemInput>,
        discount_rate_bps: i64,
        now_secs: u64,
    ) -> (r: Result<String, BillError>)
        requires
            old(self).wf(),
            old(self).bills@.len() < 0x0001_0000_0000_0000,
            old(self).bill_items@.len() < 0x0001_0000_0000_0000,
            items@.len() <= MAX_BILL_ITEMS,
            forall|i: int|
                0 <= i < items@.len() ==> (#[trigger] items@[i]).unit_price_cents
                    <= MAX_UNIT_PRICE_CENTS,
            -10000 <= discount_rate_bps <= 10000,
            now_secs <= MAX_EPOCH_SECS,
        ensures
            final(self).wf(),
            final(self).categories@ == old(self).categories@,
            final(self).products@ == old(self).products@,
            match r {
                Ok(bill_no) => {
                    let v = spec_valid_items(items@);
                    let sub = spec_subtotal(v);
                    let disc = spec_discount(sub, discount_rate_bps as int);
                    &&& v.len() > 0
                    &&& bill_no@ == spec_bill_no((old(self).bills@.len() + 1) as nat)
                    &&& final(self).bills@.len() == old(self).bills@.len() + 1
                    &&& final(self).bills@.drop_last() == old(self).bills@
                    &&& {
                        let b = final(self).bills@.last();
                        &&& b.bill_no@ == bill_no@
                        &&& b.subtotal_cents == sub
                        &&& b.discount_rate_bps == discount_rate_bps
                        &&& b.discount_cents == disc
                        &&& b.total_cents == sub - disc
                        &&& b.created_at@ == spec_datetime(now_secs as nat)
                    }
                    &&& final(self).bill_items@.len() == old(self).bill_items@.len() + v.len()
                    &&& final(self).bill_items@.take(old(self).bill_items@.len() as int) == old(
                        self,
                    ).bill_items@
                    &&& forall|k: int|
                        0 <= k < v.len() ==> {
                            let bi = #[trigger] final(self).bill_items@[old(
                                self,
                            ).bill_items@.len() + k];
                            &&& bi.bill_id == old(self).bills@.len() + 1
                            &&& bi.product_id == v[k].0
                            &&& bi.product_name@ == v[k].1
                            &&& bi.unit_price_cents == v[k].2
                            &&& bi.qty == v[k].3
                            &&& bi.line_total_cents == v[k].3 * v[k].2
                        }
                    &&& spec_setting(final(self).settings@, "bill_seq"@) == Some(
                        spec_dec((old(self).bills@.len() + 1) as nat),
                    )
                },
                Err(BillError::NoValidItems) => {
                    &&& *final(self) == *old(self)
                    &&& spec_valid_items(items@).len() == 0
                },
            },
    {
        let mut valid: Vec<ValidItem> = Vec::new();
        let mut i: usize = 0;
        proof {
            assert(items@.skip(0) =~= items@);
            assert(v_items(valid@) + spec_valid_items(items@) =~= spec_valid_items(items@));
        }
        while i < items.len()
            invariant
                i <= items@.len(),
                spec_valid_items(items@) == v_items(valid@) + spec_valid_items(
                    items@.skip(i as int),
                ),
                valid@.len() <= i,
            decreases items@.len() - i,
        {
            let ghost rem = items@.skip(i as int);
            proof {
                assert(rem[0] == items@[i as int]);
                assert(rem.drop_first() =~= items@.skip(i as int + 1));
            }
            let it = &items[i];
            let nm = chars_vec(it.product_name.as_str());
            let tn = trim_chars(&nm);
            if it.product_id > 0 && tn.len() > 0 {
                let u: i64 = if it.unit_price_cents < 0 {
                    0
                } else {
                    it.unit_price_cents
                };
                let q = clamp_qty(it.qty);
                let ghost prev = valid@;
                valid.push(ValidItem { pid: it.product_id, name: chars_to_string(&tn), unit: u, qty: q });
                proof {
                    assert(v_items(valid@) =~= v_items(prev).push(
                        (
                            it.product_id as int,
                            spec_trim(it.product_name@),
                            spec_norm_unit(it.unit_price_cents as int),
                            spec_clamp_qty(it.qty as int),
                        ),
                    ));
                    assert(v_items(valid@) + spec_valid_items(items@.skip(i as int + 1))
                        =~= v_items(prev) + spec_valid_items(rem));
                }
            }
            i = i + 1;
        }
        proof {
            assert(items@.skip(items@.len() as int) =~= Seq::<BillItemInput>::empty());
            assert(v_items(valid@) + spec_valid_items(items@.skip(items@.len() as int)) =~= v_items(
                valid@,
            ));
            assert(v_items(valid@) == spec_valid_items(items@));
        }
        if valid.len() == 0 {
            proof {
                assert(v_items(valid@).len() == 0);
            }
            return Err(BillError::NoValidItems);
        }
        proof {
            lemma_valid_items_props(items@, MAX_UNIT_PRICE_CENTS as int);
        }

        let mut subtotal: i64 = 0;
        let mut j: usize = 0;
        proof {
            assert(v_items(valid@).take(0) =~= Seq::<(int, Seq<char>, int, int)>::empty());
        }
        while j < valid.len()
            invariant
                j <= valid@.len(),
                subtotal as int == spec_subtotal(v_items(valid@).take(j as int)),
                0 <= subtotal,
                subtotal as int <= (j as int) * 1000 * (MAX_UNIT_PRICE_CENTS as int),
            decreases valid@.len() - j,
        {
            let ghost pre = v_items(valid@).take(j as int);
            proof {
                assert(v_items(valid@).take(j as int + 1).drop_last() =~= pre);
                assert(v_items(valid@).take(j as int + 1).last() == v_items(valid@)[j as int]);
                let e = v_items(valid@)[j as int];
                assert(0 <= e.3 * e.2 <= 1000 * MAX_UNIT_PRICE_CENTS) by (nonlinear_arith)
                    requires
                        0 <= e.2 <= MAX_UNIT_PRICE_CENTS && 1 <= e.3 <= 1000,
                ;
                assert((j as int) * 1000 * (MAX_UNIT_PRICE_CENTS as int) + 1000 * (
                MAX_UNIT_PRICE_CENTS as int) == (j as int + 1) * 1000 * (
                MAX_UNIT_PRICE_CENTS as int)) by (nonlinear_arith);
                assert((j as int + 1) * 1000 * (MAX_UNIT_PRICE_CENTS as int) <= (
                MAX_BILL_ITEMS as int) * 1000 * (MAX_UNIT_PRICE_CENTS as int)) by (nonlinear_arith)
                    requires
                        j as int + 1 <= MAX_BILL_ITEMS as int,
                ;
            }
            let lt = valid[j].qty * valid[j].unit;
            subtotal = subtotal + lt;
            j = j + 1;
        }
        proof {
            assert(v_items(valid@).take(valid@.len() as int) =~= v_items(valid@));
        }

        proof {
            assert(subtotal as int <= 4_500_000_000_000_000_000) by (nonlinear_arith)
                requires
                    0 <= subtotal as int,
                    subtotal as int <= (valid@.len() as int) * 1000 * (
                    MAX_UNIT_PRICE_CENTS as int),
                    valid@.len() <= 10000,
            ;
            assert(-45_000_000_000_000_000_000_000 <= (subtotal as int) * (
            discount_rate_bps as int) <= 45_000_000_000_000_000_000_000) by (nonlinear_arith)
                requires
                    0 <= subtotal as int <= 4_500_000_000_000_000_000,
                    -10000 <= discount_rate_bps as int <= 10000,
            ;
        }
        let prod: i128 = (subtotal as i128) * (discount_rate_bps as i128);
        let dc128: i128 = if prod >= 0 {
            (prod + 5000) / 10000
        } else {
            -((-prod + 5000) / 10000)
        };
        proof {
            assert(-(subtotal as int) <= spec_discount(subtotal as int, discount_rate_bps as int)
                <= subtotal as int) by (nonlinear_arith)
                requires
                    0 <= subtotal as int,
                    -10000 <= discount_rate_bps as int <= 10000,
            ;
            assert(dc128 as int == spec_discount(subtotal as int, discount_rate_bps as int));
        }
        let dc: i64 = dc128 as i64;
        let total = subtotal - dc;

        let seq_val: u64 = (self.bills.len() as u64) + 1;
        let ghost pre_settings = self.settings@;
        self.set_bill_seq(seq_val);

        let mut bno = chars_vec("MNE-");
        push_dec_padded(&mut bno, seq_val, 6);
        let bill_no = chars_to_string(&bno);
        proof {
            assert(bill_no@ =~= spec_bill_no(seq_val as nat));
        }

        let ts = datetime_string(now_secs);
        let bill_id = (self.bills.len() as i64) + 1;
        let ghost pre_bills = self.bills@;
        self.bills.push(
            Bill {
                id: bill_id,
                bill_no: bill_no.clone(),
                subtotal_cents: subtotal,
                discount_rate_bps,
                discount_cents: dc,
                total_cents: total,
                created_at: ts,
            },
        );

        let ghost pre_items = self.bill_items@;
        let ghost s0 = self.settings@;
        let ghost b0 = self.bills@;
        let ghost c0 = self.categories@;
        let ghost p0 = self.products@;
        let ghost nc0 = self.next_category_id;
        let ghost np0 = self.next_product_id;
        let mut k: usize = 0;
        while k < valid.len()
            invariant
                k <= valid@.len(),
                self.bill_items@.len() == pre_items.len() + k,
                self.bill_items@.take(pre_items.len() as int) == pre_items,
                self.settings@ == s0,
                self.bills@ == b0,
                self.categories@ == c0,
                self.products@ == p0,
                self.next_category_id == nc0,
                self.next_product_id == np0,
                forall|m: int|
                    0 <= m < k ==> {
                        let bi = #[trigger] self.bill_items@[pre_items.len() + m];
                        &&& bi.id == pre_items.len() + m + 1
                        &&& bi.bill_id == bill_id
                        &&& bi.product_id == v_items(valid@)[m].0
                        &&& bi.product_name@ == v_items(valid@)[m].1
                        &&& bi.unit_price_cents == v_items(valid@)[m].2
                        &&& bi.qty == v_items(valid@)[m].3
                        &&& bi.line_total_cents == v_items(valid@)[m].3 * v_items(valid@)[m].2
                    },
            decreases valid@.len() - k,
        {
            proof {
                let e = v_items(valid@)[k as int];
                assert(0 <= e.3 * e.2 <= 1000 * MAX_UNIT_PRICE_CENTS) by (nonlinear_arith)
                    requires
                        0 <= e.2 <= MAX_UNIT_PRICE_CENTS && 1 <= e.3 <= 1000,
                ;
            }
            let vi = &valid[k];
            let lt = vi.qty * vi.unit;
            let ghost prev = self.bill_items@;
            let item_id = (self.bill_items.len() as i64) + 1;
            self.bill_items.push(
                BillItem {
                    id: item_id,
                    bill_id,
                    product_id: vi.pid,
                    product_name: vi.name.clone(),
                    unit_price_cents: vi.unit,
                    qty: vi.qty,
                    line_total_cents: lt,
                },
            );
            proof {
                assert(self.bill_items@.take(pre_items.len() as int) =~= prev.take(
                    pre_items.len() as int,
                ));
                assert(forall|m: int| 0 <= m < prev.len() ==> self.bill_items@[m] == prev[m]);
            }
            k = k + 1;
        }
        proof {
            assert(self.bills@.drop_last() =~= pre_bills);
            assert(forall|m: int| 0 <= m < pre_bills.len() ==> self.bills@[m] == pre_bills[m]);
            assert(forall|m: int|
                0 <= m < pre_items.len() ==> #[trigger] self.bill_items@[m]
                    == self.bill_items@.take(pre_items.len() as int)[m]);
            assert(forall|m: int|
                0 <= m < v_items(valid@).len() ==> v_items(valid@)[m]
                    == #[trigger] spec_valid_items(items@)[m]);
            assert(pre_items == old(self).bill_items@);
            assert forall|i2: int|
                pre_items.len() <= i2 < self.bill_items@.len() implies {
                    let bi = #[trigger] self.bill_items@[i2];
                    &&& bi.id == i2 + 1
                    &&& bi.bill_id == self.bills@.len()
                    &&& bi.product_id == v_items(valid@)[i2 - pre_items.len()].0
                    &&& bi.product_name@ == v_items(valid@)[i2 - pre_items.len()].1
                    &&& bi.unit_price_cents == v_items(valid@)[i2 - pre_items.len()].2
                    &&& bi.qty == v_items(valid@)[i2 - pre_items.len()].3
                    &&& bi.line_total_cents == bi.qty * bi.unit_price_cents
                } by {
                let m = i2 - pre_items.len();
                assert(self.bill_items@[pre_items.len() + m].id == pre_items.len() + m + 1);
            }
            assert forall|k2: int| 0 <= k2 < spec_valid_items(items@).len() implies {
                let bi = #[trigger] self.bill_items@[old(self).bill_items@.len() + k2];
                &&& bi.bill_id == old(self).bills@.len() + 1
                &&& bi.product_id == spec_valid_items(items@)[k2].0
                &&& bi.product_name@ == spec_valid_items(items@)[k2].1
                &&& bi.unit_price_cents == spec_valid_items(items@)[k2].2
                &&& bi.qty == spec_valid_items(items@)[k2].3
                &&& bi.line_total_cents == spec_valid_items(items@)[k2].3 * spec_valid_items(
                    items@,
                )[k2].2
            } by {
                assert(self.bill_items@[pre_items.len() + k2].id == pre_items.len() + k2 + 1);
            }
        }
        Ok(bill_no)
    }
}

/// Bill numbering is gap-free and strictly increasing: a well-formed
/// store's bills carry exactly the numbers formatted from one up to the
/// bill count, in row order. Together with the bill transaction's
/// contract — one new bill with the next number on success, an unchanged
/// store on rejection — successive accepted requests receive consecutive
/// numbers and rejected requests consume none.
pub proof fn lemma_bill_numbers_gap_free(s: &StoreData)
    requires
        s.wf(),
    ensures
        forall|i: int|
            0 <= i < s.bills@.len() ==> (#[trigger] s.bills@[i]).bill_no@ == spec_bill_no(
                (i + 1) as nat,
            ),
        spec_setting(s.settings@, "bill_seq"@) == Some(spec_dec(s.bills@.len())),
{
}

} // verus!
