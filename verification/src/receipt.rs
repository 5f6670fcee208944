//! The receipt formatter: a pure transform from a bill summary to the
//! fixed-width text layout that the printer receives, 48 characters per
//! line, lines joined by the carriage-return + line-feed pair.

use vstd::prelude::*;

use crate::text::{
    cents_to_rs, dec_string_i64, fit_text, line_two_col, pad_left, pad_right, sep, spec_dec_i64,
    spec_fit, spec_money, spec_pad_left, spec_pad_right, spec_repeat, spec_trim, spec_two_col,
};

verus! {

/// The character width of every receipt line.
pub const RECEIPT_WIDTH: usize = 48;

/// The item-name column width of the items table.
pub const NAME_COL: usize = 20;

/// One line item of a receipt, with its denormalized name and prices in
/// integer cents.
pub struct ReceiptItem {
    pub name: String,
    pub qty: i64,
    pub unit_price_cents: i64,
    pub line_total_cents: i64,
}

/// The bill summary handed to the formatter.
pub struct ReceiptPayload {
    pub bill_no: String,
    pub printed_at: String,
    pub subtotal_cents: i64,
    pub discount_rate_bps: i64,
    pub discount_cents: i64,
    pub total_cents: i64,
    pub items: Vec<ReceiptItem>,
}

/// The column-header line of the items table.
pub open spec fn spec_header_line() -> Seq<char> {
    spec_pad_right("Item"@, 20) + " "@ + spec_pad_left("Qty"@, 4) + " "@ + spec_pad_left(
        "Rate"@,
        9,
    ) + " "@ + spec_pad_left("Amount"@, 12)
}

/// One rendered line item: name clipped to its 20-character column, then
/// quantity, unit price and line total right-aligned in their columns.
pub open spec fn spec_item_line(it: ReceiptItem) -> Seq<char> {
    spec_pad_right(spec_fit(it.name@, 20), 20) + " "@ + spec_pad_left(
        spec_dec_i64(it.qty as int),
        4,
    ) + " "@ + spec_pad_left(spec_money(it.unit_price_cents as int), 9) + " "@ + spec_pad_left(
        spec_money(it.line_total_cents as int),
        12,
    )
}

/// The rendered lines of a receipt, in order: rule, bill number and
/// timestamp, rule, column headers, rule, one line per item, rule,
/// Subtotal, Discount with the rate shown as a percentage, TOTAL, rule.
pub open spec fn spec_receipt_lines(p: ReceiptPayload) -> Seq<Seq<char>> {
    seq![
        spec_repeat('-', 48),
        spec_two_col("Bill: "@ + p.bill_no@, p.printed_at@, 48),
        spec_repeat('-', 48),
        spec_header_line(),
        spec_repeat('-', 48),
    ] + Seq::new(p.items@.len(), |i: int| spec_item_line(p.items@[i])) + seq![
        spec_repeat('-', 48),
        spec_two_col("Subtotal"@, "Rs "@ + spec_money(p.subtotal_cents as int), 48),
        spec_two_col(
            "Discount ("@ + spec_money(p.discount_rate_bps as int) + "%)"@,
            "-Rs "@ + spec_money(p.discount_cents as int),
            48,
        ),
        spec_two_col("TOTAL"@, "Rs "@ + spec_money(p.total_cents as int), 48),
        spec_repeat('-', 48),
    ]
}

/// Lines joined by the two-character CR LF pair, with no trailing pair.
pub open spec fn spec_join_crlf(lines: Seq<Seq<char>>) -> Seq<char>
    decreases lines.len(),
{
    if lines.len() == 0 {
        Seq::empty()
    } else if lines.len() == 1 {
        lines[0]
    } else {
        spec_join_crlf(lines.drop_last()) + seq!['\r', '\n'] + lines.last()
    }
}

/// The views of a vector of strings.
pub open spec fn views_of(lines: Seq<String>) -> Seq<Seq<char>> {
    lines.map_values(|s: String| s@)
}

/// The whole rendered receipt.
pub open spec fn spec_format_receipt(p: ReceiptPayload) -> Seq<char> {
    spec_join_crlf(spec_receipt_lines(p))
}

fn join_crlf(lines: &Vec<String>) -> (s: String)
    ensures
        s@ == spec_join_crlf(views_of(lines@)),
{
    let mut out = String::new();
    let mut i: usize = 0;
    while i < lines.len()
        invariant
            i <= lines@.len(),
            out@ == spec_join_crlf(views_of(lines@).take(i as int)),
        decreases lines@.len() - i,
    {
        if i > 0 {
            out.append("\r\n");
        }
        out.append(lines[i].as_str());
        proof {
            reveal_strlit("\r\n");
            let vs = views_of(lines@);
            assert(vs.take(i + 1).drop_last() =~= vs.take(i as int));
            assert(vs.take(i + 1).last() == lines@[i as int]@);
            if i > 0 {
                assert("\r\n"@ =~= seq!['\r', '\n']);
            } else {
                assert(out@ =~= vs.take(1)[0]);
            }
        }
        i = i + 1;
    }
    proof {
        assert(views_of(lines@).take(lines@.len() as int) =~= views_of(lines@));
    }
    out
}

/// Render a bill summary into the printer-ready fixed-width layout.
pub fn format_receipt(payload: &ReceiptPayload) -> (s: String)
    ensures
        s@ == spec_format_receipt(*payload),
{
    let w: usize = RECEIPT_WIDTH;
    let mut lines: Vec<String> = Vec::new();
    lines.push(sep(w));

    let mut bl = String::from_str("Bill: ");
    bl.append(payload.bill_no.as_str());
    lines.push(line_two_col(bl.as_str(), payload.printed_at.as_str(), w));

    lines.push(sep(w));

    let mut hdr = pad_right("Item", 20);
    hdr.append(" ");
    let qty_h = pad_left("Qty", 4);
    hdr.append(qty_h.as_str());
    hdr.append(" ");
    let rate_h = pad_left("Rate", 9);
    hdr.append(rate_h.as_str());
    hdr.append(" ");
    let amt_h = pad_left("Amount", 12);
    hdr.append(amt_h.as_str());
    lines.push(hdr);

    lines.push(sep(w));

    let ghost head = views_of(lines@);
    let mut i: usize = 0;
    while i < payload.items.len()
        invariant
            i <= payload.items@.len(),
            head == seq![
                spec_repeat('-', 48),
                spec_two_col("Bill: "@ + payload.bill_no@, payload.printed_at@, 48),
                spec_repeat('-', 48),
                spec_header_line(),
                spec_repeat('-', 48),
            ],
            views_of(lines@) == head + Seq::new(
                i as nat,
                |j: int| spec_item_line(payload.items@[j]),
            ),
        decreases payload.items@.len() - i,
    {
        let it = &payload.items[i];
        let n = fit_text(it.name.as_str(), NAME_COL);
        let mut line = pad_right(n.as_str(), 20);
        line.append(" ");
        let q = dec_string_i64(it.qty);
        let qp = pad_left(q.as_str(), 4);
        line.append(qp.as_str());
        line.append(" ");
        let u = cents_to_rs(it.unit_price_cents);
        let up = pad_left(u.as_str(), 9);
        line.append(up.as_str());
        line.append(" ");
        let lt = cents_to_rs(it.line_total_cents);
        let ltp = pad_left(lt.as_str(), 12);
        line.append(ltp.as_str());
        proof {
            assert(line@ =~= spec_item_line(payload.items@[i as int]));
        }
        let ghost prev = lines@;
        let ghost lv = line@;
        lines.push(line);
        proof {
            let target = head + Seq::new((i + 1) as nat, |j: int| spec_item_line(payload.items@[j]));
            assert(views_of(lines@).len() == lines@.len());
            assert(views_of(prev).len() == prev.len());
            assert(lines@.len() == prev.len() + 1);
            assert(target.len() == prev.len() + 1);
            assert forall|k: int| 0 <= k < views_of(lines@).len() implies views_of(lines@)[k]
                == target[k] by {
                assert(views_of(lines@)[k] == lines@[k]@);
                if k < prev.len() {
                    assert(lines@[k] == prev[k]);
                    assert(views_of(prev)[k] == prev[k]@);
                } else {
                    assert(k == prev.len());
                    assert(lines@[k]@ == lv);
                    assert(target[k] == spec_item_line(payload.items@[i as int]));
                }
            }
            assert(views_of(lines@) =~= target);
        }
        i = i + 1;
    }

    lines.push(sep(w));

    let sub = cents_to_rs(payload.subtotal_cents);
    let mut sub_r = String::from_str("Rs ");
    sub_r.append(sub.as_str());
    lines.push(line_two_col("Subtotal", sub_r.as_str(), w));

    let mut disc_l = String::from_str("Discount (");
    let pct = cents_to_rs(payload.discount_rate_bps);
    disc_l.append(pct.as_str());
    disc_l.append("%)");
    let mut disc_r = String::from_str("-Rs ");
    let dc = cents_to_rs(payload.discount_cents);
    disc_r.append(dc.as_str());
    lines.push(line_two_col(disc_l.as_str(), disc_r.as_str(), w));

    let tot = cents_to_rs(payload.total_cents);
    let mut tot_r = String::from_str("Rs ");
    tot_r.append(tot.as_str());
    lines.push(line_two_col("TOTAL", tot_r.as_str(), w));

    lines.push(sep(w));

    proof {
        assert(views_of(lines@) =~= spec_receipt_lines(*payload));
    }
    join_crlf(&lines)
}

/// A name whose trimmed form reaches the item-name column width is clipped
/// to exactly 20 characters in its rendered line: the line starts with
/// precisely the first 20 trimmed characters, never more.
pub proof fn lemma_long_name_clipped(it: ReceiptItem)
    requires
        spec_trim(it.name@).len() >= 20,
    ensures
        spec_fit(it.name@, 20).len() == 20,
        spec_fit(it.name@, 20) == spec_trim(it.name@).take(20),
        spec_item_line(it).take(20) == spec_trim(it.name@).take(20),
{
    assert(spec_item_line(it).take(20) =~= spec_trim(it.name@).take(20));
}

/// A two-column line whose right value alone reaches the line width drops
/// the label entirely: only the clipped right value is rendered.
pub proof fn lemma_wide_value_drops_label(left: Seq<char>, right: Seq<char>, w: nat)
    requires
        right.len() >= w,
    ensures
        spec_two_col(left, right, w) == spec_fit(right, w),
{
}

} // verus!
