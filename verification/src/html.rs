//! The HTML report: a self-contained page (inline style, light and dark
//! themes, no timestamps) with the combined-difficulty cells heat-coloured on
//! the shared 0–5 scale and breakdown rows ordered hardest first.

use vstd::prelude::*;
use crate::lessons::{strip_suffix, strip_suffix_spec};
use crate::numfmt::{hue, hue_of, one_decimal, percent, percent_of, push_one_decimal};
use crate::profile::{CollectionProfile, TopicStats};
use crate::rank::{rank_order, rank_order_of, RankKind};
use crate::report::{basename, basename_of, count_for, first_count, makeable, makeable_of, by_name, name_order_of, ReportError};
use crate::sorted_map::CountMap;
use crate::text::{chars_of, decimal, push_char, push_str, push_wide_decimal, string_of};

verus! {

broadcast use vstd::string::group_string_axioms;

/// The first line of the page.
pub const DOCTYPE: &'static str = "<!doctype html>\n";

/// The page after its first line and up to the collections: head, inline
/// style, title and legend.
pub const PREAMBLE: &'static str = r#"<html lang="en">
<head>
<meta charset="utf-8">
<meta name="viewport" content="width=device-width, initial-scale=1">
<title>deal-survey — collection difficulty report</title>
<style>
:root{--bg:#fbfbfa;--fg:#1a1a1a;--muted:#666;--line:#e3e3e0;--head:#f0f0ee;--zebra:#f6f6f4;}
@media (prefers-color-scheme:dark){:root{--bg:#16181c;--fg:#e6e6e6;--muted:#9aa0a6;--line:#2c2f36;--head:#20242b;--zebra:#1b1e24;}}
*{box-sizing:border-box}
body{margin:0;background:var(--bg);color:var(--fg);font:14px/1.5 -apple-system,BlinkMacSystemFont,"Segoe UI",Roboto,Helvetica,Arial,sans-serif;}
main{max-width:1100px;margin:0 auto;padding:24px 20px 64px;}
h1{font-size:24px;margin:0 0 4px;}
h2{font-size:19px;margin:34px 0 8px;padding-top:10px;border-top:1px solid var(--line);}
h3{font-size:15px;margin:20px 0 6px;color:var(--muted);text-transform:uppercase;letter-spacing:.04em;}
.sub{color:var(--muted);font-weight:400;font-size:.8em;}
.note,.stats,.dist,.editorial{color:var(--muted);font-size:13px;margin:6px 0;}
.dist strong{color:var(--fg);} .editorial strong{color:var(--fg);}
.wrap{overflow-x:auto;}
table.grid{border-collapse:collapse;width:100%;margin:8px 0 4px;font-variant-numeric:tabular-nums;}
table.grid th,table.grid td{padding:5px 9px;border-bottom:1px solid var(--line);text-align:right;white-space:nowrap;}
table.grid th{position:sticky;top:0;background:var(--head);text-align:right;font-weight:600;font-size:12px;}
table.grid td.name,table.grid th:first-child{text-align:left;}
table.grid td.name{font-weight:500;}
table.grid td.topic{text-align:left;color:var(--muted);font-size:12px;}
table.grid tbody tr:nth-child(even){background:var(--zebra);}
td.num{text-align:right;}
td.heat{font-weight:600;border-radius:3px;}
table.grid tr.cat td{background:var(--head);font-weight:700;border-top:2px solid var(--line);}
table.grid td.catname{text-align:left;letter-spacing:.02em;}
table.grid td.name.indent{padding-left:22px;font-weight:400;}
</style>
</head>
<body>
<main>
<h1>Lesson-collection difficulty report</h1>
<p class="note">Cardplay ladder 0 cash-out · 1 establish · 2 single technique · 3 timing/entries · 4 advanced (squeeze/endplay). Bidding 0 natural · 1 fundamental · 2 gadget · 3 upper-intermediate · 4 advanced · 5 expert. <em>comb</em> columns = topic baseline nudged by observed difficulty.</p>
"#;

// ---------------------------------------------------------------------------
// Escaping and labels
// ---------------------------------------------------------------------------

/// A character as HTML text.
pub open spec fn esc_char(c: char) -> Seq<char> {
    if c == '&' {
        "&amp;"@
    } else if c == '<' {
        "&lt;"@
    } else if c == '>' {
        "&gt;"@
    } else if c == '"' {
        "&quot;"@
    } else {
        seq![c]
    }
}

/// Text as HTML: `&`, `<`, `>` and `"` escaped.
pub open spec fn esc(s: Seq<char>) -> Seq<char>
    decreases s.len(),
{
    if s.len() == 0 { seq![] } else { esc(s.drop_last()) + esc_char(s.last()) }
}

/// Appends `esc(s)`.
#[verifier::rlimit(40)]
pub fn push_esc(out: &mut String, s: &str)
    ensures
        final(out)@ == old(out)@ + esc(s@),
{
    let cs = chars_of(s);
    let mut i: usize = 0;
    assert(cs@.take(0) =~= Seq::<char>::empty());
    assert(old(out)@ + esc(Seq::<char>::empty()) =~= old(out)@);
    while i < cs.len()
        invariant
            i <= cs.len(),
            cs@ == s@,
            out@ == old(out)@ + esc(cs@.take(i as int)),
        decreases cs.len() - i,
    {
        let c = cs[i];
        if c == '&' {
            push_str(out, "&amp;");
        } else if c == '<' {
            push_str(out, "&lt;");
        } else if c == '>' {
            push_str(out, "&gt;");
        } else if c == '"' {
            push_str(out, "&quot;");
        } else {
            push_char(out, c);
        }
        assert(cs@.take(i + 1).drop_last() =~= cs@.take(i as int));
        i = i + 1;
        assert(out@ =~= old(out)@ + esc(cs@.take(i as int)));
    }
    assert(cs@.take(cs.len() as int) =~= cs@);
}

/// A lesson's label in the page: the last part of its key, without `.pbn`.
pub open spec fn page_label(key: Seq<char>) -> Seq<char> {
    strip_suffix_spec(basename(key), ".pbn"@)
}

fn page_label_text(key: &String) -> (r: String)
    ensures
        r@ == page_label(key@),
{
    let k = chars_of(key.as_str());
    let l = strip_suffix(basename_of(&k), ".pbn");
    string_of(&l)
}

// ---------------------------------------------------------------------------
// Cells
// ---------------------------------------------------------------------------

/// A numeric cell.
pub open spec fn td_num(s: Seq<char>) -> Seq<char> {
    "<td class=\"num\">"@ + s + "</td>"@
}

/// A count cell.
pub open spec fn cell_int(n: nat) -> Seq<char> {
    td_num(decimal(n))
}

/// A percentage as the page shows it: whole percent, or a dash without a
/// denominator.
pub open spec fn pct_str(n: nat, d: nat) -> Seq<char> {
    if d == 0 { seq!['–'] } else { decimal(percent_of(n, d)) + seq!['%'] }
}

/// A percentage cell.
pub open spec fn cell_pct(n: nat, d: nat) -> Seq<char> {
    td_num(pct_str(n, d))
}

/// The inline style of a heat cell for the difficulty `a/b`: green (easy)
/// to red (hard).
pub open spec fn heat(a: nat, b: nat) -> Seq<char> {
    "background:hsl("@ + decimal(hue(a, b)) + " 62% 42%);color:#fff"@
}

/// An authored-baseline cell, heat-coloured.
pub open spec fn cell_base(v: u8) -> Seq<char> {
    "<td class=\"num heat\" style=\""@ + heat(v as nat, 1) + "\">"@ + decimal(v as nat) + "</td>"@
}

/// A combined-difficulty cell: the mean, heat-coloured, or a dash when
/// nothing was counted.
pub open spec fn cell_comb(sum: nat, n: nat) -> Seq<char> {
    if n == 0 {
        "<td class=\"num\">–</td>"@
    } else {
        "<td class=\"num heat\" style=\""@ + heat(sum, n) + "\">"@ + one_decimal(sum, n) + "</td>"@
    }
}

#[verifier::rlimit(40)]
fn push_cell_int(out: &mut String, n: u128)
    ensures
        final(out)@ == old(out)@ + cell_int(n as nat),
{
    push_str(out, "<td class=\"num\">");
    push_wide_decimal(out, n);
    push_str(out, "</td>");
    assert(out@ =~= old(out)@ + cell_int(n as nat));
}

#[verifier::rlimit(40)]
fn push_pct_str(out: &mut String, n: u128, d: u128)
    requires
        n < 0x1_0000_0000_0000_0000_0000,
        d < 0x1_0000_0000_0000_0000_0000,
    ensures
        final(out)@ == old(out)@ + pct_str(n as nat, d as nat),
{
    if d == 0 {
        push_char(out, '–');
    } else {
        push_wide_decimal(out, percent(n, d));
        push_char(out, '%');
    }
    assert(out@ =~= old(out)@ + pct_str(n as nat, d as nat));
}

#[verifier::rlimit(40)]
fn push_cell_pct(out: &mut String, n: u128, d: u128)
    requires
        n < 0x1_0000_0000_0000_0000_0000,
        d < 0x1_0000_0000_0000_0000_0000,
    ensures
        final(out)@ == old(out)@ + cell_pct(n as nat, d as nat),
{
    push_str(out, "<td class=\"num\">");
    push_pct_str(out, n, d);
    push_str(out, "</td>");
    assert(out@ =~= old(out)@ + cell_pct(n as nat, d as nat));
}

#[verifier::rlimit(40)]
fn push_heat(out: &mut String, a: u128, b: u128)
    requires
        0 < b < 0x1_0000_0000_0000_0000_0000,
        a < 0x1_0000_0000_0000_0000_0000,
    ensures
        final(out)@ == old(out)@ + heat(a as nat, b as nat),
{
    push_str(out, "background:hsl(");
    push_wide_decimal(out, hue_of(a, b));
    push_str(out, " 62% 42%);color:#fff");
    assert(out@ =~= old(out)@ + heat(a as nat, b as nat));
}

#[verifier::rlimit(40)]
fn push_cell_base(out: &mut String, v: u8)
    ensures
        final(out)@ == old(out)@ + cell_base(v),
{
    push_str(out, "<td class=\"num heat\" style=\"");
    push_heat(out, v as u128, 1);
    push_str(out, "\">");
    push_wide_decimal(out, v as u128);
    push_str(out, "</td>");
    assert(out@ =~= old(out)@ + cell_base(v));
}

#[verifier::rlimit(40)]
fn push_cell_comb(out: &mut String, sum: u128, n: u128)
    requires
        sum < 0x1_0000_0000_0000_0000_0000,
        n < 0x1_0000_0000_0000_0000_0000,
    ensures
        final(out)@ == old(out)@ + cell_comb(sum as nat, n as nat),
{
    if n == 0 {
        push_str(out, "<td class=\"num\">–</td>");
    } else {
        push_str(out, "<td class=\"num heat\" style=\"");
        push_heat(out, sum, n);
        push_str(out, "\">");
        push_one_decimal(out, sum, n);
        push_str(out, "</td>");
    }
    assert(out@ =~= old(out)@ + cell_comb(sum as nat, n as nat));
}

// ---------------------------------------------------------------------------
// The summary table
// ---------------------------------------------------------------------------

/// The combined cardplay sum and count over the lessons.
pub open spec fn cardplay_total(e: Seq<(String, TopicStats)>) -> (nat, nat)
    decreases e.len(),
{
    if e.len() == 0 {
        (0, 0)
    } else {
        let t = cardplay_total(e.drop_last());
        (t.0 + e.last().1.combined_cardplay_sum as nat, t.1 + e.last().1.combined_cardplay_n as nat)
    }
}

/// The combined bidding sum and count over the lessons.
pub open spec fn bidding_total(e: Seq<(String, TopicStats)>) -> (nat, nat)
    decreases e.len(),
{
    if e.len() == 0 {
        (0, 0)
    } else {
        let t = bidding_total(e.drop_last());
        (t.0 + e.last().1.combined_bidding_sum as nat, t.1 + e.last().1.combined_bidding_n as nat)
    }
}

/// Whether the overall combined sums and counts of a collection fit the
/// machine word they are added up in.
pub open spec fn totals_fit(p: CollectionProfile) -> bool {
    &&& cardplay_total(p.by_lesson.entries@).0 <= usize::MAX
    &&& cardplay_total(p.by_lesson.entries@).1 <= usize::MAX
    &&& bidding_total(p.by_lesson.entries@).0 <= usize::MAX
    &&& bidding_total(p.by_lesson.entries@).1 <= usize::MAX
}

/// Checks `totals_fit(p)`.
pub fn totals_fit_check(p: &CollectionProfile) -> (ok: bool)
    ensures
        ok == totals_fit(*p),
{
    let (cs, cn, bs, bn) = lesson_totals(&p.by_lesson.entries);
    cs <= usize::MAX as u128 && cn <= usize::MAX as u128 && bs <= usize::MAX as u128 && bn <= usize::MAX as u128
}

#[verifier::rlimit(40)]
fn lesson_totals(e: &Vec<(String, TopicStats)>) -> (r: (u128, u128, u128, u128))
    ensures
        r.0 == cardplay_total(e@).0,
        r.1 == cardplay_total(e@).1,
        r.2 == bidding_total(e@).0,
        r.3 == bidding_total(e@).1,
{
    let mut cs: u128 = 0;
    let mut cn: u128 = 0;
    let mut bs: u128 = 0;
    let mut bn: u128 = 0;
    let mut i: usize = 0;
    assert(e@.take(0) =~= Seq::<(String, TopicStats)>::empty());
    while i < e.len()
        invariant
            i <= e.len(),
            cs == cardplay_total(e@.take(i as int)).0,
            cn == cardplay_total(e@.take(i as int)).1,
            bs == bidding_total(e@.take(i as int)).0,
            bn == bidding_total(e@.take(i as int)).1,
            cs <= i * 0xffff_ffff_ffff_ffff,
            cn <= i * 0xffff_ffff_ffff_ffff,
            bs <= i * 0xffff_ffff_ffff_ffff,
            bn <= i * 0xffff_ffff_ffff_ffff,
        decreases e.len() - i,
    {
        proof {
            assert(e@.take(i + 1).drop_last() =~= e@.take(i as int));
            assert(i * 0xffff_ffff_ffff_ffff + 0xffff_ffff_ffff_ffff <= 0x1_0000_0000_0000_0000 * 0xffff_ffff_ffff_ffff) by (nonlinear_arith)
                requires
                    i < 0x1_0000_0000_0000_0000,
            ;
        }
        cs = cs + e[i].1.combined_cardplay_sum as u128;
        cn = cn + e[i].1.combined_cardplay_n as u128;
        bs = bs + e[i].1.combined_bidding_sum as u128;
        bn = bn + e[i].1.combined_bidding_n as u128;
        proof {
            assert((i + 1) * 0xffff_ffff_ffff_ffff == i * 0xffff_ffff_ffff_ffff + 0xffff_ffff_ffff_ffff) by (nonlinear_arith);
        }
        i = i + 1;
    }
    assert(e@.take(e.len() as int) =~= e@);
    (cs, cn, bs, bn)
}

/// A collection's row, first part: name, deals and the overall combined
/// cardplay and bidding difficulty (means over all its lessons).
pub open spec fn summary_head(p: CollectionProfile) -> Seq<char> {
    let cp = cardplay_total(p.by_lesson.entries@);
    let bid = bidding_total(p.by_lesson.entries@);
    "<tr><td class=\"name\">"@ + esc(p.collection@) + "</td>"@ + cell_int(p.deal_count as nat)
        + cell_comb(cp.0, cp.1) + cell_comb(bid.0, bid.1)
}

/// A collection's row, second part: the makeable share and the ladder levels
/// as shares of the makeable deals.
pub open spec fn summary_ladder(p: CollectionProfile) -> Seq<char> {
    let mk = makeable(p);
    let d = p.difficulty;
    cell_pct(mk, p.deal_count as nat) + cell_pct(d.cash_out_0 as nat, mk) + cell_pct(d.establish_1 as nat, mk)
        + cell_pct(d.technique_2 as nat, mk) + cell_pct(d.unclassified as nat, mk)
}

/// A collection's row, last part: structural coverage, the finesse and ruff
/// probe counts, and the row's end.
pub open spec fn summary_tail(p: CollectionProfile) -> Seq<char> {
    let n = p.deal_count as nat;
    let s = p.structural;
    cell_pct(s.with_auction as nat, n) + cell_pct(s.with_commentary as nat, n) + cell_pct(s.with_explicit_contract as nat, n)
        + cell_int(first_count(p.techniques.entries@, "finesse"@)) + cell_int(first_count(p.techniques.entries@, "ruff"@))
        + "</tr>\n"@
}

/// A collection's row of the summary table.
#[verifier::opaque]
pub open spec fn summary_row(p: CollectionProfile) -> Seq<char> {
    summary_head(p) + summary_ladder(p) + summary_tail(p)
}

/// The rows of the summary table, collections in the given order.
pub open spec fn summary_rows(ps: Seq<CollectionProfile>) -> Seq<char>
    decreases ps.len(),
{
    if ps.len() == 0 { seq![] } else { summary_rows(ps.drop_last()) + summary_row(ps.last()) }
}

/// The summary table over all collections.
pub open spec fn summary_table(ps: Seq<CollectionProfile>) -> Seq<char> {
    HEAD_SUMMARY@ + summary_rows(ps) + "</tbody>\n</table>\n"@
}

#[verifier::rlimit(40)]
fn push_summary_head(out: &mut String, p: &CollectionProfile)
    requires
        totals_fit(*p),
    ensures
        final(out)@ == old(out)@ + summary_head(*p),
{
    let (cs, cn, bs, bn) = lesson_totals(&p.by_lesson.entries);
    push_str(out, "<tr><td class=\"name\">");
    push_esc(out, p.collection.as_str());
    push_str(out, "</td>");
    push_cell_int(out, p.deal_count as u128);
    push_cell_comb(out, cs, cn);
    push_cell_comb(out, bs, bn);
    assert(out@ =~= old(out)@ + summary_head(*p));
}

#[verifier::rlimit(40)]
fn push_summary_ladder(out: &mut String, p: &CollectionProfile)
    ensures
        final(out)@ == old(out)@ + summary_ladder(*p),
{
    let mk = makeable_of(p);
    let d = &p.difficulty;
    push_cell_pct(out, mk, p.deal_count as u128);
    push_cell_pct(out, d.cash_out_0 as u128, mk);
    push_cell_pct(out, d.establish_1 as u128, mk);
    push_cell_pct(out, d.technique_2 as u128, mk);
    push_cell_pct(out, d.unclassified as u128, mk);
    assert(out@ =~= old(out)@ + summary_ladder(*p));
}

#[verifier::rlimit(40)]
fn push_summary_tail(out: &mut String, p: &CollectionProfile)
    ensures
        final(out)@ == old(out)@ + summary_tail(*p),
{
    let n = p.deal_count as u128;
    let s = &p.structural;
    push_cell_pct(out, s.with_auction as u128, n);
    push_cell_pct(out, s.with_commentary as u128, n);
    push_cell_pct(out, s.with_explicit_contract as u128, n);
    let fin = count_for(&p.techniques.entries, "finesse");
    let ruff = count_for(&p.techniques.entries, "ruff");
    push_cell_int(out, fin as u128);
    push_cell_int(out, ruff as u128);
    push_str(out, "</tr>\n");
    assert(out@ =~= old(out)@ + summary_tail(*p));
}

/// The collections in order `ord`.
pub open spec fn arranged(ps: Seq<CollectionProfile>, ord: Seq<usize>) -> Seq<CollectionProfile> {
    Seq::new(ord.len(), |i: int| ps[ord[i] as int])
}

/// `ord` picks collections that exist.
pub open spec fn picks(ps: Seq<CollectionProfile>, ord: Seq<usize>) -> bool {
    forall|i: int| 0 <= i < ord.len() ==> (#[trigger] ord[i] as int) < ps.len()
}

#[verifier::rlimit(40)]
fn push_summary_row(out: &mut String, p: &CollectionProfile)
    requires
        totals_fit(*p),
    ensures
        final(out)@ == old(out)@ + summary_row(*p),
{
    push_summary_head(out, p);
    push_summary_ladder(out, p);
    push_summary_tail(out, p);
    proof {
        reveal(summary_row);
    }
    assert(out@ =~= old(out)@ + summary_row(*p));
}

#[verifier::rlimit(40)]
fn push_summary_table(out: &mut String, ps: &Vec<CollectionProfile>, ord: &Vec<usize>)
    requires
        picks(ps@, ord@),
        forall|i: int| 0 <= i < ps@.len() ==> totals_fit(#[trigger] ps@[i]),
    ensures
        final(out)@ == old(out)@ + summary_table(arranged(ps@, ord@)),
{
    let ghost a = arranged(ps@, ord@);
    push_str(out, HEAD_SUMMARY);
    let ghost start = out@;
    let mut i: usize = 0;
    assert(a.take(0) =~= Seq::<CollectionProfile>::empty());
    while i < ord.len()
        invariant
            i <= ord.len(),
            a == arranged(ps@, ord@),
            picks(ps@, ord@),
            out@ == start + summary_rows(a.take(i as int)),
            forall|j: int| 0 <= j < ps@.len() ==> totals_fit(#[trigger] ps@[j]),
        decreases ord.len() - i,
    {
        let k = ord[i];
        assert((ord@[i as int] as int) < ps@.len());
        assert(totals_fit(ps@[k as int]));
        push_summary_row(out, &ps[k]);
        proof {
            let t = a.take(i + 1);
            assert(t.drop_last() =~= a.take(i as int));
            assert(t.last() == ps@[k as int]);
        }
        i = i + 1;
    }
    assert(a.take(ord.len() as int) =~= a);
    push_str(out, "</tbody>\n</table>\n");
    assert(out@ =~= old(out)@ + summary_table(a));
}

// ---------------------------------------------------------------------------
// A collection's section
// ---------------------------------------------------------------------------

/// The section's heading.
pub open spec fn section_head(p: CollectionProfile) -> Seq<char> {
    "<h2>"@ + esc(p.collection@) + " <span class=\"sub\">("@ + decimal(p.deal_count as nat) + " deals)</span></h2>\n"@
}

/// The auction sentence of the stats paragraph, over deals with an auction.
pub open spec fn auction_sentence(p: CollectionProfile) -> Seq<char> {
    let a = p.auction;
    let n = a.with_auction as nat;
    if n > 0 {
        "auction: "@ + one_decimal(a.total_bids as nat, n) + " bids avg, "@ + pct_str(a.contested as nat, n)
            + " contested, "@ + decimal(a.total_doubles as nat) + " doubles ("@ + decimal(a.double_of_final as nat)
            + " final-dbl), "@ + decimal(a.with_high_bids as nat) + " high-bid deals."@
    } else {
        seq![]
    }
}

/// The stats paragraph: deals kept off the ladder, then the auction proxies.
pub open spec fn stats_par(p: CollectionProfile) -> Seq<char> {
    let d = p.difficulty;
    "<p class=\"stats\">excluded from ladder: not-makeable "@ + decimal(d.not_makeable as nat) + ", no-contract "@
        + decimal(d.no_contract as nat) + ", incomplete "@ + decimal(d.incomplete as nat) + ". "@
        + auction_sentence(p) + "</p>\n"@
}

/// `key:count` pairs, keys escaped, two spaces apart.
pub open spec fn esc_pairs(e: Seq<(String, usize)>) -> Seq<char>
    decreases e.len(),
{
    if e.len() == 0 {
        seq![]
    } else if e.len() == 1 {
        esc(e[0].0@) + seq![':'] + decimal(e[0].1 as nat)
    } else {
        esc_pairs(e.drop_last()) + seq![' ', ' '] + esc(e.last().0@) + seq![':'] + decimal(e.last().1 as nat)
    }
}

/// A distribution paragraph; nothing for an empty map.
pub open spec fn dist_par(label: Seq<char>, e: Seq<(String, usize)>) -> Seq<char> {
    if e.len() == 0 {
        seq![]
    } else {
        "<p class=\"dist\"><strong>"@ + esc(label) + "</strong> "@ + esc_pairs(e) + "</p>\n"@
    }
}

/// One editorial item, when the field is set.
pub open spec fn editorial_item(key: Seq<char>, v: Option<String>) -> Seq<char> {
    match v {
        Some(s) => "<strong>"@ + esc(key) + ":</strong> "@ + esc(s@) + " "@,
        None => seq![],
    }
}

/// The editorial paragraph, when there is editorial metadata.
pub open spec fn editorial_par(p: CollectionProfile) -> Seq<char> {
    match p.editorial {
        Some(ed) => "<p class=\"editorial\">"@ + editorial_item("Licensing"@, ed.licensing)
            + editorial_item("Audience"@, ed.intended_audience) + editorial_item("Commentary"@, ed.commentary_quality)
            + editorial_item("Notes"@, ed.notes) + "</p>\n"@,
        None => seq![],
    }
}

/// The deal count and authored-baseline cells of a breakdown row.
pub open spec fn stat_base(t: TopicStats) -> Seq<char> {
    cell_int(t.deal_count as nat) + cell_base(t.baseline_bidding) + cell_base(t.baseline_cardplay)
}

/// The observed-ladder cells of a breakdown row.
pub open spec fn stat_observed(t: TopicStats) -> Seq<char> {
    cell_int(t.observed_cardplay@[0] as nat) + cell_int(t.observed_cardplay@[1] as nat)
        + cell_int(t.observed_cardplay@[2] as nat) + cell_int(t.not_makeable as nat)
}

/// The combined-difficulty cells of a breakdown row.
pub open spec fn stat_means(t: TopicStats) -> Seq<char> {
    cell_comb(t.combined_cardplay_sum as nat, t.combined_cardplay_n as nat)
        + cell_comb(t.combined_bidding_sum as nat, t.combined_bidding_n as nat)
}

/// The statistic cells of a breakdown row.
pub open spec fn stat_cells(t: TopicStats) -> Seq<char> {
    stat_base(t) + stat_observed(t) + stat_means(t)
}

/// A topic's row.
pub open spec fn topic_row(key: Seq<char>, t: TopicStats) -> Seq<char> {
    "<tr><td class=\"name\">"@ + esc(key) + "</td>"@ + stat_cells(t) + "</tr>\n"@
}

/// The topic rows in order `ord`.
pub open spec fn topic_rows(e: Seq<(String, TopicStats)>, ord: Seq<usize>) -> Seq<char>
    decreases ord.len(),
{
    if ord.len() == 0 {
        seq![]
    } else {
        topic_rows(e, ord.drop_last()) + topic_row(e[ord.last() as int].0@, e[ord.last() as int].1)
    }
}

/// The by-topic table, hardest first.
#[verifier::opaque]
pub open spec fn topic_table(e: Seq<(String, TopicStats)>) -> Seq<char> {
    HEAD_TOPIC@ + topic_rows(e, rank_order(e, RankKind::Topic, None)) + "</tbody>\n</table>\n"@
}

/// A lesson's row.
pub open spec fn lesson_row(key: Seq<char>, t: TopicStats) -> Seq<char> {
    "<tr><td class=\"name indent\">"@ + esc(page_label(key)) + "</td>"@ + stat_cells(t) + "<td class=\"topic\">"@
        + esc(t.topic@) + "</td>"@ + "</tr>\n"@
}

/// The lesson rows in order `ord`.
pub open spec fn lesson_rows(e: Seq<(String, TopicStats)>, ord: Seq<usize>) -> Seq<char>
    decreases ord.len(),
{
    if ord.len() == 0 {
        seq![]
    } else {
        lesson_rows(e, ord.drop_last()) + lesson_row(e[ord.last() as int].0@, e[ord.last() as int].1)
    }
}

/// A category's rollup row.
pub open spec fn category_row(cat: Seq<char>, roll: TopicStats) -> Seq<char> {
    "<tr class=\"cat\"><td class=\"catname\" colspan=\"8\">"@ + esc(cat) + " <span class=\"sub\">("@
        + decimal(roll.deal_count as nat) + " deals)</span></td>"@
        + cell_comb(roll.combined_cardplay_sum as nat, roll.combined_cardplay_n as nat)
        + cell_comb(roll.combined_bidding_sum as nat, roll.combined_bidding_n as nat) + "<td></td></tr>\n"@
}

/// A category's rollup row and then its lessons, hardest first.
pub open spec fn category_block(cat: Seq<char>, roll: TopicStats, lessons: Seq<(String, TopicStats)>) -> Seq<char> {
    category_row(cat, roll) + lesson_rows(lessons, rank_order(lessons, RankKind::Lesson, Some(cat)))
}

/// The category blocks in order `ord`.
pub open spec fn category_blocks(cats: Seq<(String, TopicStats)>, lessons: Seq<(String, TopicStats)>, ord: Seq<usize>) -> Seq<char>
    decreases ord.len(),
{
    if ord.len() == 0 {
        seq![]
    } else {
        category_blocks(cats, lessons, ord.drop_last())
            + category_block(cats[ord.last() as int].0@, cats[ord.last() as int].1, lessons)
    }
}

/// The by-lesson table grouped by category, categories and lessons hardest
/// first; nothing when there are no lessons.
#[verifier::opaque]
pub open spec fn lesson_table(p: CollectionProfile) -> Seq<char> {
    let cats = p.by_category.entries@;
    if p.by_lesson.entries@.len() == 0 {
        seq![]
    } else {
        HEAD_LESSON@ + category_blocks(cats, p.by_lesson.entries@, rank_order(cats, RankKind::Category, None))
            + "</tbody>\n</table>\n"@
    }
}

/// The section's summary: heading, stats, contract mix and editorial.
pub open spec fn section_summary(p: CollectionProfile) -> Seq<char> {
    section_head(p) + stats_par(p) + dist_par("Strain"@, p.contract_mix.by_strain.entries@)
        + dist_par("Level"@, p.contract_mix.by_level.entries@)
        + dist_par("Declarer"@, p.contract_mix.by_declarer.entries@) + editorial_par(p)
}

/// The section's breakdowns: by topic when there is one, then by lesson.
pub open spec fn section_tables(p: CollectionProfile) -> Seq<char> {
    (match p.by_topic {
        Some(t) => "<h3>By topic</h3>\n"@ + topic_table(t.entries@),
        None => seq![],
    }) + "<h3>By lesson <span class=\"sub\">(grouped by category, hardest first)</span></h3>\n"@ + lesson_table(p)
}

/// A collection's section.
#[verifier::opaque]
pub open spec fn section(p: CollectionProfile) -> Seq<char> {
    section_summary(p) + section_tables(p)
}

/// The sections of the collections in the given order.
pub open spec fn sections(ps: Seq<CollectionProfile>) -> Seq<char>
    decreases ps.len(),
{
    if ps.len() == 0 { seq![] } else { sections(ps.drop_last()) + section(ps.last()) }
}

/// The whole page over the collections in the given order.
pub open spec fn page(ps: Seq<CollectionProfile>) -> Seq<char> {
    DOCTYPE@ + PREAMBLE@ + summary_table(ps) + sections(ps) + "</main>\n</body>\n</html>\n"@
}

/// The frame of the page: it opens with the doctype line, closes the
/// document at its end, and between the summary table and the close holds
/// one section per collection, in input order, each opening with an `<h2>`
/// heading that names the collection.
pub proof fn lemma_page_frame(ps: Seq<CollectionProfile>)
    ensures
        page(ps).take(16) == "<!doctype html>\n"@,
        crate::text::is_suffix("</main>\n</body>\n</html>\n"@, page(ps)),
        page(ps) == DOCTYPE@ + PREAMBLE@ + summary_table(ps) + sections(ps) + "</main>\n</body>\n</html>\n"@,
        sections(ps) == sections_listed(ps),
        forall|i: int| 0 <= i < ps.len() ==> crate::text::is_prefix(
            "<h2>"@ + esc(#[trigger] ps[i].collection@) + " <span class=\"sub\">("@,
            section(ps[i]),
        ),
{
    reveal_strlit("<!doctype html>\n");
    let tail = PREAMBLE@ + summary_table(ps) + sections(ps) + "</main>\n</body>\n</html>\n"@;
    assert(page(ps) == DOCTYPE@ + tail);
    assert(page(ps).take(16) =~= DOCTYPE@);
    let close = "</main>\n</body>\n</html>\n"@;
    let body = DOCTYPE@ + PREAMBLE@ + summary_table(ps) + sections(ps);
    assert(page(ps) == body + close);
    assert(page(ps).skip(page(ps).len() - close.len()) =~= close);
    lemma_sections_listed(ps);
    assert forall|i: int| 0 <= i < ps.len() implies crate::text::is_prefix(
        "<h2>"@ + esc(#[trigger] ps[i].collection@) + " <span class=\"sub\">("@,
        section(ps[i]),
    ) by {
        lemma_section_heading(ps[i]);
    }
}

proof fn lemma_section_heading(p: CollectionProfile)
    ensures
        crate::text::is_prefix("<h2>"@ + esc(p.collection@) + " <span class=\"sub\">("@, section(p)),
{
    reveal(section);
    let h = "<h2>"@ + esc(p.collection@) + " <span class=\"sub\">("@;
    let head = section_head(p);
    assert(head =~= h + (decimal(p.deal_count as nat) + " deals)</span></h2>\n"@));
    let rest = stats_par(p) + dist_par("Strain"@, p.contract_mix.by_strain.entries@)
        + dist_par("Level"@, p.contract_mix.by_level.entries@)
        + dist_par("Declarer"@, p.contract_mix.by_declarer.entries@) + editorial_par(p);
    assert(section_summary(p) =~= head + rest);
    assert(section(p) =~= head + (rest + section_tables(p)));
    assert(section(p).take(h.len() as int) =~= h);
}

/// The sections of the collections, one after another in input order.
pub open spec fn sections_listed(ps: Seq<CollectionProfile>) -> Seq<char>
    decreases ps.len(),
{
    if ps.len() == 0 { seq![] } else { section(ps[0]) + sections_listed(ps.drop_first()) }
}

proof fn lemma_sections_listed(ps: Seq<CollectionProfile>)
    ensures
        sections(ps) == sections_listed(ps),
    decreases ps.len(),
{
    if ps.len() > 0 {
        lemma_sections_listed(ps.drop_last());
        lemma_sections_listed(ps.drop_first());
        if ps.len() > 1 {
            lemma_sections_listed(ps.drop_first().drop_last());
            assert(ps.drop_last().drop_first() =~= ps.drop_first().drop_last());
            assert(ps.drop_first().last() == ps.last());
            assert(ps.drop_last()[0] == ps[0]);
        } else {
            assert(ps.drop_last().len() == 0);
            assert(ps.drop_first().len() == 0);
        }
    }
}

// --- building a section -----------------------------------------------------

#[verifier::rlimit(40)]
fn push_section_head(out: &mut String, p: &CollectionProfile)
    ensures
        final(out)@ == old(out)@ + section_head(*p),
{
    push_str(out, "<h2>");
    push_esc(out, p.collection.as_str());
    push_str(out, " <span class=\"sub\">(");
    push_wide_decimal(out, p.deal_count as u128);
    push_str(out, " deals)</span></h2>\n");
    assert(out@ =~= old(out)@ + section_head(*p));
}

#[verifier::rlimit(40)]
fn push_auction_sentence(out: &mut String, p: &CollectionProfile)
    ensures
        final(out)@ == old(out)@ + auction_sentence(*p),
{
    let a = &p.auction;
    if a.with_auction > 0 {
        let n = a.with_auction as u128;
        push_str(out, "auction: ");
        push_one_decimal(out, a.total_bids as u128, n);
        push_str(out, " bids avg, ");
        push_pct_str(out, a.contested as u128, n);
        push_str(out, " contested, ");
        let ghost mid = out@;
        push_wide_decimal(out, a.total_doubles as u128);
        push_str(out, " doubles (");
        push_wide_decimal(out, a.double_of_final as u128);
        push_str(out, " final-dbl), ");
        push_wide_decimal(out, a.with_high_bids as u128);
        push_str(out, " high-bid deals.");
    }
    assert(out@ =~= old(out)@ + auction_sentence(*p));
}

#[verifier::rlimit(40)]
fn push_stats(out: &mut String, p: &CollectionProfile)
    ensures
        final(out)@ == old(out)@ + stats_par(*p),
{
    let d = &p.difficulty;
    push_str(out, "<p class=\"stats\">excluded from ladder: not-makeable ");
    push_wide_decimal(out, d.not_makeable as u128);
    push_str(out, ", no-contract ");
    push_wide_decimal(out, d.no_contract as u128);
    push_str(out, ", incomplete ");
    push_wide_decimal(out, d.incomplete as u128);
    push_str(out, ". ");
    push_auction_sentence(out, p);
    push_str(out, "</p>\n");
    assert(out@ =~= old(out)@ + stats_par(*p));
}

#[verifier::rlimit(40)]
fn push_esc_pairs(out: &mut String, e: &Vec<(String, usize)>)
    ensures
        final(out)@ == old(out)@ + esc_pairs(e@),
{
    let mut i: usize = 0;
    assert(e@.take(0) =~= Seq::<(String, usize)>::empty());
    assert(old(out)@ + esc_pairs(Seq::<(String, usize)>::empty()) =~= old(out)@);
    while i < e.len()
        invariant
            i <= e.len(),
            out@ == old(out)@ + esc_pairs(e@.take(i as int)),
        decreases e.len() - i,
    {
        let ghost before = out@;
        if i > 0 {
            push_char(out, ' ');
            push_char(out, ' ');
        }
        push_esc(out, e[i].0.as_str());
        push_char(out, ':');
        push_wide_decimal(out, e[i].1 as u128);
        proof {
            let t = e@.take(i + 1);
            assert(t.drop_last() =~= e@.take(i as int));
            assert(t.last() == e@[i as int]);
            if i == 0 {
                assert(t.len() == 1 && t[0] == e@[0]);
            }
        }
        i = i + 1;
        assert(out@ =~= old(out)@ + esc_pairs(e@.take(i as int)));
    }
    assert(e@.take(e.len() as int) =~= e@);
}

#[verifier::rlimit(40)]
fn push_dist_par(out: &mut String, label: &str, m: &CountMap)
    ensures
        final(out)@ == old(out)@ + dist_par(label@, m.entries@),
{
    if m.entries.len() > 0 {
        push_str(out, "<p class=\"dist\"><strong>");
        push_esc(out, label);
        push_str(out, "</strong> ");
        push_esc_pairs(out, &m.entries);
        push_str(out, "</p>\n");
    }
    assert(out@ =~= old(out)@ + dist_par(label@, m.entries@));
}

#[verifier::rlimit(40)]
fn push_editorial_item(out: &mut String, key: &str, v: &Option<String>)
    ensures
        final(out)@ == old(out)@ + editorial_item(key@, *v),
{
    match v {
        Some(s) => {
            push_str(out, "<strong>");
            push_esc(out, key);
            push_str(out, ":</strong> ");
            push_esc(out, s.as_str());
            push_str(out, " ");
        },
        None => {},
    }
    assert(out@ =~= old(out)@ + editorial_item(key@, *v));
}

#[verifier::rlimit(40)]
fn push_editorial_par(out: &mut String, p: &CollectionProfile)
    ensures
        final(out)@ == old(out)@ + editorial_par(*p),
{
    match &p.editorial {
        Some(ed) => {
            push_str(out, "<p class=\"editorial\">");
            push_editorial_item(out, "Licensing", &ed.licensing);
            push_editorial_item(out, "Audience", &ed.intended_audience);
            push_editorial_item(out, "Commentary", &ed.commentary_quality);
            push_editorial_item(out, "Notes", &ed.notes);
            push_str(out, "</p>\n");
        },
        None => {},
    }
    assert(out@ =~= old(out)@ + editorial_par(*p));
}

#[verifier::rlimit(40)]
fn push_section_summary(out: &mut String, p: &CollectionProfile)
    ensures
        final(out)@ == old(out)@ + section_summary(*p),
{
    push_section_head(out, p);
    push_stats(out, p);
    push_dist_par(out, "Strain", &p.contract_mix.by_strain);
    push_dist_par(out, "Level", &p.contract_mix.by_level);
    push_dist_par(out, "Declarer", &p.contract_mix.by_declarer);
    push_editorial_par(out, p);
    assert(out@ =~= old(out)@ + section_summary(*p));
}

#[verifier::rlimit(40)]
fn push_stat_base(out: &mut String, t: &TopicStats)
    ensures
        final(out)@ == old(out)@ + stat_base(*t),
{
    push_cell_int(out, t.deal_count as u128);
    push_cell_base(out, t.baseline_bidding);
    push_cell_base(out, t.baseline_cardplay);
    assert(out@ =~= old(out)@ + stat_base(*t));
}

#[verifier::rlimit(40)]
fn push_stat_observed(out: &mut String, t: &TopicStats)
    ensures
        final(out)@ == old(out)@ + stat_observed(*t),
{
    push_cell_int(out, t.observed_cardplay[0] as u128);
    push_cell_int(out, t.observed_cardplay[1] as u128);
    push_cell_int(out, t.observed_cardplay[2] as u128);
    push_cell_int(out, t.not_makeable as u128);
    assert(out@ =~= old(out)@ + stat_observed(*t));
}

#[verifier::rlimit(40)]
fn push_stat_cells(out: &mut String, t: &TopicStats)
    ensures
        final(out)@ == old(out)@ + stat_cells(*t),
{
    push_stat_base(out, t);
    push_stat_observed(out, t);
    let ghost mid = out@;
    push_cell_comb(out, t.combined_cardplay_sum as u128, t.combined_cardplay_n as u128);
    push_cell_comb(out, t.combined_bidding_sum as u128, t.combined_bidding_n as u128);
    assert(out@ =~= mid + stat_means(*t));
    assert(out@ =~= old(out)@ + stat_cells(*t));
}

#[verifier::rlimit(40)]
fn push_topic_row(out: &mut String, key: &String, t: &TopicStats)
    ensures
        final(out)@ == old(out)@ + topic_row(key@, *t),
{
    push_str(out, "<tr><td class=\"name\">");
    push_esc(out, key.as_str());
    push_str(out, "</td>");
    push_stat_cells(out, t);
    push_str(out, "</tr>\n");
    assert(out@ =~= old(out)@ + topic_row(key@, *t));
}

#[verifier::rlimit(40)]
fn push_topic_table(out: &mut String, e: &Vec<(String, TopicStats)>)
    ensures
        final(out)@ == old(out)@ + topic_table(e@),
{
    push_str(out, HEAD_TOPIC);
    let n = e.len();
    let ord = rank_order_of(e, RankKind::Topic, None);
    proof {
        crate::rank::lemma_rank_order_is_ranked(e@, RankKind::Topic, None);
    }
    let ghost start = out@;
    let mut i: usize = 0;
    assert(ord@.take(0) =~= Seq::<usize>::empty());
    while i < ord.len()
        invariant
            i <= ord.len(),
            ord@ == rank_order(e@, RankKind::Topic, None),
            forall|j: int| 0 <= j < ord@.len() ==> (#[trigger] ord@[j] as int) < e@.len(),
            out@ == start + topic_rows(e@, ord@.take(i as int)),
        decreases ord.len() - i,
    {
        let k = ord[i];
        assert((ord@[i as int] as int) < e@.len());
        push_topic_row(out, &e[k].0, &e[k].1);
        proof {
            let t = ord@.take(i + 1);
            assert(t.drop_last() =~= ord@.take(i as int));
            assert(t.last() == k);
        }
        i = i + 1;
    }
    assert(ord@.take(ord.len() as int) =~= ord@);
    push_str(out, "</tbody>\n</table>\n");
    proof {
        reveal(topic_table);
    }
    assert(out@ =~= old(out)@ + topic_table(e@));
}

#[verifier::rlimit(40)]
fn push_lesson_row(out: &mut String, key: &String, t: &TopicStats)
    ensures
        final(out)@ == old(out)@ + lesson_row(key@, *t),
{
    push_str(out, "<tr><td class=\"name indent\">");
    let label = page_label_text(key);
    push_esc(out, label.as_str());
    push_str(out, "</td>");
    push_stat_cells(out, t);
    push_str(out, "<td class=\"topic\">");
    push_esc(out, t.topic.as_str());
    push_str(out, "</td>");
    push_str(out, "</tr>\n");
    assert(out@ =~= old(out)@ + lesson_row(key@, *t));
}

#[verifier::rlimit(40)]
fn push_category_row(out: &mut String, cat: &String, roll: &TopicStats)
    ensures
        final(out)@ == old(out)@ + category_row(cat@, *roll),
{
    push_str(out, "<tr class=\"cat\"><td class=\"catname\" colspan=\"8\">");
    push_esc(out, cat.as_str());
    push_str(out, " <span class=\"sub\">(");
    push_wide_decimal(out, roll.deal_count as u128);
    push_str(out, " deals)</span></td>");
    push_cell_comb(out, roll.combined_cardplay_sum as u128, roll.combined_cardplay_n as u128);
    push_cell_comb(out, roll.combined_bidding_sum as u128, roll.combined_bidding_n as u128);
    push_str(out, "<td></td></tr>\n");
    assert(out@ =~= old(out)@ + category_row(cat@, *roll));
}

#[verifier::rlimit(40)]
fn push_category_block(out: &mut String, cat: &String, roll: &TopicStats, lessons: &Vec<(String, TopicStats)>)
    ensures
        final(out)@ == old(out)@ + category_block(cat@, *roll, lessons@),
{
    push_category_row(out, cat, roll);
    let n = lessons.len();
    let ord = rank_order_of(lessons, RankKind::Lesson, Some(cat));
    proof {
        crate::rank::lemma_rank_order_is_ranked(lessons@, RankKind::Lesson, Some(cat@));
    }
    let ghost start = out@;
    let mut i: usize = 0;
    assert(ord@.take(0) =~= Seq::<usize>::empty());
    while i < ord.len()
        invariant
            i <= ord.len(),
            ord@ == rank_order(lessons@, RankKind::Lesson, Some(cat@)),
            forall|j: int| 0 <= j < ord@.len() ==> (#[trigger] ord@[j] as int) < lessons@.len(),
            out@ == start + lesson_rows(lessons@, ord@.take(i as int)),
        decreases ord.len() - i,
    {
        let k = ord[i];
        assert((ord@[i as int] as int) < lessons@.len());
        push_lesson_row(out, &lessons[k].0, &lessons[k].1);
        proof {
            let t = ord@.take(i + 1);
            assert(t.drop_last() =~= ord@.take(i as int));
            assert(t.last() == k);
        }
        i = i + 1;
    }
    assert(ord@.take(ord.len() as int) =~= ord@);
    assert(out@ =~= old(out)@ + category_block(cat@, *roll, lessons@));
}

#[verifier::rlimit(40)]
fn push_category_blocks(out: &mut String, cats: &Vec<(String, TopicStats)>, lessons: &Vec<(String, TopicStats)>)
    ensures
        final(out)@ == old(out)@ + category_blocks(cats@, lessons@, rank_order(cats@, RankKind::Category, None)),
{
    let n = cats.len();
    let ord = rank_order_of(cats, RankKind::Category, None);
    proof {
        crate::rank::lemma_rank_order_is_ranked(cats@, RankKind::Category, None);
    }
    let mut i: usize = 0;
    assert(ord@.take(0) =~= Seq::<usize>::empty());
    assert(old(out)@ + category_blocks(cats@, lessons@, ord@.take(0)) =~= old(out)@);
    while i < ord.len()
        invariant
            i <= ord.len(),
            ord@ == rank_order(cats@, RankKind::Category, None),
            forall|j: int| 0 <= j < ord@.len() ==> (#[trigger] ord@[j] as int) < cats@.len(),
            out@ == old(out)@ + category_blocks(cats@, lessons@, ord@.take(i as int)),
        decreases ord.len() - i,
    {
        let k = ord[i];
        assert((ord@[i as int] as int) < cats@.len());
        push_category_block(out, &cats[k].0, &cats[k].1, lessons);
        proof {
            let t = ord@.take(i + 1);
            assert(t.drop_last() =~= ord@.take(i as int));
            assert(t.last() == k);
        }
        i = i + 1;
        assert(out@ =~= old(out)@ + category_blocks(cats@, lessons@, ord@.take(i as int)));
    }
    assert(ord@.take(ord.len() as int) =~= ord@);
}

#[verifier::rlimit(40)]
fn push_lesson_table(out: &mut String, p: &CollectionProfile)
    ensures
        final(out)@ == old(out)@ + lesson_table(*p),
{
    proof {
        reveal(lesson_table);
    }
    if p.by_lesson.entries.len() == 0 {
        assert(out@ =~= old(out)@ + lesson_table(*p));
        return;
    }
    push_str(out, HEAD_LESSON);
    push_category_blocks(out, &p.by_category.entries, &p.by_lesson.entries);
    push_str(out, "</tbody>\n</table>\n");
    assert(out@ =~= old(out)@ + lesson_table(*p));
}

#[verifier::rlimit(40)]
fn push_section_tables(out: &mut String, p: &CollectionProfile)
    ensures
        final(out)@ == old(out)@ + section_tables(*p),
{
    match &p.by_topic {
        Some(t) => {
            push_str(out, "<h3>By topic</h3>\n");
            push_topic_table(out, &t.entries);
        },
        None => {},
    }
    push_str(out, "<h3>By lesson <span class=\"sub\">(grouped by category, hardest first)</span></h3>\n");
    push_lesson_table(out, p);
    assert(out@ =~= old(out)@ + section_tables(*p));
}

#[verifier::rlimit(40)]
fn push_section(out: &mut String, p: &CollectionProfile)
    ensures
        final(out)@ == old(out)@ + section(*p),
{
    push_section_summary(out, p);
    push_section_tables(out, p);
    proof {
        reveal(section);
    }
    assert(out@ =~= old(out)@ + section(*p));
}

/// Renders the collections in order `ord` as a standalone HTML page.
#[verifier::rlimit(40)]
pub fn render_ordered(profiles: &Vec<CollectionProfile>, ord: &Vec<usize>) -> (page_text: String)
    requires
        picks(profiles@, ord@),
        forall|i: int| 0 <= i < profiles@.len() ==> totals_fit(#[trigger] profiles@[i]),
    ensures
        page_text@ == page(arranged(profiles@, ord@)),
{
    let ghost a = arranged(profiles@, ord@);
    let mut out = String::new();
    push_str(&mut out, DOCTYPE);
    push_str(&mut out, PREAMBLE);
    push_summary_table(&mut out, profiles, ord);
    let ghost start = out@;
    let mut i: usize = 0;
    assert(a.take(0) =~= Seq::<CollectionProfile>::empty());
    while i < ord.len()
        invariant
            i <= ord.len(),
            a == arranged(profiles@, ord@),
            picks(profiles@, ord@),
            out@ == start + sections(a.take(i as int)),
        decreases ord.len() - i,
    {
        let k = ord[i];
        assert((ord@[i as int] as int) < profiles@.len());
        push_section(&mut out, &profiles[k]);
        proof {
            let t = a.take(i + 1);
            assert(t.drop_last() =~= a.take(i as int));
            assert(t.last() == profiles@[k as int]);
        }
        i = i + 1;
    }
    assert(a.take(ord.len() as int) =~= a);
    push_str(&mut out, "</main>\n</body>\n</html>\n");
    assert(out@ =~= page(a));
    out
}

/// Renders the profiles, in the given order, as a standalone HTML page.
#[verifier::rlimit(40)]
pub fn render(profiles: &Vec<CollectionProfile>) -> (page_text: String)
    requires
        forall|i: int| 0 <= i < profiles@.len() ==> totals_fit(#[trigger] profiles@[i]),
    ensures
        page_text@ == page(profiles@),
{
    let mut ord: Vec<usize> = Vec::new();
    let mut i: usize = 0;
    while i < profiles.len()
        invariant
            i <= profiles.len(),
            ord@.len() == i,
            forall|j: int| 0 <= j < i ==> #[trigger] ord@[j] == j,
        decreases profiles.len() - i,
    {
        ord.push(i);
        i = i + 1;
    }
    let page_text = render_ordered(profiles, &ord);
    assert(arranged(profiles@, ord@) =~= profiles@);
    page_text
}

/// The HTML report over the profiles, collections in order of name (see
/// `by_name`): an error when there is no profile.
#[verifier::rlimit(40)]
pub fn html_report(profiles: &Vec<CollectionProfile>) -> (r: Result<String, ReportError>)
    requires
        forall|i: int| 0 <= i < profiles@.len() ==> totals_fit(#[trigger] profiles@[i]),
    ensures
        r is Err <==> profiles@.len() == 0,
        r matches Ok(t) ==> t@ == page(arranged(profiles@, by_name(profiles@))),
{
    if profiles.len() == 0 {
        return Err(ReportError::NoProfiles);
    }
    let ord = name_order_of(profiles);
    let t = render_ordered(profiles, &ord);
    Ok(t)
}

/// The summary table's opening: heading, note and column heads.
pub const HEAD_SUMMARY: &'static str = "<h2>Collections</h2>\n<p class=\"note\">The two coloured columns are the overall combined difficulty (mean over the collection), green → red.</p>\n<table class=\"grid\">\n<thead><tr><th>collection</th><th>deals</th><th>cardplay</th><th>bidding</th><th>makeable</th><th>L0</th><th>L1</th><th>L2</th><th>uncl</th><th>auction</th><th>commentary</th><th>expl. contract</th><th>finesse</th><th>ruff</th></tr></thead>\n<tbody>\n";

/// The topic table's opening.
pub const HEAD_TOPIC: &'static str = "<table class=\"grid\">\n<thead><tr><th>topic</th><th>deals</th><th>base b</th><th>base cp</th><th>L0</th><th>L1</th><th>L2</th><th>n-mk</th><th>comb-cp</th><th>comb-bid</th></tr></thead>\n<tbody>\n";

/// The lesson table's opening.
pub const HEAD_LESSON: &'static str = "<table class=\"grid\">\n<thead><tr><th>lesson</th><th>deals</th><th>base b</th><th>base cp</th><th>L0</th><th>L1</th><th>L2</th><th>n-mk</th><th>comb-cp</th><th>comb-bid</th><th>topic</th></tr></thead>\n<tbody>\n";

} // verus!
