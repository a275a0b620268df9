//! The `<h2>` headings of the HTML page: the generated part of the page
//! holds one heading for the summary and one per collection, and no other.

use vstd::prelude::*;
use crate::html::{
    auction_sentence, category_blocks, category_row, cell_base, cell_comb, cell_int, cell_pct, dist_par, editorial_item,
    editorial_par, esc, esc_char, esc_pairs, lesson_rows, lesson_table, page_label, pct_str, section, section_tables,
    stat_cells, stats_par, topic_rows, topic_table, HEAD_LESSON, HEAD_SUMMARY, HEAD_TOPIC,
    lemma_page_frame, page, sections, sections_listed, summary_row, summary_rows, summary_table, DOCTYPE, PREAMBLE,
};
use crate::profile::CollectionProfile;
use crate::rank::{rank_order, RankKind};
use crate::numfmt::{hue, one_decimal, percent_of, tenths};
use crate::profile::TopicStats;
use crate::text::{decimal, digit_char};

verus! {

broadcast use vstd::string::group_string_axioms;

/// An `<h2>` tag opens at position `i` of `s`.
pub open spec fn h2_at(s: Seq<char>, i: int) -> bool {
    0 <= i && i + 4 <= s.len() && s[i] == '<' && s[i + 1] == 'h' && s[i + 2] == '2' && s[i + 3] == '>'
}

/// The number of `<h2>` tags opening at or after position `i` of `s`.
pub open spec fn h2_from(s: Seq<char>, i: int) -> nat
    decreases s.len() - i,
{
    if i < 0 || i >= s.len() {
        0
    } else {
        (if h2_at(s, i) { 1nat } else { 0nat }) + h2_from(s, i + 1)
    }
}

/// The number of `<h2>` tags in `s`.
pub open spec fn h2_count(s: Seq<char>) -> nat {
    h2_from(s, 0)
}

/// Every `<` of `s` is followed, inside `s`, by two characters that are not
/// `h2`: no `<h2>` opens in `s`, nor at its end into what follows.
pub open spec fn tame(s: Seq<char>) -> bool {
    forall|i: int| 0 <= i < s.len() && #[trigger] s[i] == '<' ==> i + 2 < s.len() && !(s[i + 1] == 'h' && s[i + 2] == '2')
}

/// `tame` of `s` from position `i` on, one position at a time.
pub open spec fn tame_from(s: Seq<char>, i: int) -> bool
    decreases s.len() - i,
{
    if i < 0 || i >= s.len() {
        true
    } else {
        (s[i] == '<' ==> i + 2 < s.len() && !(s[i + 1] == 'h' && s[i + 2] == '2')) && tame_from(s, i + 1)
    }
}

pub proof fn lemma_tame_from(s: Seq<char>, i: int)
    requires
        0 <= i <= s.len(),
        tame_from(s, i),
    ensures
        tame(s.skip(i)),
    decreases s.len() - i,
{
    if i < s.len() {
        lemma_tame_from(s, i + 1);
        let t = s.skip(i);
        assert forall|j: int| 0 <= j < t.len() && #[trigger] t[j] == '<' implies j + 2 < t.len() && !(t[j + 1]
            == 'h' && t[j + 2] == '2') by {
            if j > 0 {
                assert(s.skip(i + 1)[j - 1] == t[j]);
            }
        }
    } else {
        assert(s.skip(i).len() == 0);
    }
}

/// A text without `<` is tame.
pub proof fn lemma_tame_without_lt(s: Seq<char>)
    requires
        !s.contains('<'),
    ensures
        tame(s),
{
    assert forall|i: int| 0 <= i < s.len() && #[trigger] s[i] == '<' implies i + 2 < s.len() && !(s[i + 1] == 'h'
        && s[i + 2] == '2') by {
        assert(s.contains('<'));
    }
}

/// Joining tame texts gives a tame text.
pub broadcast proof fn lemma_tame_join(a: Seq<char>, b: Seq<char>)
    requires
        tame(a),
        tame(b),
    ensures
        #[trigger] tame(a + b),
{
    let s = a + b;
    assert forall|i: int| 0 <= i < s.len() && #[trigger] s[i] == '<' implies i + 2 < s.len() && !(s[i + 1] == 'h'
        && s[i + 2] == '2') by {
        if i < a.len() {
            assert(a[i] == '<');
        } else {
            assert(b[i - a.len()] == '<');
        }
    }
}

/// Counting in `a + b` from inside `b` is counting in `b`.
proof fn lemma_h2_shift(a: Seq<char>, b: Seq<char>, j: int)
    requires
        0 <= j <= b.len(),
    ensures
        h2_from(a + b, a.len() + j) == h2_from(b, j),
    decreases b.len() - j,
{
    if j < b.len() {
        lemma_h2_shift(a, b, j + 1);
        let s = a + b;
        let k = a.len() + j;
        if k + 4 <= s.len() {
            assert(s[k] == b[j] && s[k + 1] == b[j + 1] && s[k + 2] == b[j + 2] && s[k + 3] == b[j + 3]);
        }
        assert(h2_at(s, k) == h2_at(b, j));
    }
}

/// A tame head adds no heading: the count of `a + b` is that of `b`.
pub proof fn lemma_h2_tame_head(a: Seq<char>, b: Seq<char>)
    requires
        tame(a),
    ensures
        h2_count(a + b) == h2_count(b),
{
    lemma_h2_tame_from(a, b, 0);
}

proof fn lemma_h2_tame_from(a: Seq<char>, b: Seq<char>, i: int)
    requires
        tame(a),
        0 <= i <= a.len(),
    ensures
        h2_from(a + b, i) == h2_count(b),
    decreases a.len() - i,
{
    if i < a.len() {
        lemma_h2_tame_from(a, b, i + 1);
        let s = a + b;
        if s[i] == '<' {
            assert(a[i] == '<');
            assert(s[i + 1] == a[i + 1] && s[i + 2] == a[i + 2]);
        }
        assert(!h2_at(s, i));
    } else {
        lemma_h2_shift(a, b, 0);
    }
}

/// A text that opens with `<h2>` and goes on with a tame text `t` and then
/// `r` has one heading more than `r`.
pub proof fn lemma_h2_opening(t: Seq<char>, r: Seq<char>)
    requires
        tame(t),
    ensures
        h2_count("<h2>"@ + t + r) == 1 + h2_count(r),
{
    reveal_strlit("<h2>");
    reveal_strlit("h2>");
    let s = "<h2>"@ + t + r;
    let rest = "h2>"@ + t;
    assert(s =~= seq!['<'] + (rest + r));
    assert(h2_at(s, 0));
    assert(h2_from(s, 0) == 1 + h2_from(s, 1));
    lemma_h2_shift(seq!['<'], rest + r, 0);
    lemma_tame_without_lt("h2>"@);
    lemma_tame_join("h2>"@, t);
    lemma_h2_tame_head(rest, r);
}


/// The fixed pieces of text that the page's generated part is made of are
/// tame; the summary's opening is `<h2>` followed by tame text.
proof fn lemma_page_literals()
    ensures
        tame(" bids avg, "@),
        tame(" contested, "@),
        tame(" doubles ("@),
        tame(" final-dbl), "@),
        tame(" high-bid deals."@),
        tame("auction: "@),
        tame(" <span class=\"sub\">("@),
        tame(" deals)</span></td>"@),
        tame("<td></td></tr>\n"@),
        tame("<tr class=\"cat\"><td class=\"catname\" colspan=\"8\">"@),
        tame("</td>"@),
        tame("<td class=\"num heat\" style=\""@),
        tame("\">"@),
        tame("<td class=\"num\">–</td>"@),
        tame("</p>\n"@),
        tame("</strong> "@),
        tame("<p class=\"dist\"><strong>"@),
        tame(" "@),
        tame(":</strong> "@),
        tame("<strong>"@),
        tame("<p class=\"editorial\">"@),
        tame(" 62% 42%);color:#fff"@),
        tame("background:hsl("@),
        tame("</tr>\n"@),
        tame("<td class=\"topic\">"@),
        tame("<tr><td class=\"name indent\">"@),
        tame("</tbody>\n</table>\n"@),
        tame("</main>\n</body>\n</html>\n"@),
        tame(" deals)</span></h2>\n"@),
        tame("<h3>By lesson <span class=\"sub\">(grouped by category, hardest first)</span></h3>\n"@),
        tame("<h3>By topic</h3>\n"@),
        tame(", incomplete "@),
        tame(", no-contract "@),
        tame(". "@),
        tame("<p class=\"stats\">excluded from ladder: not-makeable "@),
        tame("<tr><td class=\"name\">"@),
        tame("<td class=\"num\">"@),
        tame(HEAD_TOPIC@),
        tame(HEAD_LESSON@),
        tame(HEAD_SUMMARY@.skip(4)),
        HEAD_SUMMARY@ =~= "<h2>"@ + HEAD_SUMMARY@.skip(4),
{
    assert(tame(" bids avg, "@.skip(0))) by {
        reveal_strlit(" bids avg, ");
        reveal_with_fuel(tame_from, 12);
        assert(tame_from(" bids avg, "@, 0));
        lemma_tame_from(" bids avg, "@, 0);
    }
    assert(" bids avg, "@.skip(0) =~= " bids avg, "@);
    assert(tame(" contested, "@.skip(0))) by {
        reveal_strlit(" contested, ");
        reveal_with_fuel(tame_from, 13);
        assert(tame_from(" contested, "@, 0));
        lemma_tame_from(" contested, "@, 0);
    }
    assert(" contested, "@.skip(0) =~= " contested, "@);
    assert(tame(" doubles ("@.skip(0))) by {
        reveal_strlit(" doubles (");
        reveal_with_fuel(tame_from, 11);
        assert(tame_from(" doubles ("@, 0));
        lemma_tame_from(" doubles ("@, 0);
    }
    assert(" doubles ("@.skip(0) =~= " doubles ("@);
    assert(tame(" final-dbl), "@.skip(0))) by {
        reveal_strlit(" final-dbl), ");
        reveal_with_fuel(tame_from, 14);
        assert(tame_from(" final-dbl), "@, 0));
        lemma_tame_from(" final-dbl), "@, 0);
    }
    assert(" final-dbl), "@.skip(0) =~= " final-dbl), "@);
    assert(tame(" high-bid deals."@.skip(0))) by {
        reveal_strlit(" high-bid deals.");
        reveal_with_fuel(tame_from, 17);
        assert(tame_from(" high-bid deals."@, 0));
        lemma_tame_from(" high-bid deals."@, 0);
    }
    assert(" high-bid deals."@.skip(0) =~= " high-bid deals."@);
    assert(tame("auction: "@.skip(0))) by {
        reveal_strlit("auction: ");
        reveal_with_fuel(tame_from, 10);
        assert(tame_from("auction: "@, 0));
        lemma_tame_from("auction: "@, 0);
    }
    assert("auction: "@.skip(0) =~= "auction: "@);
    assert(tame(" <span class=\"sub\">("@.skip(0))) by {
        reveal_strlit(" <span class=\"sub\">(");
        reveal_with_fuel(tame_from, 21);
        assert(tame_from(" <span class=\"sub\">("@, 0));
        lemma_tame_from(" <span class=\"sub\">("@, 0);
    }
    assert(" <span class=\"sub\">("@.skip(0) =~= " <span class=\"sub\">("@);
    assert(tame(" deals)</span></td>"@.skip(0))) by {
        reveal_strlit(" deals)</span></td>");
        reveal_with_fuel(tame_from, 20);
        assert(tame_from(" deals)</span></td>"@, 0));
        lemma_tame_from(" deals)</span></td>"@, 0);
    }
    assert(" deals)</span></td>"@.skip(0) =~= " deals)</span></td>"@);
    assert(tame("<td></td></tr>\n"@.skip(0))) by {
        reveal_strlit("<td></td></tr>\n");
        reveal_with_fuel(tame_from, 16);
        assert(tame_from("<td></td></tr>\n"@, 0));
        lemma_tame_from("<td></td></tr>\n"@, 0);
    }
    assert("<td></td></tr>\n"@.skip(0) =~= "<td></td></tr>\n"@);
    assert(tame("<tr class=\"cat\"><td class=\"catname\" colspan=\"8\">"@.skip(0))) by {
        reveal_strlit("<tr class=\"cat\"><td class=\"catname\" colspan=\"8\">");
        reveal_with_fuel(tame_from, 32);
        assert(tame_from("<tr class=\"cat\"><td class=\"catname\" colspan=\"8\">"@, 30));
        assert(tame_from("<tr class=\"cat\"><td class=\"catname\" colspan=\"8\">"@, 0));
        lemma_tame_from("<tr class=\"cat\"><td class=\"catname\" colspan=\"8\">"@, 0);
    }
    assert("<tr class=\"cat\"><td class=\"catname\" colspan=\"8\">"@.skip(0) =~= "<tr class=\"cat\"><td class=\"catname\" colspan=\"8\">"@);
    assert(tame("</td>"@.skip(0))) by {
        reveal_strlit("</td>");
        reveal_with_fuel(tame_from, 6);
        assert(tame_from("</td>"@, 0));
        lemma_tame_from("</td>"@, 0);
    }
    assert("</td>"@.skip(0) =~= "</td>"@);
    assert(tame("<td class=\"num heat\" style=\""@.skip(0))) by {
        reveal_strlit("<td class=\"num heat\" style=\"");
        reveal_with_fuel(tame_from, 29);
        assert(tame_from("<td class=\"num heat\" style=\""@, 0));
        lemma_tame_from("<td class=\"num heat\" style=\""@, 0);
    }
    assert("<td class=\"num heat\" style=\""@.skip(0) =~= "<td class=\"num heat\" style=\""@);
    assert(tame("\">"@.skip(0))) by {
        reveal_strlit("\">");
        reveal_with_fuel(tame_from, 3);
        assert(tame_from("\">"@, 0));
        lemma_tame_from("\">"@, 0);
    }
    assert("\">"@.skip(0) =~= "\">"@);
    assert(tame("<td class=\"num\">–</td>"@.skip(0))) by {
        reveal_strlit("<td class=\"num\">–</td>");
        reveal_with_fuel(tame_from, 23);
        assert(tame_from("<td class=\"num\">–</td>"@, 0));
        lemma_tame_from("<td class=\"num\">–</td>"@, 0);
    }
    assert("<td class=\"num\">–</td>"@.skip(0) =~= "<td class=\"num\">–</td>"@);
    assert(tame("</p>\n"@.skip(0))) by {
        reveal_strlit("</p>\n");
        reveal_with_fuel(tame_from, 6);
        assert(tame_from("</p>\n"@, 0));
        lemma_tame_from("</p>\n"@, 0);
    }
    assert("</p>\n"@.skip(0) =~= "</p>\n"@);
    assert(tame("</strong> "@.skip(0))) by {
        reveal_strlit("</strong> ");
        reveal_with_fuel(tame_from, 11);
        assert(tame_from("</strong> "@, 0));
        lemma_tame_from("</strong> "@, 0);
    }
    assert("</strong> "@.skip(0) =~= "</strong> "@);
    assert(tame("<p class=\"dist\"><strong>"@.skip(0))) by {
        reveal_strlit("<p class=\"dist\"><strong>");
        reveal_with_fuel(tame_from, 25);
        assert(tame_from("<p class=\"dist\"><strong>"@, 0));
        lemma_tame_from("<p class=\"dist\"><strong>"@, 0);
    }
    assert("<p class=\"dist\"><strong>"@.skip(0) =~= "<p class=\"dist\"><strong>"@);
    assert(tame(" "@.skip(0))) by {
        reveal_strlit(" ");
        reveal_with_fuel(tame_from, 2);
        assert(tame_from(" "@, 0));
        lemma_tame_from(" "@, 0);
    }
    assert(" "@.skip(0) =~= " "@);
    assert(tame(":</strong> "@.skip(0))) by {
        reveal_strlit(":</strong> ");
        reveal_with_fuel(tame_from, 12);
        assert(tame_from(":</strong> "@, 0));
        lemma_tame_from(":</strong> "@, 0);
    }
    assert(":</strong> "@.skip(0) =~= ":</strong> "@);
    assert(tame("<strong>"@.skip(0))) by {
        reveal_strlit("<strong>");
        reveal_with_fuel(tame_from, 9);
        assert(tame_from("<strong>"@, 0));
        lemma_tame_from("<strong>"@, 0);
    }
    assert("<strong>"@.skip(0) =~= "<strong>"@);
    assert(tame("<p class=\"editorial\">"@.skip(0))) by {
        reveal_strlit("<p class=\"editorial\">");
        reveal_with_fuel(tame_from, 22);
        assert(tame_from("<p class=\"editorial\">"@, 0));
        lemma_tame_from("<p class=\"editorial\">"@, 0);
    }
    assert("<p class=\"editorial\">"@.skip(0) =~= "<p class=\"editorial\">"@);
    assert(tame(" 62% 42%);color:#fff"@.skip(0))) by {
        reveal_strlit(" 62% 42%);color:#fff");
        reveal_with_fuel(tame_from, 21);
        assert(tame_from(" 62% 42%);color:#fff"@, 0));
        lemma_tame_from(" 62% 42%);color:#fff"@, 0);
    }
    assert(" 62% 42%);color:#fff"@.skip(0) =~= " 62% 42%);color:#fff"@);
    assert(tame("background:hsl("@.skip(0))) by {
        reveal_strlit("background:hsl(");
        reveal_with_fuel(tame_from, 16);
        assert(tame_from("background:hsl("@, 0));
        lemma_tame_from("background:hsl("@, 0);
    }
    assert("background:hsl("@.skip(0) =~= "background:hsl("@);
    assert(tame("</tr>\n"@.skip(0))) by {
        reveal_strlit("</tr>\n");
        reveal_with_fuel(tame_from, 7);
        assert(tame_from("</tr>\n"@, 0));
        lemma_tame_from("</tr>\n"@, 0);
    }
    assert("</tr>\n"@.skip(0) =~= "</tr>\n"@);
    assert(tame("<td class=\"topic\">"@.skip(0))) by {
        reveal_strlit("<td class=\"topic\">");
        reveal_with_fuel(tame_from, 19);
        assert(tame_from("<td class=\"topic\">"@, 0));
        lemma_tame_from("<td class=\"topic\">"@, 0);
    }
    assert("<td class=\"topic\">"@.skip(0) =~= "<td class=\"topic\">"@);
    assert(tame("<tr><td class=\"name indent\">"@.skip(0))) by {
        reveal_strlit("<tr><td class=\"name indent\">");
        reveal_with_fuel(tame_from, 29);
        assert(tame_from("<tr><td class=\"name indent\">"@, 0));
        lemma_tame_from("<tr><td class=\"name indent\">"@, 0);
    }
    assert("<tr><td class=\"name indent\">"@.skip(0) =~= "<tr><td class=\"name indent\">"@);
    assert(tame("</tbody>\n</table>\n"@.skip(0))) by {
        reveal_strlit("</tbody>\n</table>\n");
        reveal_with_fuel(tame_from, 19);
        assert(tame_from("</tbody>\n</table>\n"@, 0));
        lemma_tame_from("</tbody>\n</table>\n"@, 0);
    }
    assert("</tbody>\n</table>\n"@.skip(0) =~= "</tbody>\n</table>\n"@);
    assert(tame("</main>\n</body>\n</html>\n"@.skip(0))) by {
        reveal_strlit("</main>\n</body>\n</html>\n");
        reveal_with_fuel(tame_from, 25);
        assert(tame_from("</main>\n</body>\n</html>\n"@, 0));
        lemma_tame_from("</main>\n</body>\n</html>\n"@, 0);
    }
    assert("</main>\n</body>\n</html>\n"@.skip(0) =~= "</main>\n</body>\n</html>\n"@);
    assert(tame(" deals)</span></h2>\n"@.skip(0))) by {
        reveal_strlit(" deals)</span></h2>\n");
        reveal_with_fuel(tame_from, 21);
        assert(tame_from(" deals)</span></h2>\n"@, 0));
        lemma_tame_from(" deals)</span></h2>\n"@, 0);
    }
    assert(" deals)</span></h2>\n"@.skip(0) =~= " deals)</span></h2>\n"@);
    assert(tame("<h3>By lesson <span class=\"sub\">(grouped by category, hardest first)</span></h3>\n"@.skip(0))) by {
        reveal_strlit("<h3>By lesson <span class=\"sub\">(grouped by category, hardest first)</span></h3>\n");
        reveal_with_fuel(tame_from, 32);
        assert(tame_from("<h3>By lesson <span class=\"sub\">(grouped by category, hardest first)</span></h3>\n"@, 60));
        assert(tame_from("<h3>By lesson <span class=\"sub\">(grouped by category, hardest first)</span></h3>\n"@, 30));
        assert(tame_from("<h3>By lesson <span class=\"sub\">(grouped by category, hardest first)</span></h3>\n"@, 0));
        lemma_tame_from("<h3>By lesson <span class=\"sub\">(grouped by category, hardest first)</span></h3>\n"@, 0);
    }
    assert("<h3>By lesson <span class=\"sub\">(grouped by category, hardest first)</span></h3>\n"@.skip(0) =~= "<h3>By lesson <span class=\"sub\">(grouped by category, hardest first)</span></h3>\n"@);
    assert(tame("<h3>By topic</h3>\n"@.skip(0))) by {
        reveal_strlit("<h3>By topic</h3>\n");
        reveal_with_fuel(tame_from, 19);
        assert(tame_from("<h3>By topic</h3>\n"@, 0));
        lemma_tame_from("<h3>By topic</h3>\n"@, 0);
    }
    assert("<h3>By topic</h3>\n"@.skip(0) =~= "<h3>By topic</h3>\n"@);
    assert(tame(", incomplete "@.skip(0))) by {
        reveal_strlit(", incomplete ");
        reveal_with_fuel(tame_from, 14);
        assert(tame_from(", incomplete "@, 0));
        lemma_tame_from(", incomplete "@, 0);
    }
    assert(", incomplete "@.skip(0) =~= ", incomplete "@);
    assert(tame(", no-contract "@.skip(0))) by {
        reveal_strlit(", no-contract ");
        reveal_with_fuel(tame_from, 15);
        assert(tame_from(", no-contract "@, 0));
        lemma_tame_from(", no-contract "@, 0);
    }
    assert(", no-contract "@.skip(0) =~= ", no-contract "@);
    assert(tame(". "@.skip(0))) by {
        reveal_strlit(". ");
        reveal_with_fuel(tame_from, 3);
        assert(tame_from(". "@, 0));
        lemma_tame_from(". "@, 0);
    }
    assert(". "@.skip(0) =~= ". "@);
    assert(tame("<p class=\"stats\">excluded from ladder: not-makeable "@.skip(0))) by {
        reveal_strlit("<p class=\"stats\">excluded from ladder: not-makeable ");
        reveal_with_fuel(tame_from, 32);
        assert(tame_from("<p class=\"stats\">excluded from ladder: not-makeable "@, 30));
        assert(tame_from("<p class=\"stats\">excluded from ladder: not-makeable "@, 0));
        lemma_tame_from("<p class=\"stats\">excluded from ladder: not-makeable "@, 0);
    }
    assert("<p class=\"stats\">excluded from ladder: not-makeable "@.skip(0) =~= "<p class=\"stats\">excluded from ladder: not-makeable "@);
    assert(tame("<tr><td class=\"name\">"@.skip(0))) by {
        reveal_strlit("<tr><td class=\"name\">");
        reveal_with_fuel(tame_from, 22);
        assert(tame_from("<tr><td class=\"name\">"@, 0));
        lemma_tame_from("<tr><td class=\"name\">"@, 0);
    }
    assert("<tr><td class=\"name\">"@.skip(0) =~= "<tr><td class=\"name\">"@);
    assert(tame("<td class=\"num\">"@.skip(0))) by {
        reveal_strlit("<td class=\"num\">");
        reveal_with_fuel(tame_from, 17);
        assert(tame_from("<td class=\"num\">"@, 0));
        lemma_tame_from("<td class=\"num\">"@, 0);
    }
    assert("<td class=\"num\">"@.skip(0) =~= "<td class=\"num\">"@);
    assert(tame(HEAD_TOPIC@.skip(0))) by {
        reveal_strlit("<table class=\"grid\">\n<thead><tr><th>topic</th><th>deals</th><th>base b</th><th>base cp</th><th>L0</th><th>L1</th><th>L2</th><th>n-mk</th><th>comb-cp</th><th>comb-bid</th></tr></thead>\n<tbody>\n");
        reveal_with_fuel(tame_from, 32);
        assert(tame_from(HEAD_TOPIC@, 180));
        assert(tame_from(HEAD_TOPIC@, 150));
        assert(tame_from(HEAD_TOPIC@, 120));
        assert(tame_from(HEAD_TOPIC@, 90));
        assert(tame_from(HEAD_TOPIC@, 60));
        assert(tame_from(HEAD_TOPIC@, 30));
        assert(tame_from(HEAD_TOPIC@, 0));
        lemma_tame_from(HEAD_TOPIC@, 0);
    }
    assert(HEAD_TOPIC@.skip(0) =~= HEAD_TOPIC@);
    assert(tame(HEAD_LESSON@.skip(0))) by {
        reveal_strlit("<table class=\"grid\">\n<thead><tr><th>lesson</th><th>deals</th><th>base b</th><th>base cp</th><th>L0</th><th>L1</th><th>L2</th><th>n-mk</th><th>comb-cp</th><th>comb-bid</th><th>topic</th></tr></thead>\n<tbody>\n");
        reveal_with_fuel(tame_from, 32);
        assert(tame_from(HEAD_LESSON@, 180));
        assert(tame_from(HEAD_LESSON@, 150));
        assert(tame_from(HEAD_LESSON@, 120));
        assert(tame_from(HEAD_LESSON@, 90));
        assert(tame_from(HEAD_LESSON@, 60));
        assert(tame_from(HEAD_LESSON@, 30));
        assert(tame_from(HEAD_LESSON@, 0));
        lemma_tame_from(HEAD_LESSON@, 0);
    }
    assert(HEAD_LESSON@.skip(0) =~= HEAD_LESSON@);
    assert(tame(HEAD_SUMMARY@.skip(4))) by {
        reveal_strlit("<h2>Collections</h2>\n<p class=\"note\">The two coloured columns are the overall combined difficulty (mean over the collection), green → red.</p>\n<table class=\"grid\">\n<thead><tr><th>collection</th><th>deals</th><th>cardplay</th><th>bidding</th><th>makeable</th><th>L0</th><th>L1</th><th>L2</th><th>uncl</th><th>auction</th><th>commentary</th><th>expl. contract</th><th>finesse</th><th>ruff</th></tr></thead>\n<tbody>\n");
        reveal_with_fuel(tame_from, 32);
        assert(tame_from(HEAD_SUMMARY@, 394));
        assert(tame_from(HEAD_SUMMARY@, 364));
        assert(tame_from(HEAD_SUMMARY@, 334));
        assert(tame_from(HEAD_SUMMARY@, 304));
        assert(tame_from(HEAD_SUMMARY@, 274));
        assert(tame_from(HEAD_SUMMARY@, 244));
        assert(tame_from(HEAD_SUMMARY@, 214));
        assert(tame_from(HEAD_SUMMARY@, 184));
        assert(tame_from(HEAD_SUMMARY@, 154));
        assert(tame_from(HEAD_SUMMARY@, 124));
        assert(tame_from(HEAD_SUMMARY@, 94));
        assert(tame_from(HEAD_SUMMARY@, 64));
        assert(tame_from(HEAD_SUMMARY@, 34));
        assert(tame_from(HEAD_SUMMARY@, 4));
        lemma_tame_from(HEAD_SUMMARY@, 4);
    }
    assert(HEAD_SUMMARY@ =~= "<h2>"@ + HEAD_SUMMARY@.skip(4)) by {
        reveal_strlit("<h2>Collections</h2>\n<p class=\"note\">The two coloured columns are the overall combined difficulty (mean over the collection), green → red.</p>\n<table class=\"grid\">\n<thead><tr><th>collection</th><th>deals</th><th>cardplay</th><th>bidding</th><th>makeable</th><th>L0</th><th>L1</th><th>L2</th><th>uncl</th><th>auction</th><th>commentary</th><th>expl. contract</th><th>finesse</th><th>ruff</th></tr></thead>\n<tbody>\n");
        reveal_strlit("<h2>");
    }
}


/// Escaped text holds no `<`.
pub proof fn lemma_esc_tame(s: Seq<char>)
    ensures
        tame(esc(s)),
    decreases s.len(),
{
    if s.len() > 0 {
        lemma_esc_tame(s.drop_last());
        let c = s.last();
        reveal_strlit("&amp;");
        reveal_strlit("&lt;");
        reveal_strlit("&gt;");
        reveal_strlit("&quot;");
        assert(!esc_char(c).contains('<')) by {
            if esc_char(c).contains('<') {
                let k = choose|k: int| 0 <= k < esc_char(c).len() && esc_char(c)[k] == '<';
                assert(esc_char(c)[k] == '<');
            }
        }
        lemma_tame_without_lt(esc_char(c));
        lemma_tame_join(esc(s.drop_last()), esc_char(c));
    } else {
        lemma_tame_without_lt(esc(s));
    }
}

/// A decimal numeral holds no `<`.
pub proof fn lemma_decimal_tame(n: nat)
    ensures
        tame(decimal(n)),
    decreases n,
{
    if n >= 10 {
        lemma_decimal_tame(n / 10);
        let d = digit_char(n % 10);
        assert(decimal(n) =~= decimal(n / 10) + seq![d]);
        lemma_tame_without_lt(seq![d]);
        lemma_tame_join(decimal(n / 10), seq![d]);
    } else {
        assert(!decimal(n).contains('<')) by {
            if decimal(n).contains('<') {
                assert(decimal(n)[0] == digit_char(n));
            }
        }
        lemma_tame_without_lt(decimal(n));
    }
}

proof fn lemma_one_decimal_tame(a: nat, b: nat)
    ensures
        tame(one_decimal(a, b)),
{
    let t = tenths(a, b);
    lemma_decimal_tame(t / 10);
    let tail = seq!['.', digit_char(t % 10)];
    assert(!tail.contains('<')) by {
        if tail.contains('<') {
            let k = choose|k: int| 0 <= k < tail.len() && tail[k] == '<';
            assert(tail[k] == '<');
        }
    }
    lemma_tame_without_lt(tail);
    lemma_tame_join(decimal(t / 10), tail);
}

proof fn lemma_pct_str_tame(n: nat, d: nat)
    ensures
        tame(pct_str(n, d)),
{
    broadcast use lemma_tame_join;
    lemma_tame_without_lt(seq!['–']);
    lemma_tame_without_lt(seq!['%']);
    lemma_decimal_tame(percent_of(n, d));
}

proof fn lemma_cells_tame()
    ensures
        forall|n: nat| #[trigger] tame(cell_int(n)),
        forall|n: nat, d: nat| #[trigger] tame(cell_pct(n, d)),
        forall|v: u8| #[trigger] tame(cell_base(v)),
        forall|s: nat, n: nat| #[trigger] tame(cell_comb(s, n)),
{
    broadcast use lemma_tame_join;
    lemma_page_literals();
    assert forall|n: nat| #[trigger] tame(cell_int(n)) by {
        lemma_decimal_tame(n);
    }
    assert forall|n: nat, d: nat| #[trigger] tame(cell_pct(n, d)) by {
        lemma_pct_str_tame(n, d);
    }
    assert forall|v: u8| #[trigger] tame(cell_base(v)) by {
        lemma_decimal_tame(hue(v as nat, 1));
        lemma_decimal_tame(v as nat);
    }
    assert forall|s: nat, n: nat| #[trigger] tame(cell_comb(s, n)) by {
        lemma_decimal_tame(hue(s, n));
        lemma_one_decimal_tame(s, n);
    }
}

proof fn lemma_stat_cells_tame(t: TopicStats)
    ensures
        tame(stat_cells(t)),
{
    broadcast use lemma_tame_join;
    lemma_cells_tame();
}

proof fn lemma_topic_rows_tame(e: Seq<(String, TopicStats)>, ord: Seq<usize>)
    ensures
        tame(topic_rows(e, ord)),
    decreases ord.len(),
{
    broadcast use lemma_tame_join;
    if ord.len() > 0 {
        lemma_topic_rows_tame(e, ord.drop_last());
        let k = ord.last() as int;
        lemma_page_literals();
        lemma_esc_tame(e[k].0@);
        lemma_stat_cells_tame(e[k].1);
    } else {
        lemma_tame_without_lt(topic_rows(e, ord));
    }
}

proof fn lemma_lesson_rows_tame(e: Seq<(String, TopicStats)>, ord: Seq<usize>)
    ensures
        tame(lesson_rows(e, ord)),
    decreases ord.len(),
{
    broadcast use lemma_tame_join;
    if ord.len() > 0 {
        lemma_lesson_rows_tame(e, ord.drop_last());
        let k = ord.last() as int;
        lemma_page_literals();
        lemma_esc_tame(page_label(e[k].0@));
        lemma_esc_tame(e[k].1.topic@);
        lemma_stat_cells_tame(e[k].1);
    } else {
        lemma_tame_without_lt(lesson_rows(e, ord));
    }
}

proof fn lemma_category_blocks_tame(cats: Seq<(String, TopicStats)>, lessons: Seq<(String, TopicStats)>, ord: Seq<usize>)
    ensures
        tame(category_blocks(cats, lessons, ord)),
    decreases ord.len(),
{
    broadcast use lemma_tame_join;
    if ord.len() > 0 {
        lemma_category_blocks_tame(cats, lessons, ord.drop_last());
        let k = ord.last() as int;
        let cat = cats[k].0@;
        let roll = cats[k].1;
        lemma_page_literals();
        lemma_cells_tame();
        lemma_esc_tame(cat);
        lemma_decimal_tame(roll.deal_count as nat);
        lemma_lesson_rows_tame(lessons, rank_order(lessons, RankKind::Lesson, Some(cat)));
        assert(tame(category_row(cat, roll)));
    } else {
        lemma_tame_without_lt(category_blocks(cats, lessons, ord));
    }
}

/// The breakdown tables of a section are tame.
proof fn lemma_section_tables_tame(p: CollectionProfile)
    ensures
        tame(section_tables(p)),
{
    broadcast use lemma_tame_join;
    lemma_page_literals();
    reveal(topic_table);
    reveal(lesson_table);
    match p.by_topic {
        Some(t) => {
            lemma_topic_rows_tame(t.entries@, rank_order(t.entries@, RankKind::Topic, None));
        },
        None => {
            lemma_tame_without_lt(Seq::<char>::empty());
        },
    }
    let cats = p.by_category.entries@;
    lemma_category_blocks_tame(cats, p.by_lesson.entries@, rank_order(cats, RankKind::Category, None));
    lemma_tame_without_lt(Seq::<char>::empty());
}

proof fn lemma_esc_pairs_tame(e: Seq<(String, usize)>)
    ensures
        tame(esc_pairs(e)),
    decreases e.len(),
{
    broadcast use lemma_tame_join;
    lemma_tame_without_lt(seq![':']);
    lemma_tame_without_lt(seq![' ', ' ']);
    if e.len() == 0 {
        lemma_tame_without_lt(esc_pairs(e));
    } else if e.len() == 1 {
        lemma_esc_tame(e[0].0@);
        lemma_decimal_tame(e[0].1 as nat);
    } else {
        lemma_esc_pairs_tame(e.drop_last());
        lemma_esc_tame(e.last().0@);
        lemma_decimal_tame(e.last().1 as nat);
    }
}

proof fn lemma_dist_par_tame(label: Seq<char>, e: Seq<(String, usize)>)
    ensures
        tame(dist_par(label, e)),
{
    broadcast use lemma_tame_join;
    lemma_page_literals();
    lemma_esc_tame(label);
    lemma_esc_pairs_tame(e);
    lemma_tame_without_lt(Seq::<char>::empty());
}

proof fn lemma_editorial_item_tame(key: Seq<char>, v: Option<String>)
    ensures
        tame(editorial_item(key, v)),
{
    broadcast use lemma_tame_join;
    lemma_page_literals();
    lemma_esc_tame(key);
    lemma_tame_without_lt(Seq::<char>::empty());
    if let Some(s) = v {
        lemma_esc_tame(s@);
    }
}

proof fn lemma_summary_parts_tame(p: CollectionProfile)
    ensures
        tame(stats_par(p)),
        tame(dist_par("Strain"@, p.contract_mix.by_strain.entries@)),
        tame(dist_par("Level"@, p.contract_mix.by_level.entries@)),
        tame(dist_par("Declarer"@, p.contract_mix.by_declarer.entries@)),
        tame(editorial_par(p)),
{
    broadcast use lemma_tame_join;
    lemma_page_literals();
    let d = p.difficulty;
    let a = p.auction;
    lemma_decimal_tame(d.not_makeable as nat);
    lemma_decimal_tame(d.no_contract as nat);
    lemma_decimal_tame(d.incomplete as nat);
    lemma_one_decimal_tame(a.total_bids as nat, a.with_auction as nat);
    lemma_pct_str_tame(a.contested as nat, a.with_auction as nat);
    lemma_decimal_tame(a.total_doubles as nat);
    lemma_decimal_tame(a.double_of_final as nat);
    lemma_decimal_tame(a.with_high_bids as nat);
    lemma_tame_without_lt(Seq::<char>::empty());
    assert(tame(auction_sentence(p)));
    lemma_dist_par_tame("Strain"@, p.contract_mix.by_strain.entries@);
    lemma_dist_par_tame("Level"@, p.contract_mix.by_level.entries@);
    lemma_dist_par_tame("Declarer"@, p.contract_mix.by_declarer.entries@);
    match p.editorial {
        Some(ed) => {
            lemma_editorial_item_tame("Licensing"@, ed.licensing);
            lemma_editorial_item_tame("Audience"@, ed.intended_audience);
            lemma_editorial_item_tame("Commentary"@, ed.commentary_quality);
            lemma_editorial_item_tame("Notes"@, ed.notes);
        },
        None => {},
    }
}

/// What follows a section's opening `<h2>`.
pub open spec fn section_after_h2(p: CollectionProfile) -> Seq<char> {
    esc(p.collection@) + " <span class=\"sub\">("@ + decimal(p.deal_count as nat) + " deals)</span></h2>\n"@
        + stats_par(p) + dist_par("Strain"@, p.contract_mix.by_strain.entries@)
        + dist_par("Level"@, p.contract_mix.by_level.entries@)
        + dist_par("Declarer"@, p.contract_mix.by_declarer.entries@) + editorial_par(p) + section_tables(p)
}

/// A section is `<h2>` and then tame text.
#[verifier::rlimit(40)]
proof fn lemma_section_shape(p: CollectionProfile)
    ensures
        section(p) == "<h2>"@ + section_after_h2(p),
        tame(section_after_h2(p)),
{
    assert(section(p) =~= "<h2>"@ + section_after_h2(p)) by {
        reveal(section);
    }
    let l1 = " <span class=\"sub\">("@;
    let l2 = " deals)</span></h2>\n"@;
    let e = esc(p.collection@);
    let n = decimal(p.deal_count as nat);
    lemma_page_literals();
    lemma_esc_tame(p.collection@);
    lemma_decimal_tame(p.deal_count as nat);
    lemma_summary_parts_tame(p);
    lemma_section_tables_tame(p);
    let d1 = dist_par("Strain"@, p.contract_mix.by_strain.entries@);
    let d2 = dist_par("Level"@, p.contract_mix.by_level.entries@);
    let d3 = dist_par("Declarer"@, p.contract_mix.by_declarer.entries@);
    lemma_tame_join(e, l1);
    lemma_tame_join(e + l1, n);
    lemma_tame_join(e + l1 + n, l2);
    let x = e + l1 + n + l2;
    lemma_tame_join(x, stats_par(p));
    lemma_tame_join(x + stats_par(p), d1);
    lemma_tame_join(x + stats_par(p) + d1, d2);
    lemma_tame_join(x + stats_par(p) + d1 + d2, d3);
    lemma_tame_join(x + stats_par(p) + d1 + d2 + d3, editorial_par(p));
    lemma_tame_join(x + stats_par(p) + d1 + d2 + d3 + editorial_par(p), section_tables(p));
}

proof fn lemma_summary_rows_tame(ps: Seq<CollectionProfile>)
    ensures
        tame(summary_rows(ps)),
    decreases ps.len(),
{
    broadcast use lemma_tame_join;
    if ps.len() > 0 {
        lemma_summary_rows_tame(ps.drop_last());
        let p = ps.last();
        assert(tame(summary_row(p))) by {
            reveal(summary_row);
            lemma_page_literals();
            lemma_cells_tame();
            lemma_esc_tame(p.collection@);
        }
    } else {
        lemma_tame_without_lt(summary_rows(ps));
    }
}

/// The sections of `ps`, then `r`, hold one heading per collection more
/// than `r` does.
proof fn lemma_sections_count(ps: Seq<CollectionProfile>, r: Seq<char>)
    ensures
        h2_count(sections_listed(ps) + r) == ps.len() + h2_count(r),
    decreases ps.len(),
{
    if ps.len() > 0 {
        let rest = sections_listed(ps.drop_first()) + r;
        lemma_sections_count(ps.drop_first(), r);
        lemma_section_shape(ps[0]);
        assert(sections_listed(ps) + r =~= "<h2>"@ + section_after_h2(ps[0]) + rest);
        lemma_h2_opening(section_after_h2(ps[0]), rest);
    } else {
        assert(sections_listed(ps) + r =~= r);
    }
}

/// The part of the page that is generated from the collections: the summary
/// table, the sections and the document's close.
pub open spec fn generated_part(ps: Seq<CollectionProfile>) -> Seq<char> {
    summary_table(ps) + sections(ps) + "</main>\n</body>\n</html>\n"@
}

/// The page holds exactly one `<h2>` heading more than there are
/// collections: none in its fixed head (the doctype line and the preamble),
/// then the summary's and one per collection, each collection's section
/// opening with its own (see `lemma_page_frame` for their order).
pub proof fn lemma_page_headings(ps: Seq<CollectionProfile>)
    ensures
        page(ps) == DOCTYPE@ + PREAMBLE@ + generated_part(ps),
        h2_count(generated_part(ps)) == ps.len() + 1,
        h2_count(page(ps)) == ps.len() + 1,
{
    let close = "</main>\n</body>\n</html>\n"@;
    assert(page(ps) =~= DOCTYPE@ + PREAMBLE@ + generated_part(ps));
    lemma_page_frame(ps);
    lemma_page_literals();
    lemma_summary_rows_tame(ps);
    let t = HEAD_SUMMARY@.skip(4) + summary_rows(ps) + "</tbody>\n</table>\n"@;
    assert(tame(t)) by {
        broadcast use lemma_tame_join;
    }
    let after = sections(ps) + close;
    assert(generated_part(ps) =~= "<h2>"@ + t + after);
    lemma_h2_opening(t, after);
    lemma_sections_count(ps, close);
    lemma_h2_tame_head(close, Seq::<char>::empty());
    assert(close + Seq::<char>::empty() =~= close);
    assert(tame(DOCTYPE@ + PREAMBLE@)) by {
        broadcast use lemma_tame_join;
        lemma_preamble_tame();
        reveal_strlit("<!doctype html>\n");
        reveal_with_fuel(tame_from, 18);
        assert(tame_from(DOCTYPE@, 0));
        lemma_tame_from(DOCTYPE@, 0);
        assert(DOCTYPE@.skip(0) =~= DOCTYPE@);
    }
    lemma_h2_tame_head(DOCTYPE@ + PREAMBLE@, generated_part(ps));
}

/// The preamble opens no `<h2>`.
#[verifier::rlimit(100)]
proof fn lemma_preamble_tame()
    ensures
        tame(PREAMBLE@),
{
    reveal_strlit(r#"<html lang="en">
<head>
<meta charset="utf-8">
<meta name="viewport" content="width=device-width, initial-scale=1">
<title>deal-survey — collection difficulty report</title>
<style>
:root{--bg:#fbfbfa;--fg:#1a1a1a;--muted:#666;--line:#e3e3e0;--head:#f0f0ee;--zebra:#f6f6f4;}
@media (prefers-color-scheme:dark){:root{--bg:#16181c;--fg:#e6e6e6;--muted:#9aa0a6;--line:#2c2f36;--head:#20242b;--zebra:#1b1e24;}}
*{box-sizing:border-box}
body{margin:0;background:var(--bg);color:var(--fg);font:14px/1.5 -apple-system,BlinkMacSystemFont,"Segoe UI",Roboto,Helvetica,Arial,sans-serif;}
main{max-width:1100px;margin:0 auto;padding:24px 20px 64px;}
h1{font-size:24px;margin:0 0 4px;}
h2{font-size:19px;margin:34px 0 8px;padding-top:10px;border-top:1px solid var(--line);}
h3{font-size:15px;margin:20px 0 6px;color:var(--muted);text-transform:uppercase;letter-spacing:.04em;}
.sub{color:var(--muted);font-weight:400;font-size:.8em;}
.note,.stats,.dist,.editorial{color:var(--muted);font-size:13px;margin:6px 0;}
.dist strong{color:var(--fg);} .editorial strong{color:var(--fg);}
.wrap{overflow-x:auto;}
table.grid{border-collapse:collapse;width:100%;margin:8px 0 4px;font-variant-numeric:tabular-nums;}
table.grid th,table.grid td{padding:5px 9px;border-bottom:1px solid var(--line);text-align:right;white-space:nowrap;}
table.grid th{position:sticky;top:0;background:var(--head);text-align:right;font-weight:600;font-size:12px;}
table.grid td.name,table.grid th:first-child{text-align:left;}
table.grid td.name{font-weight:500;}
table.grid td.topic{text-align:left;color:var(--muted);font-size:12px;}
table.grid tbody tr:nth-child(even){background:var(--zebra);}
td.num{text-align:right;}
td.heat{font-weight:600;border-radius:3px;}
table.grid tr.cat td{background:var(--head);font-weight:700;border-top:2px solid var(--line);}
table.grid td.catname{text-align:left;letter-spacing:.02em;}
table.grid td.name.indent{padding-left:22px;font-weight:400;}
</style>
</head>
<body>
<main>
<h1>Lesson-collection difficulty report</h1>
<p class="note">Cardplay ladder 0 cash-out · 1 establish · 2 single technique · 3 timing/entries · 4 advanced (squeeze/endplay). Bidding 0 natural · 1 fundamental · 2 gadget · 3 upper-intermediate · 4 advanced · 5 expert. <em>comb</em> columns = topic baseline nudged by observed difficulty.</p>
"#);
    reveal_with_fuel(tame_from, 32);
    assert(tame_from(PREAMBLE@, 2310));
    assert(tame_from(PREAMBLE@, 2280));
    assert(tame_from(PREAMBLE@, 2250));
    assert(tame_from(PREAMBLE@, 2220));
    assert(tame_from(PREAMBLE@, 2190));
    assert(tame_from(PREAMBLE@, 2160));
    assert(tame_from(PREAMBLE@, 2130));
    assert(tame_from(PREAMBLE@, 2100));
    assert(tame_from(PREAMBLE@, 2070));
    assert(tame_from(PREAMBLE@, 2040));
    assert(tame_from(PREAMBLE@, 2010));
    assert(tame_from(PREAMBLE@, 1980));
    assert(tame_from(PREAMBLE@, 1950));
    assert(tame_from(PREAMBLE@, 1920));
    assert(tame_from(PREAMBLE@, 1890));
    assert(tame_from(PREAMBLE@, 1860));
    assert(tame_from(PREAMBLE@, 1830));
    assert(tame_from(PREAMBLE@, 1800));
    assert(tame_from(PREAMBLE@, 1770));
    assert(tame_from(PREAMBLE@, 1740));
    assert(tame_from(PREAMBLE@, 1710));
    assert(tame_from(PREAMBLE@, 1680));
    assert(tame_from(PREAMBLE@, 1650));
    assert(tame_from(PREAMBLE@, 1620));
    assert(tame_from(PREAMBLE@, 1590));
    assert(tame_from(PREAMBLE@, 1560));
    assert(tame_from(PREAMBLE@, 1530));
    assert(tame_from(PREAMBLE@, 1500));
    assert(tame_from(PREAMBLE@, 1470));
    assert(tame_from(PREAMBLE@, 1440));
    assert(tame_from(PREAMBLE@, 1410));
    assert(tame_from(PREAMBLE@, 1380));
    assert(tame_from(PREAMBLE@, 1350));
    assert(tame_from(PREAMBLE@, 1320));
    assert(tame_from(PREAMBLE@, 1290));
    assert(tame_from(PREAMBLE@, 1260));
    assert(tame_from(PREAMBLE@, 1230));
    assert(tame_from(PREAMBLE@, 1200));
    assert(tame_from(PREAMBLE@, 1170));
    assert(tame_from(PREAMBLE@, 1140));
    assert(tame_from(PREAMBLE@, 1110));
    assert(tame_from(PREAMBLE@, 1080));
    assert(tame_from(PREAMBLE@, 1050));
    assert(tame_from(PREAMBLE@, 1020));
    assert(tame_from(PREAMBLE@, 990));
    assert(tame_from(PREAMBLE@, 960));
    assert(tame_from(PREAMBLE@, 930));
    assert(tame_from(PREAMBLE@, 900));
    assert(tame_from(PREAMBLE@, 870));
    assert(tame_from(PREAMBLE@, 840));
    assert(tame_from(PREAMBLE@, 810));
    assert(tame_from(PREAMBLE@, 780));
    assert(tame_from(PREAMBLE@, 750));
    assert(tame_from(PREAMBLE@, 720));
    assert(tame_from(PREAMBLE@, 690));
    assert(tame_from(PREAMBLE@, 660));
    assert(tame_from(PREAMBLE@, 630));
    assert(tame_from(PREAMBLE@, 600));
    assert(tame_from(PREAMBLE@, 570));
    assert(tame_from(PREAMBLE@, 540));
    assert(tame_from(PREAMBLE@, 510));
    assert(tame_from(PREAMBLE@, 480));
    assert(tame_from(PREAMBLE@, 450));
    assert(tame_from(PREAMBLE@, 420));
    assert(tame_from(PREAMBLE@, 390));
    assert(tame_from(PREAMBLE@, 360));
    assert(tame_from(PREAMBLE@, 330));
    assert(tame_from(PREAMBLE@, 300));
    assert(tame_from(PREAMBLE@, 270));
    assert(tame_from(PREAMBLE@, 240));
    assert(tame_from(PREAMBLE@, 210));
    assert(tame_from(PREAMBLE@, 180));
    assert(tame_from(PREAMBLE@, 150));
    assert(tame_from(PREAMBLE@, 120));
    assert(tame_from(PREAMBLE@, 90));
    assert(tame_from(PREAMBLE@, 60));
    assert(tame_from(PREAMBLE@, 30));
    assert(tame_from(PREAMBLE@, 0));
    lemma_tame_from(PREAMBLE@, 0);
    assert(PREAMBLE@.skip(0) =~= PREAMBLE@);
}

} // verus!
