//! The text report over collection profiles: a comparative table (percentages
//! derived from the counts) and a detail block per collection, collections in
//! order of name.

use vstd::prelude::*;
use crate::lessons::{strip_prefix, strip_prefix_spec, strip_suffix, strip_suffix_spec};
use crate::numfmt::{
    mean_cell, mean_cell_text, pad_left, pad_right, pct_cell, pct_cell_text, push_left,
    push_one_decimal, push_right, one_decimal,
};
use crate::profile::{CollectionProfile, Editorial, StatsMap, TopicStats};
use crate::sorted_map::CountMap;
use crate::text::{
    chars_of, decimal, is_prefix, last_index, lex_lt, push_char, push_chars, push_decimal,
    push_str, rfind_char, slice_chars, starts_with_chars, string_of, string_less, owned,
    lemma_lex_trichotomy, lemma_lex_transitive,
};

verus! {

broadcast use vstd::string::group_string_axioms;

// ---------------------------------------------------------------------------
// Byte-limited truncation
// ---------------------------------------------------------------------------

/// The number of bytes of `c` in UTF-8.
pub open spec fn utf8_width(c: char) -> nat {
    if (c as u32) < 0x80 {
        1
    } else if (c as u32) < 0x800 {
        2
    } else if (c as u32) < 0x10000 {
        3
    } else {
        4
    }
}

/// The number of bytes of `s` in UTF-8.
pub open spec fn byte_len(s: Seq<char>) -> nat
    decreases s.len(),
{
    if s.len() == 0 { 0 } else { byte_len(s.drop_last()) + utf8_width(s.last()) }
}

/// Whether some prefix of `s` is exactly `k` bytes long.
pub open spec fn cuts_at(s: Seq<char>, k: nat) -> bool {
    exists|i: int| 0 <= i <= s.len() && byte_len(s.take(i)) == k
}

/// Whether `s` can be cut to `n` bytes: it fits, or `n ≥ 1` and byte
/// `n − 1` starts a character (a cut inside a character is an error).
pub open spec fn truncatable(s: Seq<char>, n: nat) -> bool {
    byte_len(s) <= n || (n >= 1 && cuts_at(s, (n - 1) as nat))
}

/// `s` limited to `n` bytes: unchanged when it fits, else its first `n − 1`
/// bytes and an ellipsis.
pub open spec fn truncated(s: Seq<char>, n: nat) -> Seq<char> {
    if byte_len(s) <= n {
        s
    } else {
        s.take(choose|i: int| 0 <= i <= s.len() && byte_len(s.take(i)) == n - 1) + seq!['…']
    }
}

proof fn lemma_byte_len_step(s: Seq<char>, i: int)
    requires
        0 <= i < s.len(),
    ensures
        byte_len(s.take(i + 1)) == byte_len(s.take(i)) + utf8_width(s[i]),
{
    assert(s.take(i + 1).drop_last() =~= s.take(i));
}

proof fn lemma_byte_len_grows(s: Seq<char>, i: int, j: int)
    requires
        0 <= i <= j <= s.len(),
    ensures
        byte_len(s.take(i)) + (j - i) <= byte_len(s.take(j)),
    decreases j - i,
{
    if i < j {
        lemma_byte_len_grows(s, i, j - 1);
        lemma_byte_len_step(s, j - 1);
    }
}

proof fn lemma_byte_len_whole(s: Seq<char>)
    ensures
        byte_len(s.take(s.len() as int)) == byte_len(s),
{
    assert(s.take(s.len() as int) =~= s);
}

proof fn lemma_ascii_bytes(s: Seq<char>, i: int)
    requires
        0 <= i <= s.len(),
        forall|j: int| 0 <= j < s.len() ==> (#[trigger] s[j] as u32) < 0x80,
    ensures
        byte_len(s.take(i)) == i,
    decreases i,
{
    if i > 0 {
        lemma_ascii_bytes(s, i - 1);
        lemma_byte_len_step(s, i - 1);
    }
}

/// An ASCII name can always be cut to a column of `n ≥ 1` characters: it is
/// kept when it fits, else its first `n − 1` characters and an ellipsis fill
/// the column exactly.
pub proof fn lemma_ascii_truncation(s: Seq<char>, n: nat)
    requires
        n >= 1,
        forall|j: int| 0 <= j < s.len() ==> (#[trigger] s[j] as u32) < 0x80,
    ensures
        truncatable(s, n),
        s.len() <= n ==> truncated(s, n) == s,
        s.len() > n ==> truncated(s, n) == s.take(n - 1) + seq!['…'],
        truncated(s, n).len() <= n,
{
    lemma_ascii_bytes(s, s.len() as int);
    lemma_byte_len_whole(s);
    if s.len() > n {
        lemma_ascii_bytes(s, n - 1);
        let j = choose|i: int| 0 <= i <= s.len() && byte_len(s.take(i)) == n - 1;
        lemma_ascii_bytes(s, j);
    }
}

fn utf8_width_of(c: char) -> (w: u128)
    ensures
        w == utf8_width(c),
{
    let v = c as u32;
    if v < 0x80 {
        1
    } else if v < 0x800 {
        2
    } else if v < 0x10000 {
        3
    } else {
        4
    }
}

/// Limits `s` to `n` bytes, as `truncated` says.
#[verifier::rlimit(40)]
pub fn truncate(s: &str, n: usize) -> (r: String)
    requires
        truncatable(s@, n as nat),
    ensures
        r@ == truncated(s@, n as nat),
{
    let cs = chars_of(s);
    let mut total: u128 = 0;
    let mut i: usize = 0;
    while i < cs.len()
        invariant
            i <= cs.len(),
            cs@ == s@,
            total == byte_len(cs@.take(i as int)),
            total <= 4 * i,
        decreases cs.len() - i,
    {
        proof {
            lemma_byte_len_step(cs@, i as int);
        }
        total = total + utf8_width_of(cs[i]);
        i = i + 1;
    }
    proof {
        lemma_byte_len_whole(cs@);
    }
    if total <= n as u128 {
        return owned(s);
    }
    let limit: u128 = (n - 1) as u128;
    let mut k: usize = 0;
    let mut b: u128 = 0;
    assert(cs@.take(0) =~= Seq::<char>::empty());
    while b < limit
        invariant
            k <= cs.len(),
            cs@ == s@,
            b == byte_len(cs@.take(k as int)),
            total == byte_len(cs@),
            limit < total,
            limit == n - 1,
            k > 0 ==> byte_len(cs@.take(k - 1)) < limit,
            b <= 4 * k,
        decreases cs.len() - k,
    {
        if k == cs.len() {
            proof {
                lemma_byte_len_whole(cs@);
            }
            assert(false);
        }
        proof {
            lemma_byte_len_step(cs@, k as int);
        }
        b = b + utf8_width_of(cs[k]);
        k = k + 1;
    }
    let ghost j = choose|i: int| 0 <= i <= s@.len() && byte_len(s@.take(i)) == n - 1;
    proof {
        if j < k {
            lemma_byte_len_grows(cs@, j, k - 1);
        } else if j > k {
            lemma_byte_len_grows(cs@, k as int, j);
        }
        assert(j == k);
    }
    let head = slice_chars(&cs, 0, k);
    let mut r = string_of(&head);
    push_char(&mut r, '…');
    assert(r@ =~= truncated(s@, n as nat));
    r
}

/// Checks `truncatable(s, n)`.
#[verifier::rlimit(40)]
pub fn is_truncatable(s: &str, n: usize) -> (ok: bool)
    ensures
        ok == truncatable(s@, n as nat),
{
    if n == 0 {
        let cs = chars_of(s);
        proof {
            lemma_byte_len_grows(s@, 0, s@.len() as int);
            lemma_byte_len_whole(s@);
            assert(s@.take(0) =~= Seq::<char>::empty());
            if s@.len() == 0 {
                assert(s@ =~= Seq::<char>::empty());
            }
        }
        return cs.len() == 0;
    }
    let cs = chars_of(s);
    let mut k: usize = 0;
    let mut b: u128 = 0;
    let limit: u128 = (n - 1) as u128;
    assert(cs@.take(0) =~= Seq::<char>::empty());
    while k < cs.len() && b < limit
        invariant
            k <= cs.len(),
            cs@ == s@,
            b == byte_len(cs@.take(k as int)),
            limit == n - 1,
            k > 0 ==> byte_len(cs@.take(k - 1)) < limit,
            b <= 4 * k,
        decreases cs.len() - k,
    {
        proof {
            lemma_byte_len_step(cs@, k as int);
        }
        b = b + utf8_width_of(cs[k]);
        k = k + 1;
    }
    if b == limit {
        assert(cuts_at(s@, (n - 1) as nat));
        return true;
    }
    // No prefix is exactly n − 1 bytes long.
    proof {
        assert forall|j: int| 0 <= j <= s@.len() implies byte_len(s@.take(j)) != n - 1 by {
            if j < k {
                lemma_byte_len_grows(cs@, j, k - 1);
            } else if j > k {
                lemma_byte_len_grows(cs@, k as int, j);
            }
        }
    }
    if k < cs.len() {
        // b > n − 1 already, so the whole string is longer than n − 1 bytes.
        let mut total = b;
        let mut i = k;
        while i < cs.len()
            invariant
                k <= i <= cs.len(),
                cs@ == s@,
                total == byte_len(cs@.take(i as int)),
                total <= 4 * i,
                b <= total,
            decreases cs.len() - i,
        {
            proof {
                lemma_byte_len_step(cs@, i as int);
            }
            total = total + utf8_width_of(cs[i]);
            i = i + 1;
        }
        proof {
            lemma_byte_len_whole(cs@);
        }
        total <= n as u128
    } else {
        proof {
            lemma_byte_len_whole(cs@);
        }
        b <= n as u128
    }
}

// ---------------------------------------------------------------------------
// Labels and distributions
// ---------------------------------------------------------------------------

/// The part of `s` after its last `/`.
pub open spec fn basename(s: Seq<char>) -> Seq<char> {
    match last_index(s, '/') {
        Some(i) => s.subrange(i + 1, s.len() as int),
        None => s,
    }
}

/// The readable label of a lesson key: its last path part without `.pbn`,
/// without a leading "Baker Bridge " (else "thinking-bridge-"), and without a
/// trailing " practice deals".
pub open spec fn lesson_label(key: Seq<char>) -> Seq<char> {
    let base = strip_suffix_spec(basename(key), ".pbn"@);
    let base = if is_prefix("Baker Bridge "@, base) {
        strip_prefix_spec(base, "Baker Bridge "@)
    } else {
        strip_prefix_spec(base, "thinking-bridge-"@)
    };
    strip_suffix_spec(base, " practice deals"@)
}

/// The basename of a path.
pub fn basename_of(s: &Vec<char>) -> (r: Vec<char>)
    ensures
        r@ == basename(s@),
{
    match rfind_char(s, '/') {
        Some(i) => slice_chars(s, i + 1, s.len()),
        None => {
            let r = slice_chars(s, 0, s.len());
            assert(r@ =~= s@);
            r
        },
    }
}

/// Builds `lesson_label(key)`.
pub fn lesson_label_text(key: &String) -> (r: String)
    ensures
        r@ == lesson_label(key@),
{
    let k = chars_of(key.as_str());
    let base = strip_suffix(basename_of(&k), ".pbn");
    let baker = chars_of("Baker Bridge ");
    let base = if starts_with_chars(&base, &baker) {
        strip_prefix(base, "Baker Bridge ")
    } else {
        strip_prefix(base, "thinking-bridge-")
    };
    let label = strip_suffix(base, " practice deals");
    string_of(&label)
}

/// `key:count` pairs of a count map, two spaces apart.
pub open spec fn count_pairs(e: Seq<(String, usize)>) -> Seq<char>
    decreases e.len(),
{
    if e.len() == 0 {
        seq![]
    } else if e.len() == 1 {
        e[0].0@ + seq![':'] + decimal(e[0].1 as nat)
    } else {
        count_pairs(e.drop_last()) + seq![' ', ' '] + e.last().0@ + seq![':'] + decimal(e.last().1 as nat)
    }
}

/// Appends `count_pairs` of the entries.
#[verifier::rlimit(40)]
pub fn push_count_pairs(out: &mut String, e: &Vec<(String, usize)>)
    ensures
        final(out)@ == old(out)@ + count_pairs(e@),
{
    let ghost start = out@;
    let mut i: usize = 0;
    assert(e@.take(0) =~= Seq::<(String, usize)>::empty());
    while i < e.len()
        invariant
            i <= e.len(),
            out@ == start + count_pairs(e@.take(i as int)),
            start == old(out)@,
        decreases e.len() - i,
    {
        if i > 0 {
            push_str(out, "  ");
            proof {
                reveal_strlit("  ");
            }
        }
        push_str(out, e[i].0.as_str());
        push_char(out, ':');
        push_decimal(out, e[i].1 as u64);
        proof {
            let t = e@.take(i + 1);
            assert(t.drop_last() =~= e@.take(i as int));
            assert(t.last() == e@[i as int]);
            if i == 0 {
                assert(t.len() == 1 && t[0] == e@[0]);
            }
        }
        i = i + 1;
        assert(out@ =~= start + count_pairs(e@.take(i as int)));
    }
    assert(e@.take(e.len() as int) =~= e@);
}

/// A distribution line: the label, `: ` and the pairs; nothing for an empty
/// map.
pub open spec fn dist_line(label: Seq<char>, e: Seq<(String, usize)>) -> Seq<char> {
    if e.len() == 0 { seq![] } else { label + seq![':', ' '] + count_pairs(e) + seq!['\n'] }
}

/// Appends `dist_line(label, m)`.
#[verifier::rlimit(40)]
pub fn push_dist(out: &mut String, label: &str, m: &CountMap)
    ensures
        final(out)@ == old(out)@ + dist_line(label@, m.entries@),
{
    if m.entries.len() == 0 {
        assert(out@ =~= old(out)@ + dist_line(label@, m.entries@));
        return;
    }
    push_str(out, label);
    push_char(out, ':');
    push_char(out, ' ');
    push_count_pairs(out, &m.entries);
    push_char(out, '\n');
    assert(out@ =~= old(out)@ + dist_line(label@, m.entries@));
}

// ---------------------------------------------------------------------------
// Columns of the table
// ---------------------------------------------------------------------------

/// A column: one space, then `s` right-aligned in `w` characters.
pub open spec fn col(s: Seq<char>, w: nat) -> Seq<char> {
    seq![' '] + pad_left(s, w)
}

/// A column separator.
pub open spec fn bar() -> Seq<char> {
    seq![' ', '|']
}

#[verifier::rlimit(40)]
fn push_col(out: &mut String, s: &str, w: usize)
    ensures
        final(out)@ == old(out)@ + col(s@, w as nat),
{
    push_char(out, ' ');
    push_left(out, s, w);
    assert(out@ =~= old(out)@ + col(s@, w as nat));
}

#[verifier::rlimit(40)]
fn push_num_col(out: &mut String, n: u128, w: usize)
    ensures
        final(out)@ == old(out)@ + col(decimal(n as nat), w as nat),
{
    let t = crate::numfmt::number_text(n);
    push_col(out, t.as_str(), w);
}

#[verifier::rlimit(40)]
fn push_bar(out: &mut String)
    ensures
        final(out)@ == old(out)@ + bar(),
{
    push_char(out, ' ');
    push_char(out, '|');
    assert(out@ =~= old(out)@ + bar());
}

/// The count of the first entry with key `k` (0 when there is none).
pub open spec fn first_count(e: Seq<(String, usize)>, k: Seq<char>) -> nat
    decreases e.len(),
{
    if e.len() == 0 {
        0
    } else if e[0].0@ == k {
        e[0].1 as nat
    } else {
        first_count(e.drop_first(), k)
    }
}

/// Looks up `first_count(e, k)`.
pub fn count_for(e: &Vec<(String, usize)>, k: &str) -> (n: usize)
    ensures
        n == first_count(e@, k@),
{
    let mut i: usize = 0;
    assert(e@.skip(0) =~= e@);
    while i < e.len()
        invariant
            i <= e.len(),
            first_count(e@, k@) == first_count(e@.skip(i as int), k@),
        decreases e.len() - i,
    {
        if crate::text::str_eq(e[i].0.as_str(), k) {
            return e[i].1;
        }
        assert(e@.skip(i as int).drop_first() =~= e@.skip(i + 1));
        i = i + 1;
    }
    0
}

/// Deals with a making designated contract: the ladder's domain.
pub open spec fn makeable(p: CollectionProfile) -> nat {
    (p.difficulty.cash_out_0 + p.difficulty.establish_1 + p.difficulty.technique_2
        + p.difficulty.unclassified) as nat
}

/// Computes `makeable(p)`.
pub fn makeable_of(p: &CollectionProfile) -> (n: u128)
    ensures
        n == makeable(*p),
        n < 0x1_0000_0000_0000_0000_0000,
{
    let d = &p.difficulty;
    d.cash_out_0 as u128 + d.establish_1 as u128 + d.technique_2 as u128 + d.unclassified as u128
}

// ---------------------------------------------------------------------------
// The comparative table
// ---------------------------------------------------------------------------

/// The table's heading line.
pub open spec fn table_header() -> Seq<char> {
    "collection                deals  mkbl |    L0    L1    L2  uncl |   auc   cmt  xcon |   fin  ruff\n"@
}

/// The rule under the heading: a hundred dashes.
pub open spec fn table_rule() -> Seq<char> {
    Seq::new(100, |i: int| '-') + seq!['\n']
}

/// The legend under the table.
pub open spec fn table_legend() -> Seq<char> {
    "\nL0 cash-out · L1 establish · L2 single-technique · uncl unclassified (% of makeable)\nauc/cmt/xcon = % of deals with auction / commentary / explicit contract\n"@
}

/// The start of a collection's row: name, deals and the makeable share.
pub open spec fn row_head(p: CollectionProfile) -> Seq<char> {
    let n = p.deal_count as nat;
    pad_right(truncated(p.collection@, 24), 24) + col(decimal(n), 6) + col(pct_cell(makeable(p), n), 5)
}

/// The ladder levels as shares of the makeable deals.
pub open spec fn row_ladder(p: CollectionProfile) -> Seq<char> {
    let mk = makeable(p);
    let d = p.difficulty;
    bar() + col(pct_cell(d.cash_out_0 as nat, mk), 5) + col(pct_cell(d.establish_1 as nat, mk), 5)
        + col(pct_cell(d.technique_2 as nat, mk), 5) + col(pct_cell(d.unclassified as nat, mk), 5)
}

/// Structural coverage as shares of all deals.
pub open spec fn row_coverage(p: CollectionProfile) -> Seq<char> {
    let n = p.deal_count as nat;
    let s = p.structural;
    bar() + col(pct_cell(s.with_auction as nat, n), 5) + col(pct_cell(s.with_commentary as nat, n), 5)
        + col(pct_cell(s.with_explicit_contract as nat, n), 5)
}

/// How often the finesse and ruff probes fired, and the line's end.
pub open spec fn row_probes(p: CollectionProfile) -> Seq<char> {
    bar() + col(decimal(first_count(p.techniques.entries@, "finesse"@)), 5)
        + col(decimal(first_count(p.techniques.entries@, "ruff"@)), 5) + seq!['\n']
}

/// One collection's row of the table.
#[verifier::opaque]
pub open spec fn table_row(p: CollectionProfile) -> Seq<char> {
    row_head(p) + row_ladder(p) + row_coverage(p) + row_probes(p)
}

#[verifier::rlimit(40)]
fn push_pct_col(out: &mut String, n: u128, d: u128, w: usize)
    requires
        n < 0x1_0000_0000_0000_0000_0000,
        d < 0x1_0000_0000_0000_0000_0000,
    ensures
        final(out)@ == old(out)@ + col(pct_cell(n as nat, d as nat), w as nat),
{
    let t = pct_cell_text(n, d);
    push_col(out, t.as_str(), w);
}

#[verifier::rlimit(40)]
fn push_row_head(out: &mut String, p: &CollectionProfile)
    requires
        truncatable(p.collection@, 24),
    ensures
        final(out)@ == old(out)@ + row_head(*p),
{
    let n = p.deal_count as u128;
    let name = truncate(p.collection.as_str(), 24);
    push_right(out, name.as_str(), 24);
    push_num_col(out, n, 6);
    push_pct_col(out, makeable_of(p), n, 5);
    assert(out@ =~= old(out)@ + row_head(*p));
}

#[verifier::rlimit(40)]
fn push_row_ladder(out: &mut String, p: &CollectionProfile)
    ensures
        final(out)@ == old(out)@ + row_ladder(*p),
{
    let mk = makeable_of(p);
    let d = &p.difficulty;
    push_bar(out);
    push_pct_col(out, d.cash_out_0 as u128, mk, 5);
    push_pct_col(out, d.establish_1 as u128, mk, 5);
    push_pct_col(out, d.technique_2 as u128, mk, 5);
    push_pct_col(out, d.unclassified as u128, mk, 5);
    assert(out@ =~= old(out)@ + row_ladder(*p));
}

#[verifier::rlimit(40)]
fn push_row_coverage(out: &mut String, p: &CollectionProfile)
    ensures
        final(out)@ == old(out)@ + row_coverage(*p),
{
    let n = p.deal_count as u128;
    let s = &p.structural;
    push_bar(out);
    push_pct_col(out, s.with_auction as u128, n, 5);
    push_pct_col(out, s.with_commentary as u128, n, 5);
    push_pct_col(out, s.with_explicit_contract as u128, n, 5);
    assert(out@ =~= old(out)@ + row_coverage(*p));
}

#[verifier::rlimit(40)]
fn push_row_probes(out: &mut String, p: &CollectionProfile)
    ensures
        final(out)@ == old(out)@ + row_probes(*p),
{
    let fin = count_for(&p.techniques.entries, "finesse");
    let ruff = count_for(&p.techniques.entries, "ruff");
    push_bar(out);
    push_num_col(out, fin as u128, 5);
    push_num_col(out, ruff as u128, 5);
    push_char(out, '\n');
    assert(out@ =~= old(out)@ + row_probes(*p));
}

#[verifier::rlimit(40)]
fn push_table_row(out: &mut String, p: &CollectionProfile)
    requires
        truncatable(p.collection@, 24),
    ensures
        final(out)@ == old(out)@ + table_row(*p),
{
    push_row_head(out, p);
    push_row_ladder(out, p);
    push_row_coverage(out, p);
    push_row_probes(out, p);
    proof {
        reveal(table_row);
    }
    assert(out@ =~= old(out)@ + table_row(*p));
}

/// The rows of the collections in order `ord`.
pub open spec fn table_rows(ps: Seq<CollectionProfile>, ord: Seq<usize>) -> Seq<char>
    decreases ord.len(),
{
    if ord.len() == 0 {
        seq![]
    } else {
        table_rows(ps, ord.drop_last()) + table_row(ps[ord.last() as int])
    }
}

/// The whole table over the collections in order `ord`.
pub open spec fn table_text(ps: Seq<CollectionProfile>, ord: Seq<usize>) -> Seq<char> {
    table_header() + table_rule() + table_rows(ps, ord) + table_legend()
}

// ---------------------------------------------------------------------------
// The detail block
// ---------------------------------------------------------------------------

/// The heading of a collection's detail block.
pub open spec fn detail_head(p: CollectionProfile) -> Seq<char> {
    "\n=== "@ + p.collection@ + " ("@ + decimal(p.deal_count as nat) + " deals) ===\n"@
}

/// The deals kept off the ladder, when there are any.
pub open spec fn excluded_line(p: CollectionProfile) -> Seq<char> {
    let d = p.difficulty;
    if d.not_makeable + d.no_contract + d.incomplete > 0 {
        "  excluded from ladder: not-makeable "@ + decimal(d.not_makeable as nat) + "  no-contract "@
            + decimal(d.no_contract as nat) + "  incomplete "@ + decimal(d.incomplete as nat) + seq!['\n']
    } else {
        seq![]
    }
}

/// The first half of the auction line: mean bids and contested share.
pub open spec fn auction_bids(p: CollectionProfile) -> Seq<char> {
    let a = p.auction;
    "  auction : "@ + one_decimal(a.total_bids as nat, a.with_auction as nat) + " bids avg  ·  contested "@
        + pct_cell(a.contested as nat, a.with_auction as nat)
}

/// The second half of the auction line: doubles and high bids.
pub open spec fn auction_doubles(p: CollectionProfile) -> Seq<char> {
    let a = p.auction;
    "  ·  doubles "@ + decimal(a.total_doubles as nat) + " ("@ + decimal(a.with_doubles as nat) + " deals, "@
        + decimal(a.double_of_final as nat) + " final-dbl)  ·  high-bids "@ + decimal(a.total_high_bids as nat)
        + " ("@ + decimal(a.with_high_bids as nat) + " deals)\n"@
}

/// The auction proxies over deals with an auction, when there are any.
pub open spec fn auction_line(p: CollectionProfile) -> Seq<char> {
    if p.auction.with_auction > 0 { auction_bids(p) + auction_doubles(p) } else { seq![] }
}

/// The contract mix and the probes that fired.
pub open spec fn mix_lines(p: CollectionProfile) -> Seq<char> {
    dist_line("  strain "@, p.contract_mix.by_strain.entries@) + dist_line("  level  "@, p.contract_mix.by_level.entries@)
        + dist_line("  declarer"@, p.contract_mix.by_declarer.entries@) + dist_line("  fired  "@, p.techniques.entries@)
}

/// The observed-ladder columns shared by topic and lesson rows.
pub open spec fn observed_cols(t: TopicStats) -> Seq<char> {
    bar() + col(decimal(t.observed_cardplay@[0] as nat), 4) + col(decimal(t.observed_cardplay@[1] as nat), 4)
        + col(decimal(t.observed_cardplay@[2] as nat), 4) + col(decimal(t.not_makeable as nat), 5) + bar()
}

/// The name column of a topic's row.
pub open spec fn topic_name_col(name: Seq<char>) -> Seq<char> {
    "    "@ + pad_right(truncated(name, 28), 28)
}

/// The deals and authored-baseline columns of a topic's row.
pub open spec fn topic_base_cols(t: TopicStats) -> Seq<char> {
    col(decimal(t.deal_count as nat), 5) + col(decimal(t.baseline_bidding as nat), 4) + seq!['/']
        + pad_right(decimal(t.baseline_cardplay as nat), 4)
}

/// The start of a topic's row: name, deals and the authored baselines.
pub open spec fn topic_row_start(name: Seq<char>, t: TopicStats) -> Seq<char> {
    topic_name_col(name) + topic_base_cols(t)
}

/// The combined bidding and cardplay means, and the line's end.
pub open spec fn topic_row_end(t: TopicStats) -> Seq<char> {
    col(mean_cell(t.combined_bidding_sum as nat, t.combined_bidding_n as nat), 7)
        + col(mean_cell(t.combined_cardplay_sum as nat, t.combined_cardplay_n as nat), 7) + seq!['\n']
}

/// One topic's row.
pub open spec fn topic_row(name: Seq<char>, t: TopicStats) -> Seq<char> {
    topic_row_start(name, t) + observed_cols(t) + topic_row_end(t)
}

/// The topic rows, in map order.
pub open spec fn topic_rows(e: Seq<(String, TopicStats)>) -> Seq<char>
    decreases e.len(),
{
    if e.len() == 0 { seq![] } else { topic_rows(e.drop_last()) + topic_row(e.last().0@, e.last().1) }
}

/// The per-topic table, when there is a topic breakdown.
pub open spec fn topics_block(p: CollectionProfile) -> Seq<char> {
    match p.by_topic {
        Some(t) => "  topics (baseline prior vs observed, + combined difficulty):\n"@
            + "    topic                        deals base b/cp |   L0   L1   L2  n-mk | comb-bid comb-cp\n"@
            + topic_rows(t.entries@)
            + "    (base b/cp = authored bidding/cardplay baseline; comb = baseline ± observed level, mean)\n"@,
        None => seq![],
    }
}

/// The start of a lesson's row: its label and deals.
pub open spec fn lesson_row_start(key: Seq<char>, t: TopicStats) -> Seq<char> {
    "    "@ + pad_right(truncated(lesson_label(key), 34), 34) + col(decimal(t.deal_count as nat), 5)
}

/// The combined cardplay and bidding means, then the topic.
pub open spec fn lesson_row_end(t: TopicStats) -> Seq<char> {
    col(mean_cell(t.combined_cardplay_sum as nat, t.combined_cardplay_n as nat), 7)
        + col(mean_cell(t.combined_bidding_sum as nat, t.combined_bidding_n as nat), 7) + seq![' ', ' ']
        + t.topic@ + seq!['\n']
}

/// One lesson's row.
pub open spec fn lesson_row(key: Seq<char>, t: TopicStats) -> Seq<char> {
    lesson_row_start(key, t) + observed_cols(t) + lesson_row_end(t)
}

/// The rows of the lessons of category `cat`, in map order.
pub open spec fn lesson_rows(e: Seq<(String, TopicStats)>, cat: Seq<char>) -> Seq<char>
    decreases e.len(),
{
    if e.len() == 0 {
        seq![]
    } else {
        lesson_rows(e.drop_last(), cat) + if e.last().1.category@ == cat {
            lesson_row(e.last().0@, e.last().1)
        } else {
            seq![]
        }
    }
}

/// A category's rollup line.
pub open spec fn category_line(cat: Seq<char>, roll: TopicStats) -> Seq<char> {
    "  ▸ "@ + cat + "  ("@ + decimal(roll.deal_count as nat) + " deals, cp "@
        + mean_cell(roll.combined_cardplay_sum as nat, roll.combined_cardplay_n as nat) + ", bid "@
        + mean_cell(roll.combined_bidding_sum as nat, roll.combined_bidding_n as nat) + ")\n"@
}

/// Each category's line followed by its lessons, categories in map order.
pub open spec fn category_sections(cats: Seq<(String, TopicStats)>, lessons: Seq<(String, TopicStats)>) -> Seq<char>
    decreases cats.len(),
{
    if cats.len() == 0 {
        seq![]
    } else {
        category_sections(cats.drop_last(), lessons) + category_line(cats.last().0@, cats.last().1)
            + lesson_rows(lessons, cats.last().0@)
    }
}

/// The per-lesson table grouped by category, when there are lessons.
pub open spec fn lessons_block(p: CollectionProfile) -> Seq<char> {
    if p.by_lesson.entries@.len() == 0 {
        seq![]
    } else {
        "  lessons by category (navigation order):\n"@
            + "    lesson                             deals |   L0   L1   L2  n-mk | comb-cp comb-bid  topic\n"@
            + category_sections(p.by_category.entries@, p.by_lesson.entries@)
    }
}

/// One editorial line, when the field is set.
pub open spec fn editorial_line(key: Seq<char>, v: Option<String>) -> Seq<char> {
    match v {
        Some(s) => "    "@ + key + ": "@ + s@ + seq!['\n'],
        None => seq![],
    }
}

/// The editorial metadata, when there is any.
pub open spec fn editorial_block(p: CollectionProfile) -> Seq<char> {
    match p.editorial {
        Some(ed) => "  editorial:\n"@ + editorial_line("licensing"@, ed.licensing)
            + editorial_line("audience"@, ed.intended_audience)
            + editorial_line("commentary"@, ed.commentary_quality) + editorial_line("notes"@, ed.notes),
        None => seq![],
    }
}

/// The summary lines of a detail block.
pub open spec fn detail_summary(p: CollectionProfile) -> Seq<char> {
    detail_head(p) + excluded_line(p) + auction_line(p) + mix_lines(p)
}

/// The tables and editorial lines of a detail block.
pub open spec fn detail_tables(p: CollectionProfile) -> Seq<char> {
    topics_block(p) + lessons_block(p) + editorial_block(p)
}

/// A collection's whole detail block.
#[verifier::opaque]
pub open spec fn detail(p: CollectionProfile) -> Seq<char> {
    detail_summary(p) + detail_tables(p)
}

// --- building the detail block ----------------------------------------------

#[verifier::rlimit(40)]
fn push_detail_head(out: &mut String, p: &CollectionProfile)
    ensures
        final(out)@ == old(out)@ + detail_head(*p),
{
    push_str(out, "\n=== ");
    push_str(out, p.collection.as_str());
    push_str(out, " (");
    push_decimal(out, p.deal_count as u64);
    push_str(out, " deals) ===\n");
    assert(out@ =~= old(out)@ + detail_head(*p));
}

#[verifier::rlimit(40)]
fn push_excluded(out: &mut String, p: &CollectionProfile)
    ensures
        final(out)@ == old(out)@ + excluded_line(*p),
{
    let d = &p.difficulty;
    if d.not_makeable as u128 + d.no_contract as u128 + d.incomplete as u128 > 0 {
        push_str(out, "  excluded from ladder: not-makeable ");
        push_decimal(out, d.not_makeable as u64);
        push_str(out, "  no-contract ");
        push_decimal(out, d.no_contract as u64);
        push_str(out, "  incomplete ");
        push_decimal(out, d.incomplete as u64);
        push_char(out, '\n');
    }
    assert(out@ =~= old(out)@ + excluded_line(*p));
}

#[verifier::rlimit(40)]
fn push_auction(out: &mut String, p: &CollectionProfile)
    ensures
        final(out)@ == old(out)@ + auction_line(*p),
{
    let a = &p.auction;
    if a.with_auction > 0 {
        push_str(out, "  auction : ");
        push_one_decimal(out, a.total_bids as u128, a.with_auction as u128);
        push_str(out, " bids avg  ·  contested ");
        let c = pct_cell_text(a.contested as u128, a.with_auction as u128);
        push_str(out, c.as_str());
        let ghost mid = out@;
        assert(mid =~= old(out)@ + auction_bids(*p));
        push_str(out, "  ·  doubles ");
        push_decimal(out, a.total_doubles as u64);
        push_str(out, " (");
        push_decimal(out, a.with_doubles as u64);
        push_str(out, " deals, ");
        push_decimal(out, a.double_of_final as u64);
        push_str(out, " final-dbl)  ·  high-bids ");
        push_decimal(out, a.total_high_bids as u64);
        push_str(out, " (");
        push_decimal(out, a.with_high_bids as u64);
        push_str(out, " deals)\n");
        assert(out@ =~= mid + auction_doubles(*p));
    }
    assert(out@ =~= old(out)@ + auction_line(*p));
}

#[verifier::rlimit(40)]
fn push_mix(out: &mut String, p: &CollectionProfile)
    ensures
        final(out)@ == old(out)@ + mix_lines(*p),
{
    push_dist(out, "  strain ", &p.contract_mix.by_strain);
    push_dist(out, "  level  ", &p.contract_mix.by_level);
    push_dist(out, "  declarer", &p.contract_mix.by_declarer);
    push_dist(out, "  fired  ", &p.techniques);
    assert(out@ =~= old(out)@ + mix_lines(*p));
}

#[verifier::rlimit(40)]
fn push_observed(out: &mut String, t: &TopicStats)
    ensures
        final(out)@ == old(out)@ + observed_cols(*t),
{
    push_bar(out);
    push_num_col(out, t.observed_cardplay[0] as u128, 4);
    push_num_col(out, t.observed_cardplay[1] as u128, 4);
    push_num_col(out, t.observed_cardplay[2] as u128, 4);
    push_num_col(out, t.not_makeable as u128, 5);
    push_bar(out);
    assert(out@ =~= old(out)@ + observed_cols(*t));
}

#[verifier::rlimit(40)]
fn push_mean_col(out: &mut String, sum: usize, n: usize, w: usize)
    ensures
        final(out)@ == old(out)@ + col(mean_cell(sum as nat, n as nat), w as nat),
{
    let m = mean_cell_text(sum as u128, n as u128);
    push_col(out, m.as_str(), w);
}

#[verifier::rlimit(40)]
fn push_topic_base(out: &mut String, t: &TopicStats)
    ensures
        final(out)@ == old(out)@ + topic_base_cols(*t),
{
    push_num_col(out, t.deal_count as u128, 5);
    push_num_col(out, t.baseline_bidding as u128, 4);
    push_char(out, '/');
    let b = crate::numfmt::number_text(t.baseline_cardplay as u128);
    push_right(out, b.as_str(), 4);
    assert(out@ =~= old(out)@ + topic_base_cols(*t));
}

#[verifier::rlimit(40)]
fn push_topic_row(out: &mut String, name: &String, t: &TopicStats)
    requires
        truncatable(name@, 28),
    ensures
        final(out)@ == old(out)@ + topic_row(name@, *t),
{
    push_str(out, "    ");
    let n = truncate(name.as_str(), 28);
    push_right(out, n.as_str(), 28);
    let ghost a0 = out@;
    assert(a0 =~= old(out)@ + topic_name_col(name@));
    push_topic_base(out, t);
    let ghost a = out@;
    push_observed(out, t);
    let ghost b2 = out@;
    push_mean_col(out, t.combined_bidding_sum, t.combined_bidding_n, 7);
    push_mean_col(out, t.combined_cardplay_sum, t.combined_cardplay_n, 7);
    push_char(out, '\n');
    assert(out@ =~= b2 + topic_row_end(*t));
    assert(out@ =~= old(out)@ + topic_row(name@, *t));
}

#[verifier::rlimit(40)]
fn push_topics(out: &mut String, p: &CollectionProfile)
    requires
        p.by_topic matches Some(t) ==> topics_printable(t.entries@),
    ensures
        final(out)@ == old(out)@ + topics_block(*p),
{
    match &p.by_topic {
        Some(t) => {
            push_str(out, "  topics (baseline prior vs observed, + combined difficulty):\n");
            push_str(out, "    topic                        deals base b/cp |   L0   L1   L2  n-mk | comb-bid comb-cp\n");
            let ghost start = out@;
            let mut i: usize = 0;
            assert(t.entries@.take(0) =~= Seq::<(String, TopicStats)>::empty());
            while i < t.entries.len()
                invariant
                    i <= t.entries.len(),
                    out@ == start + topic_rows(t.entries@.take(i as int)),
                    forall|j: int| 0 <= j < t.entries@.len() ==> truncatable(#[trigger] t.entries@[j].0@, 28),
                decreases t.entries.len() - i,
            {
                push_topic_row(out, &t.entries[i].0, &t.entries[i].1);
                assert(t.entries@.take(i + 1).drop_last() =~= t.entries@.take(i as int));
                i = i + 1;
            }
            assert(t.entries@.take(t.entries.len() as int) =~= t.entries@);
            push_str(out, "    (base b/cp = authored bidding/cardplay baseline; comb = baseline ± observed level, mean)\n");
        },
        None => {},
    }
    assert(out@ =~= old(out)@ + topics_block(*p));
}

#[verifier::rlimit(40)]
fn push_lesson_row(out: &mut String, key: &String, t: &TopicStats)
    requires
        truncatable(lesson_label(key@), 34),
    ensures
        final(out)@ == old(out)@ + lesson_row(key@, *t),
{
    push_str(out, "    ");
    let label = lesson_label_text(key);
    let n = truncate(label.as_str(), 34);
    push_right(out, n.as_str(), 34);
    push_num_col(out, t.deal_count as u128, 5);
    let ghost a = out@;
    assert(a =~= old(out)@ + lesson_row_start(key@, *t));
    push_observed(out, t);
    let ghost b = out@;
    push_mean_col(out, t.combined_cardplay_sum, t.combined_cardplay_n, 7);
    push_mean_col(out, t.combined_bidding_sum, t.combined_bidding_n, 7);
    push_char(out, ' ');
    push_char(out, ' ');
    push_str(out, t.topic.as_str());
    push_char(out, '\n');
    assert(out@ =~= b + lesson_row_end(*t));
    assert(out@ =~= old(out)@ + lesson_row(key@, *t));
}

/// Whether every lesson listed under some category can be cut to its column.
pub open spec fn lessons_printable(cats: Seq<(String, TopicStats)>, lessons: Seq<(String, TopicStats)>) -> bool {
    forall|i: int, j: int|
        0 <= i < lessons.len() && 0 <= j < cats.len() && #[trigger] lessons[i].1.category@ == #[trigger] cats[j].0@
            ==> truncatable(lesson_label(lessons[i].0@), 34)
}

#[verifier::rlimit(40)]
fn push_lesson_rows(out: &mut String, lessons: &Vec<(String, TopicStats)>, cat: &String)
    requires
        forall|i: int| 0 <= i < lessons@.len() && #[trigger] lessons@[i].1.category@ == cat@
            ==> truncatable(lesson_label(lessons@[i].0@), 34),
    ensures
        final(out)@ == old(out)@ + lesson_rows(lessons@, cat@),
{
    let ghost start = out@;
    let mut i: usize = 0;
    assert(lessons@.take(0) =~= Seq::<(String, TopicStats)>::empty());
    while i < lessons.len()
        invariant
            i <= lessons.len(),
            out@ == start + lesson_rows(lessons@.take(i as int), cat@),
            start == old(out)@,
            forall|j: int| 0 <= j < lessons@.len() && #[trigger] lessons@[j].1.category@ == cat@
                ==> truncatable(lesson_label(lessons@[j].0@), 34),
        decreases lessons.len() - i,
    {
        if crate::text::str_eq(lessons[i].1.category.as_str(), cat.as_str()) {
            push_lesson_row(out, &lessons[i].0, &lessons[i].1);
        }
        assert(lessons@.take(i + 1).drop_last() =~= lessons@.take(i as int));
        i = i + 1;
        assert(out@ =~= start + lesson_rows(lessons@.take(i as int), cat@));
    }
    assert(lessons@.take(lessons.len() as int) =~= lessons@);
}

#[verifier::rlimit(40)]
fn push_category_line(out: &mut String, cat: &String, roll: &TopicStats)
    ensures
        final(out)@ == old(out)@ + category_line(cat@, *roll),
{
    push_str(out, "  ▸ ");
    push_str(out, cat.as_str());
    push_str(out, "  (");
    push_decimal(out, roll.deal_count as u64);
    push_str(out, " deals, cp ");
    let cp = mean_cell_text(roll.combined_cardplay_sum as u128, roll.combined_cardplay_n as u128);
    push_str(out, cp.as_str());
    push_str(out, ", bid ");
    let bid = mean_cell_text(roll.combined_bidding_sum as u128, roll.combined_bidding_n as u128);
    push_str(out, bid.as_str());
    push_str(out, ")\n");
    assert(out@ =~= old(out)@ + category_line(cat@, *roll));
}

#[verifier::rlimit(40)]
fn push_lessons(out: &mut String, p: &CollectionProfile)
    requires
        lessons_printable(p.by_category.entries@, p.by_lesson.entries@),
    ensures
        final(out)@ == old(out)@ + lessons_block(*p),
{
    if p.by_lesson.entries.len() == 0 {
        assert(out@ =~= old(out)@ + lessons_block(*p));
        return;
    }
    push_str(out, "  lessons by category (navigation order):\n");
    push_str(out, "    lesson                             deals |   L0   L1   L2  n-mk | comb-cp comb-bid  topic\n");
    let ghost start = out@;
    let cats = &p.by_category.entries;
    let lessons = &p.by_lesson.entries;
    let mut j: usize = 0;
    assert(cats@.take(0) =~= Seq::<(String, TopicStats)>::empty());
    while j < cats.len()
        invariant
            j <= cats.len(),
            cats@ == p.by_category.entries@,
            lessons@ == p.by_lesson.entries@,
            out@ == start + category_sections(cats@.take(j as int), lessons@),
            lessons_printable(cats@, lessons@),
        decreases cats.len() - j,
    {
        push_category_line(out, &cats[j].0, &cats[j].1);
        proof {
            assert forall|i: int| 0 <= i < lessons@.len() && #[trigger] lessons@[i].1.category@ == cats@[j as int].0@
                implies truncatable(lesson_label(lessons@[i].0@), 34) by {
                assert(lessons@[i].1.category@ == cats@[j as int].0@);
            }
        }
        push_lesson_rows(out, lessons, &cats[j].0);
        assert(cats@.take(j + 1).drop_last() =~= cats@.take(j as int));
        j = j + 1;
        assert(out@ =~= start + category_sections(cats@.take(j as int), lessons@));
    }
    assert(cats@.take(cats.len() as int) =~= cats@);
    assert(out@ =~= old(out)@ + lessons_block(*p));
}

#[verifier::rlimit(40)]
fn push_editorial_line(out: &mut String, key: &str, v: &Option<String>)
    ensures
        final(out)@ == old(out)@ + editorial_line(key@, *v),
{
    match v {
        Some(s) => {
            push_str(out, "    ");
            push_str(out, key);
            push_str(out, ": ");
            push_str(out, s.as_str());
            push_char(out, '\n');
        },
        None => {},
    }
    assert(out@ =~= old(out)@ + editorial_line(key@, *v));
}

#[verifier::rlimit(40)]
fn push_editorial(out: &mut String, p: &CollectionProfile)
    ensures
        final(out)@ == old(out)@ + editorial_block(*p),
{
    match &p.editorial {
        Some(ed) => {
            push_str(out, "  editorial:\n");
            push_editorial_line(out, "licensing", &ed.licensing);
            push_editorial_line(out, "audience", &ed.intended_audience);
            push_editorial_line(out, "commentary", &ed.commentary_quality);
            push_editorial_line(out, "notes", &ed.notes);
        },
        None => {},
    }
    assert(out@ =~= old(out)@ + editorial_block(*p));
}

/// Whether every topic name can be cut to its column.
pub open spec fn topics_printable(e: Seq<(String, TopicStats)>) -> bool {
    forall|i: int| 0 <= i < e.len() ==> truncatable(#[trigger] e[i].0@, 28)
}

/// Whether the report can lay the profile out: every name it cuts to a
/// column can be cut there.
pub open spec fn printable(p: CollectionProfile) -> bool {
    &&& truncatable(p.collection@, 24)
    &&& (p.by_topic matches Some(t) ==> topics_printable(t.entries@))
    &&& lessons_printable(p.by_category.entries@, p.by_lesson.entries@)
}

#[verifier::rlimit(40)]
fn push_detail_summary(out: &mut String, p: &CollectionProfile)
    ensures
        final(out)@ == old(out)@ + detail_summary(*p),
{
    push_detail_head(out, p);
    push_excluded(out, p);
    push_auction(out, p);
    push_mix(out, p);
    assert(out@ =~= old(out)@ + detail_summary(*p));
}

#[verifier::rlimit(40)]
fn push_detail_tables(out: &mut String, p: &CollectionProfile)
    requires
        printable(*p),
    ensures
        final(out)@ == old(out)@ + detail_tables(*p),
{
    push_topics(out, p);
    push_lessons(out, p);
    push_editorial(out, p);
    assert(out@ =~= old(out)@ + detail_tables(*p));
}

#[verifier::rlimit(40)]
fn push_detail(out: &mut String, p: &CollectionProfile)
    requires
        printable(*p),
    ensures
        final(out)@ == old(out)@ + detail(*p),
{
    push_detail_summary(out, p);
    push_detail_tables(out, p);
    proof {
        reveal(detail);
    }
    assert(out@ =~= old(out)@ + detail(*p));
}

// ---------------------------------------------------------------------------
// Order of the collections
// ---------------------------------------------------------------------------

/// Collection `a` comes before collection `b`: by name, then by position.
pub open spec fn name_before(ps: Seq<CollectionProfile>, a: int, b: int) -> bool {
    lex_lt(ps[a].collection@, ps[b].collection@) || (ps[a].collection@ == ps[b].collection@ && a < b)
}

/// `ord` lists every collection once, in order of name, collections of the
/// same name in their given order (a stable sort by name).
pub open spec fn name_order(ps: Seq<CollectionProfile>, ord: Seq<usize>) -> bool {
    &&& ord.len() == ps.len()
    &&& forall|i: int| 0 <= i < ord.len() ==> (#[trigger] ord[i] as int) < ps.len()
    &&& forall|i: int, j: int| 0 <= i < j < ord.len() ==> name_before(ps, #[trigger] ord[i] as int, #[trigger] ord[j] as int)
}

/// Where collection `k` goes among `ord`: before the first collection whose
/// name is greater than its own.
pub open spec fn name_pos(ps: Seq<CollectionProfile>, ord: Seq<usize>, k: int) -> int
    decreases ord.len(),
{
    if ord.len() == 0 {
        0
    } else if lex_lt(ps[k].collection@, ps[ord[0] as int].collection@) {
        0
    } else {
        1 + name_pos(ps, ord.drop_first(), k)
    }
}

/// The first `k` collections in order of name, each inserted in turn after
/// those whose name is not greater.
pub open spec fn by_name_upto(ps: Seq<CollectionProfile>, k: nat) -> Seq<usize>
    decreases k,
{
    if k == 0 {
        seq![]
    } else {
        let prev = by_name_upto(ps, (k - 1) as nat);
        prev.insert(name_pos(ps, prev, k - 1), (k - 1) as usize)
    }
}

/// The collections in order of name.
#[verifier::opaque]
pub open spec fn by_name(ps: Seq<CollectionProfile>) -> Seq<usize> {
    by_name_upto(ps, ps.len())
}

proof fn lemma_name_pos(ps: Seq<CollectionProfile>, ord: Seq<usize>, k: int)
    requires
        forall|i: int| 0 <= i < ord.len() ==> (#[trigger] ord[i] as int) < ps.len(),
        0 <= k < ps.len(),
    ensures
        0 <= name_pos(ps, ord, k) <= ord.len(),
        forall|i: int| 0 <= i < name_pos(ps, ord, k) ==> !lex_lt(ps[k].collection@, ps[#[trigger] ord[i] as int].collection@),
        name_pos(ps, ord, k) < ord.len() ==> lex_lt(ps[k].collection@, ps[ord[name_pos(ps, ord, k)] as int].collection@),
    decreases ord.len(),
{
    if ord.len() > 0 && !lex_lt(ps[k].collection@, ps[ord[0] as int].collection@) {
        let rest = ord.drop_first();
        assert forall|i: int| 0 <= i < rest.len() implies (#[trigger] rest[i] as int) < ps.len() by {
            assert(rest[i] == ord[i + 1]);
        }
        lemma_name_pos(ps, rest, k);
        assert forall|i: int| 0 <= i < name_pos(ps, ord, k) implies !lex_lt(ps[k].collection@, ps[#[trigger] ord[i] as int].collection@) by {
            if i > 0 {
                assert(ord[i] == rest[i - 1]);
            }
        }
    }
}

/// `ord` lists the first `k` collections in order of name (stably).
pub open spec fn name_order_upto(ps: Seq<CollectionProfile>, k: int, ord: Seq<usize>) -> bool {
    &&& ord.len() == k
    &&& forall|i: int| 0 <= i < ord.len() ==> (#[trigger] ord[i] as int) < k
    &&& forall|i: int, j: int| 0 <= i < j < ord.len() ==> name_before(ps, #[trigger] ord[i] as int, #[trigger] ord[j] as int)
}

proof fn lemma_name_step(ps: Seq<CollectionProfile>, k: int, prev: Seq<usize>)
    requires
        0 <= k < ps.len() <= usize::MAX,
        name_order_upto(ps, k, prev),
    ensures
        name_order_upto(ps, k + 1, prev.insert(name_pos(ps, prev, k), k as usize)),
{
    let pos = name_pos(ps, prev, k);
    lemma_name_pos(ps, prev, k);
    let n = prev.insert(pos, k as usize);
    let nk = ps[k].collection@;
    assert forall|i: int, j: int| 0 <= i < j < n.len() implies name_before(ps, #[trigger] n[i] as int, #[trigger] n[j] as int) by {
        if j < pos {
            assert(n[i] == prev[i] && n[j] == prev[j]);
        } else if j == pos {
            assert(n[i] == prev[i]);
            lemma_lex_trichotomy(nk, ps[prev[i] as int].collection@);
        } else if i < pos {
            assert(n[i] == prev[i] && n[j] == prev[j - 1]);
        } else if i == pos {
            assert(n[j] == prev[j - 1]);
            if j - 1 > pos {
                assert(name_before(ps, prev[pos] as int, prev[j - 1] as int));
                if lex_lt(ps[prev[pos] as int].collection@, ps[prev[j - 1] as int].collection@) {
                    lemma_lex_transitive(nk, ps[prev[pos] as int].collection@, ps[prev[j - 1] as int].collection@);
                }
            }
        } else {
            assert(n[i] == prev[i - 1] && n[j] == prev[j - 1]);
        }
    }
    assert forall|i: int| 0 <= i < n.len() implies (#[trigger] n[i] as int) < k + 1 by {
        if i < pos {
            assert(n[i] == prev[i]);
        } else if i > pos {
            assert(n[i] == prev[i - 1]);
        }
    }
}

proof fn lemma_by_name_upto(ps: Seq<CollectionProfile>, k: nat)
    requires
        k <= ps.len() <= usize::MAX,
    ensures
        name_order_upto(ps, k as int, by_name_upto(ps, k)),
    decreases k,
{
    if k > 0 {
        lemma_by_name_upto(ps, (k - 1) as nat);
        lemma_name_step(ps, k - 1, by_name_upto(ps, (k - 1) as nat));
    }
}

/// The collections in order of name are a stable sort by name: every
/// collection once, names ascending, equal names in their given order.
pub proof fn lemma_by_name_sorted(ps: Seq<CollectionProfile>)
    requires
        ps.len() <= usize::MAX,
    ensures
        name_order(ps, by_name(ps)),
{
    reveal(by_name);
    lemma_by_name_upto(ps, ps.len());
}

/// Index `x` occurs in `o`.
pub open spec fn covered(o: Seq<usize>, x: int) -> bool {
    exists|i: int| 0 <= i < o.len() && o[i] == x
}

proof fn lemma_by_name_covers(ps: Seq<CollectionProfile>, k: nat)
    requires
        k <= ps.len() <= usize::MAX,
    ensures
        forall|x: int| 0 <= x < k ==> #[trigger] covered(by_name_upto(ps, k), x),
    decreases k,
{
    if k > 0 {
        let prev = by_name_upto(ps, (k - 1) as nat);
        lemma_by_name_covers(ps, (k - 1) as nat);
        lemma_by_name_upto(ps, (k - 1) as nat);
        let pos = name_pos(ps, prev, k - 1);
        lemma_name_pos(ps, prev, k - 1);
        let ord = prev.insert(pos, (k - 1) as usize);
        assert(by_name_upto(ps, k) == ord);
        assert forall|x: int| 0 <= x < k implies #[trigger] covered(ord, x) by {
            if x == k - 1 {
                assert(ord[pos] == x);
            } else {
                assert(covered(prev, x));
                let i = choose|i: int| 0 <= i < prev.len() && prev[i] == x;
                if i < pos {
                    assert(ord[i] == x);
                } else {
                    assert(ord[i + 1] == x);
                }
            }
        }
    }
}

/// No two collections share a name.
pub open spec fn distinct_names(ps: Seq<CollectionProfile>) -> bool {
    forall|i: int, j: int| 0 <= i < j < ps.len() ==> #[trigger] ps[i].collection@ != #[trigger] ps[j].collection@
}

/// Names strictly ascend.
pub open spec fn names_ascend(a: Seq<CollectionProfile>) -> bool {
    forall|i: int, j: int| 0 <= i < j < a.len() ==> lex_lt(#[trigger] a[i].collection@, #[trigger] a[j].collection@)
}

proof fn lemma_sorted_arrangement(ps: Seq<CollectionProfile>)
    requires
        ps.len() <= usize::MAX,
        distinct_names(ps),
    ensures
        names_ascend(crate::html::arranged(ps, by_name(ps))),
        crate::html::arranged(ps, by_name(ps)).to_set() == ps.to_set(),
{
    let o = by_name(ps);
    let a = crate::html::arranged(ps, o);
    lemma_by_name_sorted(ps);
    reveal(by_name);
    lemma_by_name_covers(ps, ps.len());
    assert forall|i: int, j: int| 0 <= i < j < a.len() implies lex_lt(#[trigger] a[i].collection@, #[trigger] a[j].collection@) by {
        assert(name_before(ps, o[i] as int, o[j] as int));
        if o[i] < o[j] {
            assert(ps[o[i] as int].collection@ != ps[o[j] as int].collection@);
        } else if o[i] > o[j] {
            assert(ps[o[j] as int].collection@ != ps[o[i] as int].collection@);
        }
    }
    assert forall|p: CollectionProfile| a.to_set().contains(p) <==> ps.to_set().contains(p) by {
        if a.to_set().contains(p) {
            let i = choose|i: int| 0 <= i < a.len() && a[i] == p;
            assert(ps[o[i] as int] == p);
        }
        if ps.to_set().contains(p) {
            let x = choose|x: int| 0 <= x < ps.len() && ps[x] == p;
            assert(covered(o, x));
            let i = choose|i: int| 0 <= i < o.len() && o[i] == x;
            assert(a[i] == p);
        }
    }
    assert(a.to_set() =~= ps.to_set());
}

proof fn lemma_ascending_unique(a: Seq<CollectionProfile>, b: Seq<CollectionProfile>)
    requires
        names_ascend(a),
        names_ascend(b),
        a.to_set() == b.to_set(),
    ensures
        a == b,
    decreases a.len(),
{
    if a.len() == 0 {
        if b.len() > 0 {
            assert(b.to_set().contains(b[0]));
        }
        assert(a =~= b);
    } else {
        assert(a.to_set().contains(a[0]));
        let k = choose|k: int| 0 <= k < b.len() && b[k] == a[0];
        assert(b.to_set().contains(b[0]));
        let m = choose|m: int| 0 <= m < a.len() && a[m] == b[0];
        if k > 0 {
            assert(lex_lt(b[0].collection@, b[k].collection@));
            if m > 0 {
                assert(lex_lt(a[0].collection@, a[m].collection@));
                lemma_lex_transitive(b[0].collection@, a[0].collection@, b[0].collection@);
            }
            lemma_lex_trichotomy(b[0].collection@, b[0].collection@);
        }
        assert(a[0] == b[0]);
        let a1 = a.drop_first();
        let b1 = b.drop_first();
        assert forall|p: CollectionProfile| a1.to_set().contains(p) <==> b1.to_set().contains(p) by {
            if a1.to_set().contains(p) {
                let i = choose|i: int| 0 <= i < a1.len() && a1[i] == p;
                assert(a[i + 1] == p);
                assert(lex_lt(a[0].collection@, a[i + 1].collection@));
                lemma_lex_trichotomy(a[0].collection@, p.collection@);
                assert(b.to_set().contains(p));
                let j = choose|j: int| 0 <= j < b.len() && b[j] == p;
                assert(j != 0);
                assert(b1[j - 1] == p);
            }
            if b1.to_set().contains(p) {
                let i = choose|i: int| 0 <= i < b1.len() && b1[i] == p;
                assert(b[i + 1] == p);
                assert(lex_lt(b[0].collection@, b[i + 1].collection@));
                lemma_lex_trichotomy(b[0].collection@, p.collection@);
                assert(a.to_set().contains(p));
                let j = choose|j: int| 0 <= j < a.len() && a[j] == p;
                assert(j != 0);
                assert(a1[j - 1] == p);
            }
        }
        assert(a1.to_set() =~= b1.to_set());
        lemma_ascending_unique(a1, b1);
        assert(a =~= seq![a[0]] + a1);
        assert(b =~= seq![b[0]] + b1);
    }
}

proof fn lemma_text_of_arrangement(ps: Seq<CollectionProfile>, o: Seq<usize>, qs: Seq<CollectionProfile>, o2: Seq<usize>)
    requires
        crate::html::arranged(ps, o) == crate::html::arranged(qs, o2),
    ensures
        table_rows(ps, o) == table_rows(qs, o2),
        details(ps, o) == details(qs, o2),
    decreases o.len(),
{
    let a = crate::html::arranged(ps, o);
    assert(o.len() == o2.len()) by {
        assert(a.len() == o.len());
        assert(crate::html::arranged(qs, o2).len() == o2.len());
    }
    if o.len() > 0 {
        assert(crate::html::arranged(ps, o.drop_last()) =~= crate::html::arranged(qs, o2.drop_last())) by {
            assert forall|i: int| 0 <= i < o.len() - 1 implies crate::html::arranged(ps, o.drop_last())[i]
                == crate::html::arranged(qs, o2.drop_last())[i] by {
                assert(a[i] == crate::html::arranged(qs, o2)[i]);
            }
        }
        lemma_text_of_arrangement(ps, o.drop_last(), qs, o2.drop_last());
        assert(a[o.len() - 1] == crate::html::arranged(qs, o2)[o.len() - 1]);
    }
}

/// The reports do not depend on the order the profiles come in: two inputs
/// holding the same profiles, each name once, give the same text report and
/// the same HTML page.
pub proof fn lemma_report_order_free(ps: Seq<CollectionProfile>, qs: Seq<CollectionProfile>)
    requires
        ps.len() <= usize::MAX,
        qs.len() <= usize::MAX,
        distinct_names(ps),
        distinct_names(qs),
        ps.to_set() == qs.to_set(),
    ensures
        report_text(ps, by_name(ps)) == report_text(qs, by_name(qs)),
        crate::html::page(crate::html::arranged(ps, by_name(ps))) == crate::html::page(crate::html::arranged(qs, by_name(qs))),
{
    lemma_sorted_arrangement(ps);
    lemma_sorted_arrangement(qs);
    lemma_ascending_unique(crate::html::arranged(ps, by_name(ps)), crate::html::arranged(qs, by_name(qs)));
    lemma_text_of_arrangement(ps, by_name(ps), qs, by_name(qs));
}

/// Computes `by_name(ps)`.
#[verifier::rlimit(40)]
pub fn name_order_of(ps: &Vec<CollectionProfile>) -> (ord: Vec<usize>)
    ensures
        ord@ == by_name(ps@),
        name_order(ps@, ord@),
{
    let mut ord: Vec<usize> = Vec::new();
    let mut k: usize = 0;
    while k < ps.len()
        invariant
            k <= ps.len(),
            ord@ == by_name_upto(ps@, k as nat),
            forall|i: int| 0 <= i < ord@.len() ==> (#[trigger] ord@[i] as int) < k,
        decreases ps.len() - k,
    {
        proof {
            lemma_by_name_upto(ps@, k as nat);
        }
        let ghost prev = ord@;
        let mut pos: usize = 0;
        let mut found = false;
        assert(prev.skip(0) =~= prev);
        while pos < ord.len() && !found
            invariant
                pos <= ord.len(),
                k < ps.len(),
                ord@ == prev,
                forall|i: int| 0 <= i < ord@.len() ==> (#[trigger] ord@[i] as int) < k,
                !found ==> name_pos(ps@, prev, k as int) == pos + name_pos(ps@, prev.skip(pos as int), k as int),
                found ==> name_pos(ps@, prev, k as int) == pos,
            decreases ord.len() - pos + if found { 0int } else { 1int },
        {
            assert(prev.skip(pos as int)[0] == prev[pos as int]);
            if string_less(&ps[k].collection, &ps[ord[pos]].collection) {
                found = true;
            } else {
                assert(prev.skip(pos as int).drop_first() =~= prev.skip(pos + 1));
                pos = pos + 1;
            }
        }
        proof {
            if !found {
                assert(prev.skip(pos as int).len() == 0);
            }
        }
        ord.insert(pos, k);
        proof {
            lemma_name_step(ps@, k as int, prev);
        }
        k = k + 1;
    }
    proof {
        reveal(by_name);
        lemma_by_name_sorted(ps@);
    }
    ord
}

// ---------------------------------------------------------------------------
// The report
// ---------------------------------------------------------------------------

/// Why no report was produced.
#[derive(Debug)]
pub enum ReportError {
    /// There was no profile to report on.
    NoProfiles,
}

/// The detail blocks of the collections in order `ord`.
pub open spec fn details(ps: Seq<CollectionProfile>, ord: Seq<usize>) -> Seq<char>
    decreases ord.len(),
{
    if ord.len() == 0 {
        seq![]
    } else {
        details(ps, ord.drop_last()) + detail(ps[ord.last() as int])
    }
}

/// The report over the collections in order `ord`: the table, then a detail
/// block per collection.
pub open spec fn report_text(ps: Seq<CollectionProfile>, ord: Seq<usize>) -> Seq<char> {
    table_text(ps, ord) + details(ps, ord)
}

#[verifier::rlimit(40)]
fn push_rule(out: &mut String)
    ensures
        final(out)@ == old(out)@ + table_rule(),
{
    let mut i: usize = 0;
    assert(old(out)@ + Seq::new(0, |j: int| '-') =~= old(out)@);
    while i < 100
        invariant
            i <= 100,
            out@ == old(out)@ + Seq::new(i as nat, |j: int| '-'),
        decreases 100 - i,
    {
        push_char(out, '-');
        i = i + 1;
        assert(out@ =~= old(out)@ + Seq::new(i as nat, |j: int| '-'));
    }
    push_char(out, '\n');
    assert(out@ =~= old(out)@ + table_rule());
}

#[verifier::rlimit(40)]
fn push_table(out: &mut String, profiles: &Vec<CollectionProfile>, ord: &Vec<usize>)
    requires
        name_order(profiles@, ord@),
        forall|i: int| 0 <= i < profiles@.len() ==> printable(#[trigger] profiles@[i]),
    ensures
        final(out)@ == old(out)@ + table_text(profiles@, ord@),
{
    push_str(out, "collection                deals  mkbl |    L0    L1    L2  uncl |   auc   cmt  xcon |   fin  ruff\n");
    push_rule(out);
    let ghost start = out@;
    let mut i: usize = 0;
    assert(ord@.take(0) =~= Seq::<usize>::empty());
    while i < ord.len()
        invariant
            i <= ord.len(),
            name_order(profiles@, ord@),
            forall|j: int| 0 <= j < profiles@.len() ==> printable(#[trigger] profiles@[j]),
            out@ == start + table_rows(profiles@, ord@.take(i as int)),
        decreases ord.len() - i,
    {
        let p = &profiles[ord[i]];
        assert(printable(profiles@[ord@[i as int] as int]));
        push_table_row(out, p);
        assert(ord@.take(i + 1).drop_last() =~= ord@.take(i as int));
        i = i + 1;
    }
    assert(ord@.take(ord.len() as int) =~= ord@);
    push_str(out, "\nL0 cash-out · L1 establish · L2 single-technique · uncl unclassified (% of makeable)\nauc/cmt/xcon = % of deals with auction / commentary / explicit contract\n");
    assert(out@ =~= old(out)@ + table_text(profiles@, ord@));
}

#[verifier::rlimit(40)]
fn push_details(out: &mut String, profiles: &Vec<CollectionProfile>, ord: &Vec<usize>)
    requires
        name_order(profiles@, ord@),
        forall|i: int| 0 <= i < profiles@.len() ==> printable(#[trigger] profiles@[i]),
    ensures
        final(out)@ == old(out)@ + details(profiles@, ord@),
{
    let mut i: usize = 0;
    assert(ord@.take(0) =~= Seq::<usize>::empty());
    assert(old(out)@ + details(profiles@, ord@.take(0)) =~= old(out)@);
    while i < ord.len()
        invariant
            i <= ord.len(),
            name_order(profiles@, ord@),
            forall|j: int| 0 <= j < profiles@.len() ==> printable(#[trigger] profiles@[j]),
            out@ == old(out)@ + details(profiles@, ord@.take(i as int)),
        decreases ord.len() - i,
    {
        let p = &profiles[ord[i]];
        assert(printable(profiles@[ord@[i as int] as int]));
        push_detail(out, p);
        assert(ord@.take(i + 1).drop_last() =~= ord@.take(i as int));
        i = i + 1;
        assert(out@ =~= old(out)@ + details(profiles@, ord@.take(i as int)));
    }
    assert(ord@.take(ord.len() as int) =~= ord@);
}

/// The text report over the profiles, collections in order of name: an
/// error when there is no profile.
#[verifier::rlimit(40)]
pub fn report(profiles: &Vec<CollectionProfile>) -> (r: Result<String, ReportError>)
    requires
        forall|i: int| 0 <= i < profiles@.len() ==> printable(#[trigger] profiles@[i]),
    ensures
        r is Err <==> profiles@.len() == 0,
        r matches Ok(t) ==> t@ == report_text(profiles@, by_name(profiles@)),
{
    if profiles.len() == 0 {
        return Err(ReportError::NoProfiles);
    }
    let ord = name_order_of(profiles);
    let mut out = String::new();
    push_table(&mut out, profiles, &ord);
    push_details(&mut out, profiles, &ord);
    assert(out@ =~= report_text(profiles@, ord@));
    Ok(out)
}

/// Checks `printable(p)`.
#[verifier::rlimit(40)]
pub fn is_printable(p: &CollectionProfile) -> (ok: bool)
    ensures
        ok == printable(*p),
{
    if !is_truncatable(p.collection.as_str(), 24) {
        return false;
    }
    match &p.by_topic {
        Some(t) => {
            let mut i: usize = 0;
            while i < t.entries.len()
                invariant
                    i <= t.entries.len(),
                    p.by_topic == Some(*t),
                    forall|j: int| 0 <= j < i ==> truncatable(#[trigger] t.entries@[j].0@, 28),
                decreases t.entries.len() - i,
            {
                if !is_truncatable(t.entries[i].0.as_str(), 28) {
                    assert(!truncatable(t.entries@[i as int].0@, 28));
                    assert(!topics_printable(t.entries@));
                    return false;
                }
                i = i + 1;
            }
        },
        None => {},
    }
    let cats = &p.by_category.entries;
    let lessons = &p.by_lesson.entries;
    let mut i: usize = 0;
    while i < lessons.len()
        invariant
            i <= lessons.len(),
            cats@ == p.by_category.entries@,
            lessons@ == p.by_lesson.entries@,
            forall|a: int, b: int|
                0 <= a < i && 0 <= b < cats@.len() && #[trigger] lessons@[a].1.category@ == #[trigger] cats@[b].0@
                    ==> truncatable(lesson_label(lessons@[a].0@), 34),
        decreases lessons.len() - i,
    {
        let mut listed = false;
        let mut j: usize = 0;
        while j < cats.len() && !listed
            invariant
                j <= cats.len(),
                i < lessons.len(),
                cats@ == p.by_category.entries@,
                lessons@ == p.by_lesson.entries@,
                listed ==> exists|b: int| 0 <= b < cats@.len() && lessons@[i as int].1.category@ == #[trigger] cats@[b].0@,
                !listed ==> forall|b: int| 0 <= b < j ==> lessons@[i as int].1.category@ != #[trigger] cats@[b].0@,
            decreases cats.len() - j + if listed { 0int } else { 1int },
        {
            if crate::text::str_eq(lessons[i].1.category.as_str(), cats[j].0.as_str()) {
                listed = true;
            } else {
                j = j + 1;
            }
        }
        if listed {
            let label = lesson_label_text(&lessons[i].0);
            if !is_truncatable(label.as_str(), 34) {
                assert(!lessons_printable(cats@, lessons@));
                return false;
            }
        }
        i = i + 1;
    }
    true
}

} // verus!
