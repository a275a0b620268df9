//! Lesson identity of a deal: the nearest lesson folder in its file path,
//! else the file name cleaned of packaging prefixes, suffixes, slice ranges
//! ("1-6") and set sizes ("6x6"). This rolls a lesson's slices, views and
//! rotation variants up into one lesson.

use vstd::prelude::*;
use crate::text::{
    chars_eq, chars_of, ends_with_chars, first_index, find_char, has_substring, is_prefix,
    is_suffix, last_index, lowercase_of, rfind_char, slice_chars, split_chars, split_on,
    starts_with_chars, string_of, to_lowercase, trim_chars, trim_end_chars, trimmed,
    trimmed_end, views, lemma_first_index,
};

verus! {

broadcast use vstd::string::group_string_axioms;

/// An ASCII decimal digit.
pub open spec fn is_digit(c: char) -> bool {
    '0' <= c && c <= '9'
}

/// Every character is an ASCII digit.
pub open spec fn all_digits(s: Seq<char>) -> bool {
    forall|i: int| 0 <= i < s.len() ==> is_digit(#[trigger] s[i])
}

/// `t` is two non-empty digit runs joined at the first `sep`.
pub open spec fn two_numbers_spec(t: Seq<char>, sep: char) -> bool {
    match first_index(t, sep) {
        Some(k) => k > 0 && k + 1 < t.len() && all_digits(t.take(k)) && all_digits(t.skip(k + 1)),
        None => false,
    }
}

fn digits_only(s: &Vec<char>, from: usize, to: usize) -> (r: bool)
    requires
        from <= to <= s.len(),
    ensures
        r == all_digits(s@.subrange(from as int, to as int)),
{
    let mut i = from;
    while i < to
        invariant
            from <= i <= to <= s.len(),
            forall|j: int| from <= j < i ==> is_digit(s@[j]),
        decreases to - i,
    {
        if !('0' <= s[i] && s[i] <= '9') {
            assert(!is_digit(s@.subrange(from as int, to as int)[i - from]));
            return false;
        }
        i += 1;
    }
    assert forall|j: int| 0 <= j < to - from implies is_digit(#[trigger] s@.subrange(from as int, to as int)[j]) by {
        assert(s@.subrange(from as int, to as int)[j] == s@[from + j]);
    }
    true
}

/// Whether `t` is two digit runs joined at the first `sep`.
pub fn two_numbers(t: &Vec<char>, sep: char) -> (r: bool)
    ensures
        r == two_numbers_spec(t@, sep),
{
    match find_char(t, sep) {
        Some(k) => {
            if k == 0 || k + 1 >= t.len() {
                return false;
            }
            assert(t@.subrange(0, k as int) =~= t@.take(k as int));
            assert(t@.subrange(k + 1, t.len() as int) =~= t@.skip(k + 1));
            digits_only(t, 0, k) && digits_only(t, k + 1, t.len())
        },
        None => false,
    }
}

/// A slice range such as "1-6".
pub fn is_range(t: &Vec<char>) -> (r: bool)
    ensures
        r == two_numbers_spec(t@, '-'),
{
    two_numbers(t, '-')
}

/// A set size such as "6x6".
pub fn is_set_size(t: &Vec<char>) -> (r: bool)
    ensures
        r == two_numbers_spec(t@, 'x'),
{
    two_numbers(t, 'x')
}

/// Lower-cased folder names that are seat views, not lessons.
pub open spec fn is_view_name(v: Seq<char>) -> bool {
    v == "full table"@ || v == "north-south"@ || v == "south"@ || v == "north"@ || v == "east"@
        || v == "west"@ || v == "ns"@ || v == "n-s"@ || v == "nesw"@
}

/// A packaging folder that is not itself a lesson: a seat view, a
/// "... board set(s)" folder, or a set size.
pub open spec fn is_view_or_set_spec(f: Seq<char>) -> bool {
    view_or_set_lowered_spec(lowercase_of(f), f)
}

/// The folder test on the folder name `f` and its lower-cased form `v`: a
/// seat view, a name ending in "board set(s)", or a set size.
pub open spec fn view_or_set_lowered_spec(v: Seq<char>, f: Seq<char>) -> bool {
    is_view_name(v) || is_suffix("board sets"@, v) || is_suffix("board set"@, v) || two_numbers_spec(f, 'x')
}

fn eq_lit(v: &Vec<char>, lit: &str) -> (r: bool)
    ensures
        r == (v@ == lit@),
{
    let l = chars_of(lit);
    chars_eq(v, &l)
}

/// Whether a folder name is a seat view or set folder.
pub fn is_view_or_set(f: &Vec<char>) -> (r: bool)
    ensures
        r == is_view_or_set_spec(f@),
{
    let s = string_of(f);
    let lower = to_lowercase(s.as_str());
    let v = chars_of(lower.as_str());
    is_view_or_set_lowered(&v, f)
}

/// The folder test, given the folder name `f` and its lower-cased form
/// `lower` (see `view_or_set_lowered_spec`).
pub fn is_view_or_set_lowered(lower: &Vec<char>, f: &Vec<char>) -> (r: bool)
    ensures
        r == view_or_set_lowered_spec(lower@, f@),
{
    let v = lower;
    let sets = chars_of("board sets");
    let set = chars_of("board set");
    eq_lit(v, "full table") || eq_lit(v, "north-south") || eq_lit(v, "south") || eq_lit(v, "north")
        || eq_lit(v, "east") || eq_lit(v, "west") || eq_lit(v, "ns") || eq_lit(v, "n-s") || eq_lit(
        v,
        "nesw",
    ) || ends_with_chars(v, &sets) || ends_with_chars(v, &set) || is_set_size(f)
}

/// `s` with `p` removed from its front when it is a prefix.
pub open spec fn strip_prefix_spec(s: Seq<char>, p: Seq<char>) -> Seq<char> {
    if is_prefix(p, s) { s.skip(p.len() as int) } else { s }
}

/// `s` with `p` removed from its end when it is a suffix.
pub open spec fn strip_suffix_spec(s: Seq<char>, p: Seq<char>) -> Seq<char> {
    if is_suffix(p, s) { s.take(s.len() - p.len()) } else { s }
}

pub(crate) fn strip_prefix(s: Vec<char>, p: &str) -> (r: Vec<char>)
    ensures
        r@ == strip_prefix_spec(s@, p@),
{
    let pc = chars_of(p);
    if starts_with_chars(&s, &pc) {
        slice_chars(&s, pc.len(), s.len())
    } else {
        s
    }
}

pub(crate) fn strip_suffix(s: Vec<char>, p: &str) -> (r: Vec<char>)
    ensures
        r@ == strip_suffix_spec(s@, p@),
{
    let pc = chars_of(p);
    if ends_with_chars(&s, &pc) {
        let r = slice_chars(&s, 0, s.len() - pc.len());
        assert(r@ =~= s@.take(s.len() - pc.len()));
        r
    } else {
        s
    }
}

/// Repeatedly drops a trailing " <range>" or " <set size>" token (looking
/// past trailing whitespace).
pub open spec fn strip_tokens(s: Seq<char>) -> Seq<char>
    decreases s.len(),
{
    let t = trimmed_end(s);
    match last_index(t, ' ') {
        Some(i) => if 0 <= i < t.len() && t.len() <= s.len() && (two_numbers_spec(t.skip(i + 1), '-')
            || two_numbers_spec(t.skip(i + 1), 'x')) {
            strip_tokens(s.take(i))
        } else {
            s
        },
        None => s,
    }
}

/// A file name cleaned into a lesson label: ".pbn" removed; the prefixes
/// "thinking-bridge-" and "Baker Bridge " removed in turn; the suffixes
/// " practice deals", " - NESW", " - NES", " - NS", " - S", " Nonstandard"
/// removed in turn; trailing range and set-size tokens dropped; trimmed.
pub open spec fn normalize_lesson_spec(f: Seq<char>) -> Seq<char> {
    let a = strip_suffix_spec(f, ".pbn"@);
    let b = strip_prefix_spec(strip_prefix_spec(a, "thinking-bridge-"@), "Baker Bridge "@);
    let c = strip_suffix_spec(
        strip_suffix_spec(
            strip_suffix_spec(
                strip_suffix_spec(strip_suffix_spec(strip_suffix_spec(b, " practice deals"@), " - NESW"@), " - NES"@),
                " - NS"@,
            ),
            " - S"@,
        ),
        " Nonstandard"@,
    );
    trimmed(strip_tokens(c))
}

/// A name with its site prefixes ("thinking-bridge-", then "Baker Bridge ")
/// removed.
pub open spec fn site_stem(n: Seq<char>) -> Seq<char> {
    strip_prefix_spec(strip_prefix_spec(n, "thinking-bridge-"@), "Baker Bridge "@)
}

proof fn lemma_not_suffix_at(p: Seq<char>, s: Seq<char>, k: int)
    requires
        0 <= k < p.len(),
        k < s.len() ==> p[p.len() - 1 - k] != s[s.len() - 1 - k],
    ensures
        !is_suffix(p, s),
{
    if is_suffix(p, s) {
        assert(s.skip(s.len() - p.len())[p.len() - 1 - k] == s[s.len() - 1 - k]);
    }
}

proof fn lemma_strip_appended(x: Seq<char>, p: Seq<char>)
    ensures
        strip_suffix_spec(x + p, p) == x,
{
    assert((x + p).skip((x + p).len() - p.len()) =~= p);
    assert((x + p).take((x + p).len() - p.len()) =~= x);
}

/// The suffixes a lesson's file names carry beyond the lesson's own name: a
/// seat view, "practice deals", "Nonstandard".
pub open spec fn is_view_suffix(x: Seq<char>) -> bool {
    x == " practice deals"@ || x == " - NESW"@ || x == " - NES"@ || x == " - NS"@ || x == " - S"@ || x == " Nonstandard"@
}

/// A stem ending in none of the view suffixes.
pub open spec fn plain_stem(b: Seq<char>) -> bool {
    !is_suffix(" practice deals"@, b) && !is_suffix(" - NESW"@, b) && !is_suffix(" - NES"@, b) && !is_suffix(" - NS"@, b)
        && !is_suffix(" - S"@, b) && !is_suffix(" Nonstandard"@, b)
}

/// A file of a lesson that carries a view suffix ("<name> - S.pbn",
/// "<name> - NS.pbn", "<name> practice deals.pbn", ...) belongs to the same
/// lesson as "<name>.pbn", whenever the name's stem ends in no such suffix
/// itself and the site prefixes are read off the name alike with or without
/// the suffix.
pub proof fn lemma_view_suffix_same_lesson(n: Seq<char>, x: Seq<char>)
    requires
        is_view_suffix(x),
        site_stem(n + x) == site_stem(n) + x,
        plain_stem(site_stem(n)),
    ensures
        normalize_lesson_spec(n + x + ".pbn"@) == normalize_lesson_spec(n + ".pbn"@),
{
    reveal_strlit(" practice deals");
    reveal_strlit(" - NESW");
    reveal_strlit(" - NES");
    reveal_strlit(" - NS");
    reveal_strlit(" - S");
    reveal_strlit(" Nonstandard");
    lemma_strip_appended(n + x, ".pbn"@);
    lemma_strip_appended(n, ".pbn"@);
    let bn = site_stem(n);
    let b1 = bn + x;
    lemma_strip_appended(bn, x);
    let l = b1.len();
    assert(b1[l - 1] == x[x.len() - 1] && b1[l - 2] == x[x.len() - 2]);
    if x == " practice deals"@ {
    } else if x == " - NESW"@ {
        lemma_not_suffix_at(" practice deals"@, b1, 0);
    } else if x == " - NES"@ {
        lemma_not_suffix_at(" practice deals"@, b1, 0);
        lemma_not_suffix_at(" - NESW"@, b1, 0);
    } else if x == " - NS"@ {
        lemma_not_suffix_at(" practice deals"@, b1, 0);
        lemma_not_suffix_at(" - NESW"@, b1, 0);
        lemma_not_suffix_at(" - NES"@, b1, 1);
    } else if x == " - S"@ {
        lemma_not_suffix_at(" practice deals"@, b1, 0);
        lemma_not_suffix_at(" - NESW"@, b1, 0);
        lemma_not_suffix_at(" - NES"@, b1, 1);
        lemma_not_suffix_at(" - NS"@, b1, 1);
    } else {
        lemma_not_suffix_at(" practice deals"@, b1, 0);
        lemma_not_suffix_at(" - NESW"@, b1, 0);
        lemma_not_suffix_at(" - NES"@, b1, 0);
        lemma_not_suffix_at(" - NS"@, b1, 0);
        lemma_not_suffix_at(" - S"@, b1, 0);
    }
}

/// In particular, the South-view file of a lesson belongs to the same lesson
/// as the lesson's own file: "<name> - S.pbn" and "<name>.pbn" get one label.
pub proof fn lemma_south_view_same_lesson(n: Seq<char>)
    requires
        site_stem(n + " - S"@) == site_stem(n) + " - S"@,
        plain_stem(site_stem(n)),
    ensures
        normalize_lesson_spec(n + " - S"@ + ".pbn"@) == normalize_lesson_spec(n + ".pbn"@),
{
    reveal_strlit(" - S");
    lemma_view_suffix_same_lesson(n, " - S"@);
}

proof fn lemma_trimmed_end_len(s: Seq<char>)
    ensures
        trimmed_end(s).len() <= s.len(),
        trimmed_end(s) == s.take(trimmed_end(s).len() as int),
{
    crate::text::lemma_trim_end_len(s);
}

fn drop_tokens(s: Vec<char>) -> (r: Vec<char>)
    ensures
        r@ == strip_tokens(s@),
    decreases s@.len(),
{
    let t = trim_end_chars(&s);
    proof {
        lemma_trimmed_end_len(s@);
    }
    match rfind_char(&t, ' ') {
        Some(i) => {
            let tail = slice_chars(&t, i + 1, t.len());
            assert(tail@ =~= t@.skip(i + 1));
            if is_range(&tail) || is_set_size(&tail) {
                let head = slice_chars(&s, 0, i);
                assert(head@ =~= s@.take(i as int));
                drop_tokens(head)
            } else {
                s
            }
        },
        None => s,
    }
}

/// Cleans a file name into a lesson label (see `normalize_lesson_spec`).
pub fn normalize_lesson_name(filename: &Vec<char>) -> (r: Vec<char>)
    ensures
        r@ == normalize_lesson_spec(filename@),
{
    let mut s = slice_chars(filename, 0, filename.len());
    assert(s@ =~= filename@);
    s = strip_suffix(s, ".pbn");
    s = strip_prefix(s, "thinking-bridge-");
    s = strip_prefix(s, "Baker Bridge ");
    s = strip_suffix(s, " practice deals");
    s = strip_suffix(s, " - NESW");
    s = strip_suffix(s, " - NES");
    s = strip_suffix(s, " - NS");
    s = strip_suffix(s, " - S");
    s = strip_suffix(s, " Nonstandard");
    let d = drop_tokens(s);
    trim_chars(&d)
}

/// Scanning the folders `parts[1..=i]` from `i` down: skip view and set
/// folders; stop (no lesson folder) at the category; else that folder.
pub open spec fn lesson_folder(parts: Seq<Seq<char>>, category: Seq<char>, i: int) -> Option<Seq<char>>
    decreases i,
{
    if i < 1 || i >= parts.len() {
        None
    } else if is_view_or_set_spec(parts[i]) {
        lesson_folder(parts, category, i - 1)
    } else if parts[i] == category {
        None
    } else {
        Some(parts[i])
    }
}

/// A deal's lesson: the nearest lesson folder walking up from the file
/// (for paths of at least three components), else the normalized file name.
pub open spec fn lesson_of_spec(file: Seq<char>, category: Seq<char>) -> Seq<char> {
    let parts = split_on(file, '/');
    let folder = if parts.len() >= 3 { lesson_folder(parts, category, parts.len() - 2) } else { None };
    match folder {
        Some(f) => f,
        None => normalize_lesson_spec(parts.last()),
    }
}

fn find_lesson_folder(parts: &Vec<Vec<char>>, category: &Vec<char>) -> (r: Option<usize>)
    requires
        parts.len() >= 3,
    ensures
        r matches Some(i) ==> i < parts.len() && lesson_folder(views(parts@), category@, parts.len() - 2)
            == Some(parts@[i as int]@),
        r is None ==> lesson_folder(views(parts@), category@, parts.len() - 2) is None,
{
    let ghost pv = views(parts@);
    assert forall|j: int| 0 <= j < parts@.len() implies #[trigger] parts@[j]@ == pv[j] by {}
    let mut i = parts.len() - 2;
    while i >= 1
        invariant
            i <= parts.len() - 2,
            parts.len() >= 3,
            pv == views(parts@),
            forall|j: int| 0 <= j < parts@.len() ==> #[trigger] parts@[j]@ == pv[j],
            lesson_folder(pv, category@, pv.len() - 2) == lesson_folder(pv, category@, i as int),
        decreases i,
    {
        if is_view_or_set(&parts[i]) {
            i -= 1;
        } else if chars_eq(&parts[i], category) {
            return None;
        } else {
            return Some(i);
        }
    }
    None
}

/// The lesson identity of a deal file within its category.
pub fn lesson_of(file: &Vec<char>, category: &Vec<char>) -> (r: Vec<char>)
    ensures
        r@ == lesson_of_spec(file@, category@),
{
    let parts = split_chars(file, '/');
    let ghost pv = split_on(file@, '/');
    assert(views(parts@) == pv);
    if parts.len() >= 3 {
        match find_lesson_folder(&parts, category) {
            Some(i) => {
                let r = slice_chars(&parts[i], 0, parts[i].len());
                assert(r@ =~= parts@[i as int]@);
                return r;
            },
            None => {},
        }
    }
    let last = &parts[parts.len() - 1];
    assert(last@ == pv.last());
    normalize_lesson_name(last)
}

} // verus!
