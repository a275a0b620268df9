//! Stage 5 — roll-up. Folds the per-deal record ledger into one collection
//! profile: difficulty histogram, structural coverage, auction proxies,
//! contract mix, technique matrix, per-topic / per-lesson / per-category
//! breakdowns, and an optional editorial block.
//!
//! Counts only (no fractions): exact and diffable. All maps are sorted by
//! key, so output is deterministically ordered.

use vstd::prelude::*;
use crate::auction::strain_text;
use crate::cards::{dir_char, Strain};
use crate::contract::{parse_contract_spec, Contract};
use crate::model::{AuctionInfo, ContractProvenance, DealRecord, Versions};
use crate::sorted_map::{count_of, has_key, key_pos, keys_sorted, CountMap};
use crate::text::{alphanumeric, chars_of, decimal, is_alphanumeric, push_char, push_decimal};

verus! {

broadcast use vstd::string::group_string_axioms;

/// A collection's profile.
#[derive(Debug)]
pub struct CollectionProfile {
    pub collection: String,
    pub deal_count: usize,
    pub difficulty: DifficultyHistogram,
    pub structural: StructuralCoverage,
    pub auction: AuctionProfile,
    pub contract_mix: ContractMix,
    /// Probe name → number of deals it fired on.
    pub techniques: CountMap,
    /// Per-topic breakdown; present only when a topic table was supplied.
    pub by_topic: Option<StatsMap>,
    /// Per-lesson breakdown, keyed by category, NUL, lesson.
    pub by_lesson: StatsMap,
    /// Per-category rollup.
    pub by_category: StatsMap,
    pub editorial: Option<Editorial>,
    pub versions: Versions,
}

/// Cardplay-difficulty histogram: mutually exclusive buckets over all deals.
#[derive(Clone, Copy, Debug)]
pub struct DifficultyHistogram {
    pub cash_out_0: usize,
    pub establish_1: usize,
    pub technique_2: usize,
    pub unclassified: usize,
    /// The designated contract goes down double-dummy.
    pub not_makeable: usize,
    /// No contract could be resolved.
    pub no_contract: usize,
    /// Deal incomplete (not 52 cards): no baseline.
    pub incomplete: usize,
}

/// Structural coverage counts.
#[derive(Debug)]
pub struct StructuralCoverage {
    pub with_auction: usize,
    pub with_play: usize,
    pub with_commentary: usize,
    pub with_explicit_contract: usize,
    /// Custom tag → number of deals carrying it.
    pub custom_tags: CountMap,
}

/// Aggregate auction-complexity proxies over deals with an auction.
#[derive(Clone, Copy, Debug)]
pub struct AuctionProfile {
    pub with_auction: usize,
    pub total_bids: usize,
    pub contested: usize,
    pub with_doubles: usize,
    pub total_doubles: usize,
    pub double_of_final: usize,
    pub with_high_bids: usize,
    pub total_high_bids: usize,
}

/// Contract mix: counts by strain label, level and declarer letter.
#[derive(Debug)]
pub struct ContractMix {
    pub by_strain: CountMap,
    pub by_level: CountMap,
    pub by_declarer: CountMap,
}

/// Manually supplied editorial metadata; all fields optional.
#[derive(Debug)]
pub struct Editorial {
    pub licensing: Option<String>,
    pub intended_audience: Option<String>,
    pub commentary_quality: Option<String>,
    pub notes: Option<String>,
}

// ---------------------------------------------------------------------------
// Per-record classification
// ---------------------------------------------------------------------------

/// The histogram bucket of a record.
#[derive(Clone, Copy, PartialEq, Eq, Debug, Structural)]
pub enum Bucket {
    CashOut,
    Establish,
    Technique,
    Unclassified,
    NotMakeable,
    NoContract,
    Incomplete,
}

/// A record's bucket: incomplete without a baseline; no contract without
/// contract facts; not makeable when the contract goes down double-dummy;
/// else its ladder level 0, 1, 2, or unclassified.
pub open spec fn bucket(r: DealRecord) -> Bucket {
    match r.baseline {
        None => Bucket::Incomplete,
        Some(b) => match b.contract {
            None => Bucket::NoContract,
            Some(f) => if !f.dd_makes {
                Bucket::NotMakeable
            } else {
                match r.cardplay {
                    Some(c) => match c.difficulty {
                        Some(d) => if d == 0 {
                            Bucket::CashOut
                        } else if d == 1 {
                            Bucket::Establish
                        } else if d == 2 {
                            Bucket::Technique
                        } else {
                            Bucket::Unclassified
                        },
                        None => Bucket::Unclassified,
                    },
                    None => Bucket::Unclassified,
                }
            },
        },
    }
}

/// Number of records in bucket `b`.
pub open spec fn count_bucket(rs: Seq<DealRecord>, b: Bucket) -> nat
    decreases rs.len(),
{
    if rs.len() == 0 {
        0
    } else {
        count_bucket(rs.drop_last(), b) + if bucket(rs.last()) == b { 1nat } else { 0nat }
    }
}

/// The bucket of a record.
pub fn bucket_of(r: &DealRecord) -> (b: Bucket)
    ensures
        b == bucket(*r),
{
    match &r.baseline {
        None => Bucket::Incomplete,
        Some(b) => match &b.contract {
            None => Bucket::NoContract,
            Some(f) => if !f.dd_makes {
                Bucket::NotMakeable
            } else {
                match &r.cardplay {
                    Some(c) => match c.difficulty {
                        Some(d) => if d == 0 {
                            Bucket::CashOut
                        } else if d == 1 {
                            Bucket::Establish
                        } else if d == 2 {
                            Bucket::Technique
                        } else {
                            Bucket::Unclassified
                        },
                        None => Bucket::Unclassified,
                    },
                    None => Bucket::Unclassified,
                }
            },
        },
    }
}

/// The histogram's buckets add up to the number of records: every record
/// lands in exactly one bucket.
pub proof fn lemma_buckets_partition(rs: Seq<DealRecord>)
    ensures
        count_bucket(rs, Bucket::CashOut) + count_bucket(rs, Bucket::Establish) + count_bucket(rs, Bucket::Technique)
            + count_bucket(rs, Bucket::Unclassified) + count_bucket(rs, Bucket::NotMakeable) + count_bucket(
            rs,
            Bucket::NoContract,
        ) + count_bucket(rs, Bucket::Incomplete) == rs.len(),
    decreases rs.len(),
{
    if rs.len() > 0 {
        lemma_buckets_partition(rs.drop_last());
    }
}

proof fn lemma_count_bucket_le(rs: Seq<DealRecord>, b: Bucket)
    ensures
        count_bucket(rs, b) <= rs.len(),
    decreases rs.len(),
{
    if rs.len() > 0 {
        lemma_count_bucket_le(rs.drop_last(), b);
    }
}

/// The histogram of a record list.
pub open spec fn histogram_ok(h: DifficultyHistogram, rs: Seq<DealRecord>) -> bool {
    &&& h.cash_out_0 == count_bucket(rs, Bucket::CashOut)
    &&& h.establish_1 == count_bucket(rs, Bucket::Establish)
    &&& h.technique_2 == count_bucket(rs, Bucket::Technique)
    &&& h.unclassified == count_bucket(rs, Bucket::Unclassified)
    &&& h.not_makeable == count_bucket(rs, Bucket::NotMakeable)
    &&& h.no_contract == count_bucket(rs, Bucket::NoContract)
    &&& h.incomplete == count_bucket(rs, Bucket::Incomplete)
}

/// Counts the records into the difficulty histogram.
pub fn difficulty_of(records: &Vec<DealRecord>) -> (h: DifficultyHistogram)
    ensures
        histogram_ok(h, records@),
{
    let mut h = DifficultyHistogram {
        cash_out_0: 0,
        establish_1: 0,
        technique_2: 0,
        unclassified: 0,
        not_makeable: 0,
        no_contract: 0,
        incomplete: 0,
    };
    for i in 0..records.len()
        invariant
            histogram_ok(h, records@.take(i as int)),
    {
        let ghost t = records@.take(i + 1);
        assert(t.drop_last() =~= records@.take(i as int));
        proof {
            lemma_count_bucket_le(records@.take(i as int), Bucket::CashOut);
            lemma_count_bucket_le(records@.take(i as int), Bucket::Establish);
            lemma_count_bucket_le(records@.take(i as int), Bucket::Technique);
            lemma_count_bucket_le(records@.take(i as int), Bucket::Unclassified);
            lemma_count_bucket_le(records@.take(i as int), Bucket::NotMakeable);
            lemma_count_bucket_le(records@.take(i as int), Bucket::NoContract);
            lemma_count_bucket_le(records@.take(i as int), Bucket::Incomplete);
        }
        match bucket_of(&records[i]) {
            Bucket::CashOut => h.cash_out_0 += 1,
            Bucket::Establish => h.establish_1 += 1,
            Bucket::Technique => h.technique_2 += 1,
            Bucket::Unclassified => h.unclassified += 1,
            Bucket::NotMakeable => h.not_makeable += 1,
            Bucket::NoContract => h.no_contract += 1,
            Bucket::Incomplete => h.incomplete += 1,
        }
    }
    assert(records@.take(records.len() as int) =~= records@);
    h
}

// ---------------------------------------------------------------------------
// Coverage and auction proxies
// ---------------------------------------------------------------------------

/// A per-record yes/no fact that the profile counts.
#[derive(Clone, Copy, PartialEq, Eq, Debug, Structural)]
pub enum Flag {
    Auction,
    Play,
    Commentary,
    ExplicitContract,
    Contested,
    Doubles,
    DoubleOfFinal,
    HighBids,
}

/// Whether a record has the flag. Auction facts count only for deals with
/// an auction.
pub open spec fn flag(r: DealRecord, f: Flag) -> bool {
    let a = r.structural.auction;
    match f {
        Flag::Auction => a.present,
        Flag::Play => r.structural.play,
        Flag::Commentary => r.structural.commentary.present,
        Flag::ExplicitContract => r.structural.contract_provenance == ContractProvenance::Explicit,
        Flag::Contested => a.present && a.contested,
        Flag::Doubles => a.present && a.doubles > 0,
        Flag::DoubleOfFinal => a.present && a.double_of_final,
        Flag::HighBids => a.present && a.high_bids > 0,
    }
}

/// Number of records with the flag.
pub open spec fn count_flag(rs: Seq<DealRecord>, f: Flag) -> nat
    decreases rs.len(),
{
    if rs.len() == 0 {
        0
    } else {
        count_flag(rs.drop_last(), f) + if flag(rs.last(), f) { 1nat } else { 0nat }
    }
}

/// An auction quantity the profile sums.
#[derive(Clone, Copy, PartialEq, Eq, Debug, Structural)]
pub enum Quantity {
    Bids,
    Doubles,
    HighBids,
}

/// A record's quantity (zero without an auction).
pub open spec fn quantity(r: DealRecord, q: Quantity) -> nat {
    let a = r.structural.auction;
    if !a.present {
        0
    } else {
        match q {
            Quantity::Bids => a.bids as nat,
            Quantity::Doubles => a.doubles as nat,
            Quantity::HighBids => a.high_bids as nat,
        }
    }
}

/// Sum of a quantity over records.
pub open spec fn sum_quantity(rs: Seq<DealRecord>, q: Quantity) -> nat
    decreases rs.len(),
{
    if rs.len() == 0 {
        0
    } else {
        sum_quantity(rs.drop_last(), q) + quantity(rs.last(), q)
    }
}

proof fn lemma_count_flag_le(rs: Seq<DealRecord>, f: Flag)
    ensures
        count_flag(rs, f) <= rs.len(),
    decreases rs.len(),
{
    if rs.len() > 0 {
        lemma_count_flag_le(rs.drop_last(), f);
    }
}

proof fn lemma_sum_quantity_le(rs: Seq<DealRecord>, q: Quantity)
    ensures
        sum_quantity(rs, q) <= 255 * rs.len(),
    decreases rs.len(),
{
    if rs.len() > 0 {
        lemma_sum_quantity_le(rs.drop_last(), q);
    }
}

fn flag_of(r: &DealRecord, f: Flag) -> (b: bool)
    ensures
        b == flag(*r, f),
{
    let a = &r.structural.auction;
    match f {
        Flag::Auction => a.present,
        Flag::Play => r.structural.play,
        Flag::Commentary => r.structural.commentary.present,
        Flag::ExplicitContract => r.structural.contract_provenance == ContractProvenance::Explicit,
        Flag::Contested => a.present && a.contested,
        Flag::Doubles => a.present && a.doubles > 0,
        Flag::DoubleOfFinal => a.present && a.double_of_final,
        Flag::HighBids => a.present && a.high_bids > 0,
    }
}

fn quantity_of(r: &DealRecord, q: Quantity) -> (n: u8)
    ensures
        n as nat == quantity(*r, q),
{
    let a = &r.structural.auction;
    if !a.present {
        0
    } else {
        match q {
            Quantity::Bids => a.bids,
            Quantity::Doubles => a.doubles,
            Quantity::HighBids => a.high_bids,
        }
    }
}

/// Number of records with a flag.
pub fn count_flagged(records: &Vec<DealRecord>, f: Flag) -> (n: usize)
    ensures
        n == count_flag(records@, f),
{
    let mut n: usize = 0;
    for i in 0..records.len()
        invariant
            n == count_flag(records@.take(i as int), f),
    {
        assert(records@.take(i + 1).drop_last() =~= records@.take(i as int));
        proof {
            lemma_count_flag_le(records@.take(i as int), f);
        }
        if flag_of(&records[i], f) {
            n += 1;
        }
    }
    assert(records@.take(records.len() as int) =~= records@);
    n
}

/// Sum of a quantity over records.
pub fn sum_of(records: &Vec<DealRecord>, q: Quantity) -> (n: usize)
    requires
        records@.len() * 255 <= usize::MAX,
    ensures
        n == sum_quantity(records@, q),
{
    let mut n: usize = 0;
    for i in 0..records.len()
        invariant
            records@.len() * 255 <= usize::MAX,
            n == sum_quantity(records@.take(i as int), q),
    {
        assert(records@.take(i + 1).drop_last() =~= records@.take(i as int));
        proof {
            lemma_sum_quantity_le(records@.take(i as int), q);
            assert(255 * i + 255 <= records@.len() * 255) by (nonlinear_arith)
                requires i < records@.len();
        }
        n += quantity_of(&records[i], q) as usize;
    }
    assert(records@.take(records.len() as int) =~= records@);
    n
}

/// The auction profile of a record list.
pub open spec fn auction_profile_ok(a: AuctionProfile, rs: Seq<DealRecord>) -> bool {
    &&& a.with_auction == count_flag(rs, Flag::Auction)
    &&& a.total_bids == sum_quantity(rs, Quantity::Bids)
    &&& a.contested == count_flag(rs, Flag::Contested)
    &&& a.with_doubles == count_flag(rs, Flag::Doubles)
    &&& a.total_doubles == sum_quantity(rs, Quantity::Doubles)
    &&& a.double_of_final == count_flag(rs, Flag::DoubleOfFinal)
    &&& a.with_high_bids == count_flag(rs, Flag::HighBids)
    &&& a.total_high_bids == sum_quantity(rs, Quantity::HighBids)
}

/// Aggregates the auction proxies.
pub fn auction_profile_of(records: &Vec<DealRecord>) -> (a: AuctionProfile)
    requires
        records@.len() * 255 <= usize::MAX,
    ensures
        auction_profile_ok(a, records@),
{
    AuctionProfile {
        with_auction: count_flagged(records, Flag::Auction),
        total_bids: sum_of(records, Quantity::Bids),
        contested: count_flagged(records, Flag::Contested),
        with_doubles: count_flagged(records, Flag::Doubles),
        total_doubles: sum_of(records, Quantity::Doubles),
        double_of_final: count_flagged(records, Flag::DoubleOfFinal),
        with_high_bids: count_flagged(records, Flag::HighBids),
        total_high_bids: sum_of(records, Quantity::HighBids),
    }
}

} // verus!

verus! {

// ---------------------------------------------------------------------------
// Keyed counts: techniques, custom tags, contract mix
// ---------------------------------------------------------------------------

/// `(level, strain label, declarer letter)` of a contract display such as
/// "4H by S": the text before the first " by " must parse as a contract,
/// and the text after it must be non-empty.
pub open spec fn parse_contract_display(d: Seq<char>) -> Option<(u8, Seq<char>, char)> {
    match crate::text::first_occurrence(d, " by "@) {
        Some(k) => {
            let decl = d.skip(k + 4);
            match parse_contract_spec(d.take(k)) {
                Some(c) => if decl.len() > 0 { Some((c.level, strain_text(c.strain), decl[0])) } else { None },
                None => None,
            }
        },
        None => None,
    }
}

/// Parses a contract display "4H by S" into level, strain label and
/// declarer letter.
pub fn parse_contract(display: &str) -> (r: Option<(u8, String, char)>)
    ensures
        r matches Some((l, s, c)) ==> parse_contract_display(display@) == Some((l, s@, c)),
        r is None ==> parse_contract_display(display@) is None,
{
    proof {
        reveal_strlit(" by ");
    }
    let d = crate::text::chars_of(display);
    let sep = crate::text::chars_of(" by ");
    let k = match crate::text::find_chars(&d, &sep) {
        Some(k) => k,
        None => return None,
    };
    let head = crate::text::string_of(&crate::text::slice_chars(&d, 0, k));
    assert(head@ =~= display@.take(k as int));
    let c = match Contract::parse(head.as_str()) {
        Some(c) => c,
        None => return None,
    };
    if k + 4 >= d.len() {
        assert(display@.skip(k + 4).len() == 0);
        return None;
    }
    let decl = d[k + 4];
    assert(display@.skip(k + 4)[0] == decl);
    Some((c.level, strain_label(c.strain), decl))
}

/// The strain label used in the contract mix: C, D, H, S or NT.
pub fn strain_label(s: Strain) -> (r: String)
    ensures
        r@ == strain_text(s),
{
    let mut r = String::new();
    crate::auction::push_strain(&mut r, s);
    assert(r@ =~= strain_text(s));
    r
}

/// Which keyed count.
#[derive(Clone, Copy, PartialEq, Eq, Debug, Structural)]
pub enum KeyKind {
    Technique,
    CustomTag,
    Strain,
    Level,
    Declarer,
}

/// Names of the probes that fired, in order.
pub open spec fn fired_names(p: Seq<crate::model::ProbeRecord>) -> Seq<Seq<char>>
    decreases p.len(),
{
    if p.len() == 0 {
        Seq::empty()
    } else if p.last().fired {
        fired_names(p.drop_last()).push(p.last().name@)
    } else {
        fired_names(p.drop_last())
    }
}

/// The contract display of a record's contract facts, if any.
pub open spec fn facts_display(r: DealRecord) -> Option<Seq<char>> {
    match r.baseline {
        Some(b) => match b.contract {
            Some(f) => Some(f.contract@),
            None => None,
        },
        None => None,
    }
}

/// The keys a record contributes to a keyed count.
pub open spec fn rec_keys(r: DealRecord, kind: KeyKind) -> Seq<Seq<char>> {
    match kind {
        KeyKind::Technique => fired_names(r.probes@),
        KeyKind::CustomTag => distinct(crate::structural::string_views(r.structural.custom_tags@)),
        _ => match facts_display(r) {
            Some(d) => match parse_contract_display(d) {
                Some((level, strain, decl)) => match kind {
                    KeyKind::Strain => seq![strain],
                    KeyKind::Level => seq![decimal(level as nat)],
                    _ => seq![seq![decl]],
                },
                None => Seq::empty(),
            },
            None => Seq::empty(),
        },
    }
}

/// The names of a list, each once, in order of first appearance.
pub open spec fn distinct(s: Seq<Seq<char>>) -> Seq<Seq<char>>
    decreases s.len(),
{
    if s.len() == 0 {
        s
    } else {
        let d = distinct(s.drop_last());
        if d.contains(s.last()) { d } else { d.push(s.last()) }
    }
}

proof fn lemma_distinct_contains(s: Seq<Seq<char>>, x: Seq<char>)
    ensures
        distinct(s).contains(x) <==> s.contains(x),
    decreases s.len(),
{
    if s.len() > 0 {
        lemma_distinct_contains(s.drop_last(), x);
        let d = distinct(s.drop_last());
        if s.contains(x) && !s.drop_last().contains(x) {
            let i = choose|i: int| 0 <= i < s.len() && s[i] == x;
            if i < s.len() - 1 {
                assert(s.drop_last()[i] == x);
            }
        }
        if s.drop_last().contains(x) {
            let i = choose|i: int| 0 <= i < s.drop_last().len() && s.drop_last()[i] == x;
            assert(s[i] == x);
        }
        if !d.contains(s.last()) {
            assert(d.push(s.last())[d.len() as int] == s.last());
            if d.push(s.last()).contains(x) {
                let j = choose|j: int| 0 <= j < d.len() + 1 && d.push(s.last())[j] == x;
                if j < d.len() {
                    assert(d[j] == x);
                }
            }
            if d.contains(x) {
                let j = choose|j: int| 0 <= j < d.len() && d[j] == x;
                assert(d.push(s.last())[j] == x);
            }
        }
        assert(s[s.len() - 1] == s.last());
    }
}

/// A name occurs at most once among the distinct names: once when the list
/// holds it, else not at all.
proof fn lemma_distinct_occurrences(s: Seq<Seq<char>>, x: Seq<char>)
    ensures
        occurrences(distinct(s), x) == if s.contains(x) { 1nat } else { 0nat },
    decreases s.len(),
{
    if s.len() > 0 {
        lemma_distinct_occurrences(s.drop_last(), x);
        lemma_distinct_contains(s.drop_last(), x);
        lemma_distinct_contains(s.drop_last(), s.last());
        let d = distinct(s.drop_last());
        if !d.contains(s.last()) {
            assert(d.push(s.last()).drop_last() =~= d);
        }
        if s.drop_last().contains(x) {
            let i = choose|i: int| 0 <= i < s.drop_last().len() && s.drop_last()[i] == x;
            assert(s[i] == x);
        }
        if s.contains(x) && !s.drop_last().contains(x) {
            let i = choose|i: int| 0 <= i < s.len() && s[i] == x;
            if i < s.len() - 1 {
                assert(s.drop_last()[i] == x);
            }
        }
        assert(s[s.len() - 1] == s.last());
    }
}

/// Deals whose custom tags include `k`.
pub open spec fn deals_carrying(rs: Seq<DealRecord>, k: Seq<char>) -> nat
    decreases rs.len(),
{
    if rs.len() == 0 {
        0
    } else {
        deals_carrying(rs.drop_last(), k)
            + if crate::structural::string_views(rs.last().structural.custom_tags@).contains(k) { 1nat } else { 0nat }
    }
}

/// The custom-tag count of a name is the number of deals carrying it.
pub proof fn lemma_custom_tag_total(rs: Seq<DealRecord>, k: Seq<char>)
    ensures
        key_total(rs, KeyKind::CustomTag, k) == deals_carrying(rs, k),
    decreases rs.len(),
{
    if rs.len() > 0 {
        lemma_custom_tag_total(rs.drop_last(), k);
        lemma_distinct_occurrences(crate::structural::string_views(rs.last().structural.custom_tags@), k);
    }
}

fn distinct_tags(tags: &Vec<String>) -> (out: Vec<String>)
    ensures
        crate::structural::string_views(out@) == distinct(crate::structural::string_views(tags@)),
{
    let ghost sv = crate::structural::string_views(tags@);
    let mut out: Vec<String> = Vec::new();
    for i in 0..tags.len()
        invariant
            sv == crate::structural::string_views(tags@),
            crate::structural::string_views(out@) == distinct(sv.take(i as int)),
    {
        assert(sv.take(i + 1).drop_last() =~= sv.take(i as int));
        assert(sv.take(i + 1).last() == tags@[i as int]@);
        let ghost ov = crate::structural::string_views(out@);
        let mut seen = false;
        let mut j: usize = 0;
        while j < out.len()
            invariant
                j <= out.len(),
                i < tags.len(),
                ov == crate::structural::string_views(out@),
                seen <==> exists|m: int| 0 <= m < j && ov[m] == tags@[i as int]@,
            decreases out.len() - j,
        {
            assert(ov[j as int] == out@[j as int]@);
            if crate::text::str_eq(out[j].as_str(), tags[i].as_str()) {
                seen = true;
            }
            assert(seen <==> exists|m: int| 0 <= m < j + 1 && ov[m] == tags@[i as int]@) by {
                if ov[j as int] == tags@[i as int]@ {
                    assert(0 <= j < j + 1 && ov[j as int] == tags@[i as int]@);
                }
            }
            j = j + 1;
        }
        assert(seen <==> ov.contains(tags@[i as int]@));
        if !seen {
            let c = crate::text::copy_string(&tags[i]);
            out.push(c);
            assert(crate::structural::string_views(out@) =~= ov.push(tags@[i as int]@));
        }
    }
    assert(sv.take(tags.len() as int) =~= sv);
    out
}

/// Occurrences of `k` in a key list.
pub open spec fn occurrences(keys: Seq<Seq<char>>, k: Seq<char>) -> nat
    decreases keys.len(),
{
    if keys.len() == 0 {
        0
    } else {
        occurrences(keys.drop_last(), k) + if keys.last() == k { 1nat } else { 0nat }
    }
}

/// Occurrences of `k` over all records' keys.
pub open spec fn key_total(rs: Seq<DealRecord>, kind: KeyKind, k: Seq<char>) -> nat
    decreases rs.len(),
{
    if rs.len() == 0 {
        0
    } else {
        key_total(rs.drop_last(), kind, k) + occurrences(rec_keys(rs.last(), kind), k)
    }
}

/// Number of keys over all records.
pub open spec fn key_volume(rs: Seq<DealRecord>, kind: KeyKind) -> nat
    decreases rs.len(),
{
    if rs.len() == 0 {
        0
    } else {
        key_volume(rs.drop_last(), kind) + rec_keys(rs.last(), kind).len()
    }
}

proof fn lemma_count_le_total(e: Seq<(String, usize)>, k: Seq<char>)
    ensures
        count_of(e, k) <= crate::sorted_map::total_count(e),
    decreases e.len(),
{
    if e.len() > 0 && has_key(e, k) {
        let p = key_pos(e, k);
        if p < e.len() - 1 {
            assert(e.drop_last()[p] == e[p]);
            assert(has_key(e.drop_last(), k));
            lemma_count_le_total(e.drop_last(), k);
            lemma_entry_le_total(e.drop_last(), p);
        }
    }
}

proof fn lemma_entry_le_total(e: Seq<(String, usize)>, p: int)
    requires
        0 <= p < e.len(),
    ensures
        e[p].1 <= crate::sorted_map::total_count(e),
    decreases e.len(),
{
    if p < e.len() - 1 {
        lemma_entry_le_total(e.drop_last(), p);
    }
}

fn fired_names_of(p: &Vec<crate::model::ProbeRecord>) -> (r: Vec<String>)
    ensures
        crate::structural::string_views(r@) == fired_names(p@),
{
    let mut r: Vec<String> = Vec::new();
    for i in 0..p.len()
        invariant
            crate::structural::string_views(r@) == fired_names(p@.take(i as int)),
    {
        assert(p@.take(i + 1).drop_last() =~= p@.take(i as int));
        if p[i].fired {
            let ghost before = r@;
            r.push(crate::text::copy_string(&p[i].name));
            assert(crate::structural::string_views(r@) =~= crate::structural::string_views(before).push(p@[i as int].name@));
        }
    }
    assert(p@.take(p.len() as int) =~= p@);
    r
}

/// The keys a record contributes to a keyed count.
pub fn keys_of(r: &DealRecord, kind: KeyKind) -> (keys: Vec<String>)
    ensures
        crate::structural::string_views(keys@) == rec_keys(*r, kind),
{
    match kind {
        KeyKind::Technique => fired_names_of(&r.probes),
        KeyKind::CustomTag => distinct_tags(&r.structural.custom_tags),
        _ => {
            let mut out: Vec<String> = Vec::new();
            let display = match &r.baseline {
                Some(b) => match &b.contract {
                    Some(f) => Some(&f.contract),
                    None => None,
                },
                None => None,
            };
            if let Some(d) = display {
                if let Some((level, strain, decl)) = parse_contract(d.as_str()) {
                    let key = match kind {
                        KeyKind::Strain => strain,
                        KeyKind::Level => crate::text::decimal_string(level as u64),
                        _ => {
                            let mut s = String::new();
                            crate::text::push_char(&mut s, decl);
                            assert(s@ =~= seq![decl]);
                            s
                        },
                    };
                    out.push(key);
                }
            }
            assert(crate::structural::string_views(out@) =~= rec_keys(*r, kind));
            out
        },
    }
}

proof fn lemma_occurrences_le(keys: Seq<Seq<char>>, k: Seq<char>)
    ensures
        occurrences(keys, k) <= keys.len(),
    decreases keys.len(),
{
    if keys.len() > 0 {
        lemma_occurrences_le(keys.drop_last(), k);
    }
}

proof fn lemma_key_total_le(rs: Seq<DealRecord>, kind: KeyKind, k: Seq<char>)
    ensures
        key_total(rs, kind, k) <= key_volume(rs, kind),
    decreases rs.len(),
{
    if rs.len() > 0 {
        lemma_key_total_le(rs.drop_last(), kind, k);
        lemma_occurrences_le(rec_keys(rs.last(), kind), k);
    }
}

proof fn lemma_key_volume_prefix(rs: Seq<DealRecord>, kind: KeyKind, i: int)
    requires
        0 <= i <= rs.len(),
    ensures
        key_volume(rs.take(i), kind) <= key_volume(rs, kind),
    decreases rs.len() - i,
{
    if i < rs.len() {
        lemma_key_volume_prefix(rs, kind, i + 1);
        assert(rs.take(i + 1).drop_last() =~= rs.take(i));
    } else {
        assert(rs.take(i) =~= rs);
    }
}

/// Counts every key every record contributes.
pub fn count_keys(records: &Vec<DealRecord>, kind: KeyKind) -> (m: CountMap)
    requires
        key_volume(records@, kind) < usize::MAX,
    ensures
        m.wf(),
        forall|k: Seq<char>| #[trigger] m.count(k) == key_total(records@, kind, k),
        crate::sorted_map::total_count(m.entries@) == key_volume(records@, kind),
{
    let mut m = CountMap::new();
    for i in 0..records.len()
        invariant
            key_volume(records@, kind) < usize::MAX,
            m.wf(),
            forall|k: Seq<char>| #[trigger] m.count(k) == key_total(records@.take(i as int), kind, k),
            crate::sorted_map::total_count(m.entries@) == key_volume(records@.take(i as int), kind),
    {
        let ghost t = records@.take(i + 1);
        assert(t.drop_last() =~= records@.take(i as int));
        proof {
            lemma_key_volume_prefix(records@, kind, i + 1);
        }
        let keys = keys_of(&records[i], kind);
        let ghost ks = crate::structural::string_views(keys@);
        assert(key_volume(t, kind) == key_volume(records@.take(i as int), kind) + ks.len());
        for j in 0..keys.len()
            invariant
                key_volume(records@, kind) < usize::MAX,
                key_volume(t, kind) <= key_volume(records@, kind),
                ks == rec_keys(records@[i as int], kind),
                ks == crate::structural::string_views(keys@),
                t.drop_last() == records@.take(i as int),
                t.last() == records@[i as int],
                key_volume(t, kind) == key_volume(records@.take(i as int), kind) + ks.len(),
                ks.len() == keys.len(),
                m.wf(),
                forall|k: Seq<char>| #[trigger] m.count(k) == key_total(records@.take(i as int), kind, k) + occurrences(ks.take(j as int), k),
                crate::sorted_map::total_count(m.entries@) == key_volume(records@.take(i as int), kind) + j,
        {
            assert(ks.take(j + 1).drop_last() =~= ks.take(j as int));
            assert(ks.take(j + 1).last() == keys@[j as int]@);
            proof {
                lemma_count_le_total(m.entries@, keys@[j as int]@);
            }
            m.increment(&keys[j]);
        }
        assert(ks.take(keys.len() as int) =~= ks);
    }
    assert(records@.take(records.len() as int) =~= records@);
    m
}

/// The contract mix: counts by strain label, level and declarer letter over
/// records with contract facts whose display parses.
pub fn contract_mix_of(records: &Vec<DealRecord>) -> (c: ContractMix)
    requires
        key_volume(records@, KeyKind::Strain) < usize::MAX,
        key_volume(records@, KeyKind::Level) < usize::MAX,
        key_volume(records@, KeyKind::Declarer) < usize::MAX,
    ensures
        c.by_strain.wf() && c.by_level.wf() && c.by_declarer.wf(),
        forall|k: Seq<char>| #[trigger] c.by_strain.count(k) == key_total(records@, KeyKind::Strain, k),
        forall|k: Seq<char>| #[trigger] c.by_level.count(k) == key_total(records@, KeyKind::Level, k),
        forall|k: Seq<char>| #[trigger] c.by_declarer.count(k) == key_total(records@, KeyKind::Declarer, k),
{
    ContractMix {
        by_strain: count_keys(records, KeyKind::Strain),
        by_level: count_keys(records, KeyKind::Level),
        by_declarer: count_keys(records, KeyKind::Declarer),
    }
}

} // verus!

verus! {

// ---------------------------------------------------------------------------
// Breakdowns: per topic, per lesson, per category
// ---------------------------------------------------------------------------

/// Difficulty within one group of deals: the authored baseline prior beside
/// the observed, objective difficulty, so the baselines can be calibrated.
#[derive(Debug)]
pub struct TopicStats {
    pub deal_count: usize,
    /// Resolved topic (per-lesson breakdown only; empty elsewhere).
    pub topic: String,
    /// Lesson category (per-lesson breakdown only).
    pub category: String,
    /// Lesson label (per-lesson breakdown only).
    pub lesson: String,
    pub baseline_bidding: u8,
    pub baseline_cardplay: u8,
    /// Observed ladder among making contracts: levels 0, 1, 2.
    pub observed_cardplay: [usize; 3],
    pub observed_unclassified: usize,
    pub not_makeable: usize,
    pub with_auction: usize,
    pub total_bids: usize,
    pub contested: usize,
    /// Sum over making, classified deals of max(0, baseline + level - 1).
    pub combined_cardplay_sum: usize,
    pub combined_cardplay_n: usize,
    /// Sum over deals with an auction of max(0, baseline + auction level - 1).
    pub combined_bidding_sum: usize,
    pub combined_bidding_n: usize,
}

/// The plain content of a `TopicStats`.
pub struct StatsView {
    pub deal_count: int,
    pub topic: Seq<char>,
    pub category: Seq<char>,
    pub lesson: Seq<char>,
    pub baseline_bidding: u8,
    pub baseline_cardplay: u8,
    pub observed0: int,
    pub observed1: int,
    pub observed2: int,
    pub observed_unclassified: int,
    pub not_makeable: int,
    pub with_auction: int,
    pub total_bids: int,
    pub contested: int,
    pub cp_sum: int,
    pub cp_n: int,
    pub bid_sum: int,
    pub bid_n: int,
}

/// The content of a `TopicStats`.
pub open spec fn stats_view(t: &TopicStats) -> StatsView {
    StatsView {
        deal_count: t.deal_count as int,
        topic: t.topic@,
        category: t.category@,
        lesson: t.lesson@,
        baseline_bidding: t.baseline_bidding,
        baseline_cardplay: t.baseline_cardplay,
        observed0: t.observed_cardplay@[0] as int,
        observed1: t.observed_cardplay@[1] as int,
        observed2: t.observed_cardplay@[2] as int,
        observed_unclassified: t.observed_unclassified as int,
        not_makeable: t.not_makeable as int,
        with_auction: t.with_auction as int,
        total_bids: t.total_bids as int,
        contested: t.contested as int,
        cp_sum: t.combined_cardplay_sum as int,
        cp_n: t.combined_cardplay_n as int,
        bid_sum: t.combined_bidding_sum as int,
        bid_n: t.combined_bidding_n as int,
    }
}

/// Empty statistics.
pub open spec fn zero_stats() -> StatsView {
    StatsView {
        deal_count: 0,
        topic: Seq::empty(),
        category: Seq::empty(),
        lesson: Seq::empty(),
        baseline_bidding: 0,
        baseline_cardplay: 0,
        observed0: 0,
        observed1: 0,
        observed2: 0,
        observed_unclassified: 0,
        not_makeable: 0,
        with_auction: 0,
        total_bids: 0,
        contested: 0,
        cp_sum: 0,
        cp_n: 0,
        bid_sum: 0,
        bid_n: 0,
    }
}

/// Auction complexity 0/1/2 from the cheap proxies: the number of signals
/// among {contested, any double, double of the final contract, any high
/// bid}; 0 when there is none and at most three bids, 2 with two or more
/// signals, else 1.
pub open spec fn auction_level_spec(a: AuctionInfo) -> int {
    let signals = (if a.contested { 1int } else { 0int }) + (if a.doubles > 0 { 1int } else { 0int })
        + (if a.double_of_final { 1int } else { 0int }) + (if a.high_bids > 0 { 1int } else { 0int });
    if signals == 0 && a.bids <= 3 {
        0
    } else if signals >= 2 {
        2
    } else {
        1
    }
}

/// Buckets a deal's auction complexity 0/1/2 (see `auction_level_spec`).
pub fn auction_complexity_level(a: &AuctionInfo) -> (l: u8)
    ensures
        l as int == auction_level_spec(*a),
{
    let signals: u8 = (if a.contested { 1u8 } else { 0u8 }) + (if a.doubles > 0 { 1u8 } else { 0u8 }) + (
    if a.double_of_final { 1u8 } else { 0u8 }) + (if a.high_bids > 0 { 1u8 } else { 0u8 });
    if signals == 0 && a.bids <= 3 {
        0
    } else if signals >= 2 {
        2
    } else {
        1
    }
}

/// `max(0, x)`.
pub open spec fn clamp0(x: int) -> int {
    if x < 0 { 0 } else { x }
}

/// The record's contract makes double-dummy.
pub open spec fn rec_makes(r: DealRecord) -> bool {
    match r.baseline {
        Some(b) => match b.contract {
            Some(f) => f.dd_makes,
            None => false,
        },
        None => false,
    }
}

/// The record's ladder level, if any.
pub open spec fn rec_level(r: DealRecord) -> Option<u8> {
    match r.cardplay {
        Some(c) => c.difficulty,
        None => None,
    }
}

/// One record folded into a group's statistics with the group's baseline:
/// the deal count; auction proxies and the combined bidding score (baseline
/// nudged ±1 by the auction level) for deals with an auction; and either
/// not-makeable, or the observed level and the combined cardplay score
/// (baseline nudged ±1 by the level), or unclassified.
pub open spec fn acc_view(s: StatsView, r: DealRecord, base: crate::topics::Baseline) -> StatsView {
    let a = r.structural.auction;
    let s1 = StatsView { deal_count: s.deal_count + 1, baseline_bidding: base.bidding, baseline_cardplay: base.cardplay, ..s };
    let s2 = if a.present {
        StatsView {
            with_auction: s1.with_auction + 1,
            total_bids: s1.total_bids + a.bids,
            contested: s1.contested + if a.contested { 1int } else { 0int },
            bid_sum: s1.bid_sum + clamp0(base.bidding + auction_level_spec(a) - 1),
            bid_n: s1.bid_n + 1,
            ..s1
        }
    } else {
        s1
    };
    if !rec_makes(r) {
        StatsView { not_makeable: s2.not_makeable + 1, ..s2 }
    } else {
        match rec_level(r) {
            Some(l) => if l <= 2 {
                StatsView {
                    observed0: s2.observed0 + if l == 0 { 1int } else { 0int },
                    observed1: s2.observed1 + if l == 1 { 1int } else { 0int },
                    observed2: s2.observed2 + if l == 2 { 1int } else { 0int },
                    cp_sum: s2.cp_sum + clamp0(base.cardplay + l - 1),
                    cp_n: s2.cp_n + 1,
                    ..s2
                }
            } else {
                StatsView { observed_unclassified: s2.observed_unclassified + 1, ..s2 }
            },
            None => StatsView { observed_unclassified: s2.observed_unclassified + 1, ..s2 },
        }
    }
}

/// Every counter of the statistics is at most `bound`.
pub open spec fn stats_bounded(s: StatsView, bound: int) -> bool {
    &&& 0 <= s.deal_count <= bound
    &&& 0 <= s.observed0 <= bound
    &&& 0 <= s.observed1 <= bound
    &&& 0 <= s.observed2 <= bound
    &&& 0 <= s.observed_unclassified <= bound
    &&& 0 <= s.not_makeable <= bound
    &&& 0 <= s.with_auction <= bound
    &&& 0 <= s.total_bids <= bound
    &&& 0 <= s.contested <= bound
    &&& 0 <= s.cp_sum <= bound
    &&& 0 <= s.cp_n <= bound
    &&& 0 <= s.bid_sum <= bound
    &&& 0 <= s.bid_n <= bound
}

/// Folds one record into group statistics.
pub fn accumulate(st: &mut TopicStats, rec: &DealRecord, base: crate::topics::Baseline)
    requires
        stats_bounded(stats_view(&*old(st)), usize::MAX - 300),
    ensures
        stats_view(&*final(st)) == acc_view(stats_view(&*old(st)), *rec, base),
{
    st.deal_count += 1;
    st.baseline_bidding = base.bidding;
    st.baseline_cardplay = base.cardplay;
    let a = &rec.structural.auction;
    if a.present {
        st.with_auction += 1;
        st.total_bids += a.bids as usize;
        if a.contested {
            st.contested += 1;
        }
        let level = auction_complexity_level(a);
        let c: i32 = base.bidding as i32 + level as i32 - 1;
        st.combined_bidding_sum += if c < 0 { 0 } else { c as usize };
        st.combined_bidding_n += 1;
    }
    let makes = match &rec.baseline {
        Some(b) => match &b.contract {
            Some(f) => f.dd_makes,
            None => false,
        },
        None => false,
    };
    if !makes {
        st.not_makeable += 1;
    } else {
        let level = match &rec.cardplay {
            Some(c) => c.difficulty,
            None => None,
        };
        match level {
            Some(l) => {
                if l <= 2 {
                    let k = l as usize;
                    st.observed_cardplay[k] = st.observed_cardplay[k] + 1;
                    let c: i32 = base.cardplay as i32 + l as i32 - 1;
                    st.combined_cardplay_sum += if c < 0 { 0 } else { c as usize };
                    st.combined_cardplay_n += 1;
                } else {
                    st.observed_unclassified += 1;
                }
            },
            None => {
                st.observed_unclassified += 1;
            },
        }
    }
}

/// Empty statistics.
pub fn new_stats() -> (t: TopicStats)
    ensures
        stats_view(&t) == zero_stats(),
{
    let t = TopicStats {
        deal_count: 0,
        topic: String::new(),
        category: String::new(),
        lesson: String::new(),
        baseline_bidding: 0,
        baseline_cardplay: 0,
        observed_cardplay: [0, 0, 0],
        observed_unclassified: 0,
        not_makeable: 0,
        with_auction: 0,
        total_bids: 0,
        contested: 0,
        combined_cardplay_sum: 0,
        combined_cardplay_n: 0,
        combined_bidding_sum: 0,
        combined_bidding_n: 0,
    };
    assert(stats_view(&t) =~= zero_stats());
    t
}

/// Group statistics keyed by text, sorted by key.
#[derive(Debug)]
pub struct StatsMap {
    pub entries: Vec<(String, TopicStats)>,
}

/// Sum of the groups' deal counts.
pub open spec fn sum_deals(e: Seq<(String, TopicStats)>) -> int
    decreases e.len(),
{
    if e.len() == 0 { 0 } else { sum_deals(e.drop_last()) + e.last().1.deal_count }
}

proof fn lemma_sum_deals_update(e: Seq<(String, TopicStats)>, i: int, v: TopicStats)
    requires
        0 <= i < e.len(),
    ensures
        sum_deals(e.update(i, (e[i].0, v))) == sum_deals(e) - e[i].1.deal_count + v.deal_count,
    decreases e.len(),
{
    let f = e.update(i, (e[i].0, v));
    if i < e.len() - 1 {
        lemma_sum_deals_update(e.drop_last(), i, v);
        assert(f.drop_last() =~= e.drop_last().update(i, (e[i].0, v)));
    } else {
        assert(f.drop_last() =~= e.drop_last());
    }
}

proof fn lemma_sum_deals_insert(e: Seq<(String, TopicStats)>, i: int, x: (String, TopicStats))
    requires
        0 <= i <= e.len(),
    ensures
        sum_deals(e.insert(i, x)) == sum_deals(e) + x.1.deal_count,
    decreases e.len(),
{
    let f = e.insert(i, x);
    if i < e.len() {
        lemma_sum_deals_insert(e.drop_last(), i, x);
        assert(f.drop_last() =~= e.drop_last().insert(i, x));
    } else {
        assert(f.drop_last() =~= e);
    }
}

/// The group statistics of key `k` (zero when absent).
pub open spec fn group_view(e: Seq<(String, TopicStats)>, k: Seq<char>) -> StatsView {
    if has_key(e, k) { stats_view(&e[key_pos(e, k)].1) } else { zero_stats() }
}

/// Labels given to a lesson group: topic, category, lesson.
pub struct Labels {
    pub topic: String,
    pub category: String,
    pub lesson: String,
}

/// Statistics with the labels set.
pub open spec fn labelled(s: StatsView, l: Option<(Seq<char>, Seq<char>, Seq<char>)>) -> StatsView {
    match l {
        Some((t, c, n)) => StatsView { topic: t, category: c, lesson: n, ..s },
        None => s,
    }
}

/// The content of optional labels.
pub open spec fn labels_view(l: &Option<Labels>) -> Option<(Seq<char>, Seq<char>, Seq<char>)> {
    match l {
        Some(x) => Some((x.topic@, x.category@, x.lesson@)),
        None => None,
    }
}

/// Folds a record into the group `key` (creating it when new), setting the
/// labels first when given.
pub fn add_to_group(m: &mut StatsMap, key: &String, labels: Option<Labels>, rec: &DealRecord, base: crate::topics::Baseline)
    requires
        keys_sorted(old(m).entries@),
        stats_bounded(group_view(old(m).entries@, key@), usize::MAX - 300),
    ensures
        keys_sorted(final(m).entries@),
        has_key(final(m).entries@, key@),
        group_view(final(m).entries@, key@) == acc_view(labelled(group_view(old(m).entries@, key@), labels_view(&labels)), *rec, base),
        forall|x: Seq<char>| x != key@ ==> #[trigger] has_key(final(m).entries@, x) == has_key(old(m).entries@, x),
        forall|x: Seq<char>| x != key@ ==> #[trigger] group_view(final(m).entries@, x) == group_view(old(m).entries@, x),
        sum_deals(final(m).entries@) == sum_deals(old(m).entries@) + 1,
{
    let ghost e = m.entries@;
    let ghost lv = labels_view(&labels);
    let (found, i) = crate::sorted_map::locate(&m.entries, key);
    if found {
        proof {
            crate::sorted_map::lemma_key_unique(e, i as int, key_pos(e, key@));
        }
        let (k, mut st) = m.entries.remove(i);
        let ghost e1 = m.entries@;
        match labels {
            Some(l) => {
                st.topic = l.topic;
                st.category = l.category;
                st.lesson = l.lesson;
            },
            None => {},
        }
        assert(stats_view(&st) == labelled(group_view(e, key@), lv));
        accumulate(&mut st, rec, base);
        let ghost vst = st;
        m.entries.insert(i, (k, st));
        proof {
            assert(e1.insert(i as int, (k, vst)) =~= e.update(i as int, (e[i as int].0, vst)));
            crate::sorted_map::lemma_update_value(e, i as int, vst);
            lemma_sum_deals_update(e, i as int, vst);
            let f = m.entries@;
            assert forall|x: Seq<char>| x != key@ implies #[trigger] group_view(f, x) == group_view(e, x) by {
                if has_key(e, x) {
                    assert(key_pos(f, x) != i) by {
                        if key_pos(f, x) == i {
                            assert(f[i as int].0@ == key@);
                        }
                    }
                }
            }
        }
    } else {
        let mut st = new_stats();
        match labels {
            Some(l) => {
                st.topic = l.topic;
                st.category = l.category;
                st.lesson = l.lesson;
            },
            None => {},
        }
        assert(stats_view(&st) == labelled(group_view(e, key@), lv));
        accumulate(&mut st, rec, base);
        let k = crate::text::copy_string(key);
        let ghost entry = (k, st);
        m.entries.insert(i, (k, st));
        proof {
            crate::sorted_map::lemma_insert_new(e, i as int, entry);
            lemma_sum_deals_insert(e, i as int, entry);
        }
    }
}

} // verus!

verus! {

/// Which breakdown.
#[derive(Clone, Copy, PartialEq, Eq, Debug, Structural)]
pub enum GroupKind {
    Topic,
    Lesson,
    Category,
}

/// A record's category: its source category, or "(uncategorized)" when
/// empty.
pub open spec fn rec_category(r: DealRecord) -> Seq<char> {
    if r.source.category@.len() == 0 { "(uncategorized)"@ } else { r.source.category@ }
}

/// A record's topic and baseline: resolved from its lesson path with a
/// topic table, else "(none)" with a zero baseline.
pub open spec fn rec_resolution(r: DealRecord, topics: Option<&crate::topics::Topics>) -> (Seq<char>, crate::topics::Baseline) {
    match topics {
        Some(t) => crate::topics::resolve_spec(t, r.source.file@),
        None => ("(none)"@, crate::topics::Baseline { bidding: 0, cardplay: 0 }),
    }
}

/// A record's lesson name.
pub open spec fn rec_lesson(r: DealRecord) -> Seq<char> {
    crate::lessons::lesson_of_spec(r.source.file@, rec_category(r))
}

/// The group a record belongs to in a breakdown: its topic, its
/// "category NUL lesson", or its category.
pub open spec fn group_key(r: DealRecord, kind: GroupKind, topics: Option<&crate::topics::Topics>) -> Seq<char> {
    match kind {
        GroupKind::Topic => rec_resolution(r, topics).0,
        GroupKind::Lesson => rec_category(r) + seq!['\0'] + rec_lesson(r),
        GroupKind::Category => rec_category(r),
    }
}

/// The labels a record gives its lesson group.
pub open spec fn rec_labels(r: DealRecord, kind: GroupKind, topics: Option<&crate::topics::Topics>) -> Option<(Seq<char>, Seq<char>, Seq<char>)> {
    if kind == GroupKind::Lesson {
        Some((rec_resolution(r, topics).0, rec_category(r), rec_lesson(r)))
    } else {
        None
    }
}

/// The statistics of group `k`: the records of that group folded in order.
pub open spec fn group_stats(rs: Seq<DealRecord>, kind: GroupKind, topics: Option<&crate::topics::Topics>, k: Seq<char>) -> StatsView
    decreases rs.len(),
{
    if rs.len() == 0 {
        zero_stats()
    } else {
        let s = group_stats(rs.drop_last(), kind, topics, k);
        let r = rs.last();
        if group_key(r, kind, topics) == k {
            acc_view(labelled(s, rec_labels(r, kind, topics)), r, rec_resolution(r, topics).1)
        } else {
            s
        }
    }
}

proof fn lemma_acc_bounded(s: StatsView, r: DealRecord, base: crate::topics::Baseline, l: Option<(Seq<char>, Seq<char>, Seq<char>)>, b: int)
    requires
        stats_bounded(s, b),
    ensures
        stats_bounded(acc_view(labelled(s, l), r, base), b + 300),
{
}

proof fn lemma_group_bounded(rs: Seq<DealRecord>, kind: GroupKind, topics: Option<&crate::topics::Topics>, k: Seq<char>)
    ensures
        stats_bounded(group_stats(rs, kind, topics, k), 300 * (rs.len() as int)),
    decreases rs.len(),
{
    if rs.len() > 0 {
        lemma_group_bounded(rs.drop_last(), kind, topics, k);
        let r = rs.last();
        if group_key(r, kind, topics) == k {
            lemma_acc_bounded(group_stats(rs.drop_last(), kind, topics, k), r, rec_resolution(r, topics).1, rec_labels(r, kind, topics), 300 * (rs.len() - 1));
        }
    }
}

/// A breakdown map holds exactly the groups of the records, each with its
/// folded statistics, and its deal counts add up to the number of records.
pub open spec fn breakdown_ok(m: &StatsMap, rs: Seq<DealRecord>, kind: GroupKind, topics: Option<&crate::topics::Topics>) -> bool {
    &&& keys_sorted(m.entries@)
    &&& forall|k: Seq<char>| #[trigger] has_key(m.entries@, k) == (group_stats(rs, kind, topics, k).deal_count > 0)
    &&& forall|k: Seq<char>| #[trigger] group_view(m.entries@, k) == group_stats(rs, kind, topics, k)
    &&& sum_deals(m.entries@) == rs.len()
}

proof fn lemma_zero_group(rs: Seq<DealRecord>, kind: GroupKind, topics: Option<&crate::topics::Topics>, k: Seq<char>)
    ensures
        group_stats(rs, kind, topics, k).deal_count >= 0,
        group_stats(rs, kind, topics, k).deal_count == 0 ==> group_stats(rs, kind, topics, k) == zero_stats(),
    decreases rs.len(),
{
    if rs.len() > 0 {
        lemma_zero_group(rs.drop_last(), kind, topics, k);
    }
}

fn category_text(r: &DealRecord) -> (s: String)
    ensures
        s@ == rec_category(*r),
{
    if r.source.category.as_str().unicode_len() == 0 {
        proof {
            reveal_strlit("(uncategorized)");
        }
        crate::text::owned("(uncategorized)")
    } else {
        crate::text::copy_string(&r.source.category)
    }
}

fn resolution_of(r: &DealRecord, topics: Option<&crate::topics::Topics>) -> (x: (String, crate::topics::Baseline))
    ensures
        x.0@ == rec_resolution(*r, topics).0,
        x.1 == rec_resolution(*r, topics).1,
{
    match topics {
        Some(t) => t.resolve(r.source.file.as_str()),
        None => {
            proof {
                reveal_strlit("(none)");
            }
            (crate::text::owned("(none)"), crate::topics::Baseline { bidding: 0, cardplay: 0 })
        },
    }
}

fn lesson_text(r: &DealRecord, category: &String) -> (s: String)
    requires
        category@ == rec_category(*r),
    ensures
        s@ == rec_lesson(*r),
{
    let f = crate::text::chars_of(r.source.file.as_str());
    let c = crate::text::chars_of(category.as_str());
    let l = crate::lessons::lesson_of(&f, &c);
    crate::text::string_of(&l)
}

/// Folds the records into one breakdown.
pub fn breakdown(records: &Vec<DealRecord>, kind: GroupKind, topics: Option<&crate::topics::Topics>) -> (m: StatsMap)
    requires
        records@.len() * 300 + 600 <= usize::MAX,
    ensures
        breakdown_ok(&m, records@, kind, topics),
{
    let mut m = StatsMap { entries: Vec::new() };
    for i in 0..records.len()
        invariant
            records@.len() * 300 + 600 <= usize::MAX,
            breakdown_ok(&m, records@.take(i as int), kind, topics),
    {
        let ghost t = records@.take(i + 1);
        let ghost prev = records@.take(i as int);
        assert(t.drop_last() =~= prev);
        let r = &records[i];
        assert(t.last() == *r);
        let category = category_text(r);
        let (topic, base) = resolution_of(r, topics);
        let key = match kind {
            GroupKind::Topic => crate::text::copy_string(&topic),
            GroupKind::Lesson => {
                let lesson = lesson_text(r, &category);
                let mut k = crate::text::copy_string(&category);
                crate::text::push_char(&mut k, '\0');
                crate::text::push_str(&mut k, lesson.as_str());
                k
            },
            GroupKind::Category => crate::text::copy_string(&category),
        };
        assert(key@ =~= group_key(*r, kind, topics));
        let labels = if kind == GroupKind::Lesson {
            let lesson = lesson_text(r, &category);
            Some(Labels { topic, category, lesson })
        } else {
            None
        };
        assert(labels_view(&labels) == rec_labels(*r, kind, topics));
        proof {
            lemma_group_bounded(prev, kind, topics, key@);
            assert(300 * prev.len() <= usize::MAX - 300) by (nonlinear_arith)
                requires prev.len() <= records@.len(), records@.len() * 300 + 600 <= usize::MAX;
            lemma_zero_group(prev, kind, topics, key@);
        }
        let ghost before = m.entries@;
        add_to_group(&mut m, &key, labels, r, base);
        proof {
            let f = m.entries@;
            assert forall|k: Seq<char>| #[trigger] group_view(f, k) == group_stats(t, kind, topics, k) by {
                if k == key@ {
                    lemma_zero_group(prev, kind, topics, k);
                }
            }
            assert forall|k: Seq<char>| #[trigger] has_key(f, k) == (group_stats(t, kind, topics, k).deal_count > 0) by {
                lemma_zero_group(prev, kind, topics, k);
            }
        }
    }
    assert(records@.take(records.len() as int) =~= records@);
    m
}

/// The collection name of a record list: the first record's, else empty.
pub open spec fn collection_name(rs: Seq<DealRecord>) -> Seq<char> {
    if rs.len() > 0 { rs[0].source.collection@ } else { Seq::empty() }
}

/// The records fit the counters: no count or sum can overflow.
pub open spec fn profile_fits(rs: Seq<DealRecord>) -> bool {
    &&& rs.len() * 300 + 600 <= usize::MAX
    &&& key_volume(rs, KeyKind::Technique) < usize::MAX
    &&& key_volume(rs, KeyKind::CustomTag) < usize::MAX
    &&& key_volume(rs, KeyKind::Strain) < usize::MAX
    &&& key_volume(rs, KeyKind::Level) < usize::MAX
    &&& key_volume(rs, KeyKind::Declarer) < usize::MAX
}

fn key_volume_of(records: &Vec<DealRecord>, kind: KeyKind) -> (v: u128)
    ensures
        v == key_volume(records@, kind),
{
    let mut v: u128 = 0;
    let mut i: usize = 0;
    assert(records@.take(0) =~= Seq::<DealRecord>::empty());
    while i < records.len()
        invariant
            i <= records.len(),
            v == key_volume(records@.take(i as int), kind),
            v <= i * 0xffff_ffff_ffff_ffff,
        decreases records.len() - i,
    {
        let keys = keys_of(&records[i], kind);
        assert(crate::structural::string_views(keys@).len() == keys@.len());
        proof {
            assert(records@.take(i + 1).drop_last() =~= records@.take(i as int));
            assert((i + 1) * 0xffff_ffff_ffff_ffff == i * 0xffff_ffff_ffff_ffff + 0xffff_ffff_ffff_ffff) by (nonlinear_arith);
            assert(i * 0xffff_ffff_ffff_ffff + 0xffff_ffff_ffff_ffff <= 0x1_0000_0000_0000_0000 * 0xffff_ffff_ffff_ffff) by (nonlinear_arith)
                requires
                    i < 0x1_0000_0000_0000_0000,
            ;
        }
        v = v + keys.len() as u128;
        i = i + 1;
    }
    assert(records@.take(records.len() as int) =~= records@);
    v
}

/// Checks `profile_fits(records)`.
pub fn profile_fits_check(records: &Vec<DealRecord>) -> (ok: bool)
    ensures
        ok == profile_fits(records@),
{
    let n = records.len() as u128;
    let max = usize::MAX as u128;
    if n * 300 + 600 > max {
        return false;
    }
    key_volume_of(records, KeyKind::Technique) < max && key_volume_of(records, KeyKind::CustomTag) < max
        && key_volume_of(records, KeyKind::Strain) < max && key_volume_of(records, KeyKind::Level) < max
        && key_volume_of(records, KeyKind::Declarer) < max
}

/// The whole profile of a record list.
pub open spec fn profile_ok(p: &CollectionProfile, rs: Seq<DealRecord>, topics: Option<&crate::topics::Topics>) -> bool {
    &&& p.collection@ == collection_name(rs)
    &&& p.deal_count == rs.len()
    &&& histogram_ok(p.difficulty, rs)
    &&& p.structural.with_auction == count_flag(rs, Flag::Auction)
    &&& p.structural.with_play == count_flag(rs, Flag::Play)
    &&& p.structural.with_commentary == count_flag(rs, Flag::Commentary)
    &&& p.structural.with_explicit_contract == count_flag(rs, Flag::ExplicitContract)
    &&& p.structural.custom_tags.wf()
    &&& (forall|k: Seq<char>| #[trigger] p.structural.custom_tags.count(k) == deals_carrying(rs, k))
    &&& auction_profile_ok(p.auction, rs)
    &&& p.contract_mix.by_strain.wf() && p.contract_mix.by_level.wf() && p.contract_mix.by_declarer.wf()
    &&& (forall|k: Seq<char>| #[trigger] p.contract_mix.by_strain.count(k) == key_total(rs, KeyKind::Strain, k))
    &&& (forall|k: Seq<char>| #[trigger] p.contract_mix.by_level.count(k) == key_total(rs, KeyKind::Level, k))
    &&& (forall|k: Seq<char>| #[trigger] p.contract_mix.by_declarer.count(k) == key_total(rs, KeyKind::Declarer, k))
    &&& p.techniques.wf()
    &&& (forall|k: Seq<char>| #[trigger] p.techniques.count(k) == key_total(rs, KeyKind::Technique, k))
    &&& (p.by_topic is Some <==> topics is Some)
    &&& (p.by_topic matches Some(m) ==> breakdown_ok(&m, rs, GroupKind::Topic, topics))
    &&& breakdown_ok(&p.by_lesson, rs, GroupKind::Lesson, topics)
    &&& breakdown_ok(&p.by_category, rs, GroupKind::Category, topics)
    &&& p.versions.tool@ == crate::model::tool_version()
    &&& p.versions.ladder == 1
}

/// Probes of one record that fired under the name `k`.
pub open spec fn fired_under(p: Seq<crate::model::ProbeRecord>, k: Seq<char>) -> nat
    decreases p.len(),
{
    if p.len() == 0 {
        0
    } else {
        fired_under(p.drop_last(), k) + if p.last().fired && p.last().name@ == k { 1nat } else { 0nat }
    }
}

/// Fired probes named `k` over all records.
pub open spec fn fired_total(rs: Seq<DealRecord>, k: Seq<char>) -> nat
    decreases rs.len(),
{
    if rs.len() == 0 { 0 } else { fired_total(rs.drop_last(), k) + fired_under(rs.last().probes@, k) }
}

proof fn lemma_fired_under(p: Seq<crate::model::ProbeRecord>, k: Seq<char>)
    ensures
        occurrences(fired_names(p), k) == fired_under(p, k),
    decreases p.len(),
{
    if p.len() > 0 {
        lemma_fired_under(p.drop_last(), k);
        if p.last().fired {
            assert(fired_names(p).drop_last() =~= fired_names(p.drop_last()));
        }
    }
}

/// The technique matrix counts, for each probe name, the probes of that
/// name that fired, over all records; a probe that ran without firing
/// counts for nothing.
pub proof fn lemma_techniques_count_fired_probes(
    p: &CollectionProfile,
    rs: Seq<DealRecord>,
    topics: Option<&crate::topics::Topics>,
    k: Seq<char>,
)
    requires
        profile_ok(p, rs, topics),
    ensures
        p.techniques.count(k) == fired_total(rs, k),
{
    lemma_technique_total(rs, k);
}

proof fn lemma_technique_total(rs: Seq<DealRecord>, k: Seq<char>)
    ensures
        key_total(rs, KeyKind::Technique, k) == fired_total(rs, k),
    decreases rs.len(),
{
    if rs.len() > 0 {
        lemma_technique_total(rs.drop_last(), k);
        lemma_fired_under(rs.last().probes@, k);
    }
}

/// Folds records into a profile. With a topic table, also produces the
/// per-topic baseline-vs-observed breakdown. The difficulty buckets add up
/// to the deal count, and so do the per-lesson and per-category groups.
pub fn build(records: Vec<DealRecord>, editorial: Option<Editorial>, topics: Option<&crate::topics::Topics>) -> (p: CollectionProfile)
    requires
        profile_fits(records@),
    ensures
        profile_ok(&p, records@, topics),
        p.editorial == editorial,
        p.difficulty.cash_out_0 + p.difficulty.establish_1 + p.difficulty.technique_2 + p.difficulty.unclassified
            + p.difficulty.not_makeable + p.difficulty.no_contract + p.difficulty.incomplete == p.deal_count,
        sum_deals(p.by_lesson.entries@) == p.deal_count,
        sum_deals(p.by_category.entries@) == p.deal_count,
{
    let collection = if records.len() > 0 {
        crate::text::copy_string(&records[0].source.collection)
    } else {
        String::new()
    };
    let difficulty = difficulty_of(&records);
    proof {
        lemma_buckets_partition(records@);
        assert(records@.len() * 255 <= usize::MAX);
    }
    let structural = StructuralCoverage {
        with_auction: count_flagged(&records, Flag::Auction),
        with_play: count_flagged(&records, Flag::Play),
        with_commentary: count_flagged(&records, Flag::Commentary),
        with_explicit_contract: count_flagged(&records, Flag::ExplicitContract),
        custom_tags: count_keys(&records, KeyKind::CustomTag),
    };
    proof {
        assert forall|k: Seq<char>| #[trigger] structural.custom_tags.count(k) == deals_carrying(records@, k) by {
            lemma_custom_tag_total(records@, k);
        }
    }
    let auction = auction_profile_of(&records);
    let contract_mix = contract_mix_of(&records);
    let techniques = count_keys(&records, KeyKind::Technique);
    let by_topic = match topics {
        Some(_) => Some(breakdown(&records, GroupKind::Topic, topics)),
        None => None,
    };
    let by_lesson = breakdown(&records, GroupKind::Lesson, topics);
    let by_category = breakdown(&records, GroupKind::Category, topics);
    CollectionProfile {
        collection,
        deal_count: records.len(),
        difficulty,
        structural,
        auction,
        contract_mix,
        techniques,
        by_topic,
        by_lesson,
        by_category,
        editorial,
        versions: Versions::current(),
    }
}

/// A collection name made safe as a file stem: every character that is not
/// alphanumeric, `-` or `_` becomes `-`.
pub open spec fn sanitized(name: Seq<char>) -> Seq<char> {
    name.map_values(|c: char| if alphanumeric(c) || c == '-' || c == '_' { c } else { '-' })
}

/// The file stem under which a collection's profile is written.
pub fn sanitize(name: &str) -> (r: String)
    ensures
        r@ == sanitized(name@),
{
    let cs = chars_of(name);
    let mut out = String::new();
    let mut i: usize = 0;
    while i < cs.len()
        invariant
            i <= cs.len(),
            cs@ == name@,
            out@ == sanitized(name@).take(i as int),
        decreases cs.len() - i,
    {
        let c = cs[i];
        let keep = is_alphanumeric(c) || c == '-' || c == '_';
        push_char(&mut out, if keep { c } else { '-' });
        i = i + 1;
        assert(out@ =~= sanitized(name@).take(i as int));
    }
    assert(out@ =~= sanitized(name@));
    out
}

} // verus!
