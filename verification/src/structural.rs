//! Stage 1 — structural pass (no solves): what each board actually
//! contains, plus cheap auction-complexity proxies and the deal's source.

use vstd::prelude::*;
use crate::auction::{caller_at, final_contract_spec, first_tag, Auction, Board, Call};
use crate::cards::{dir_index_spec, Strain};
use crate::model::{strain_index_spec, AuctionInfo, Commentary, ContractProvenance, Source, StructuralInfo};
use crate::text::{chars_of, copy_string, find_char, first_index, lemma_split_nonempty, owned, slice_chars, split_chars, split_on, str_eq, string_of};

verus! {

broadcast use vstd::string::group_string_axioms;

/// Standard PBN tags that have no dedicated board field but are not
/// collection-specific; they are left out of the custom tag inventory.
pub open spec fn is_standard_extra_tag(name: Seq<char>) -> bool {
    name == "Scoring"@ || name == "Room"@ || name == "Round"@ || name == "Score"@ || name
        == "Generator"@ || name == "Annotator"@ || name == "OptimumResultTable"@ || name
        == "Table"@ || name == "Stage"@ || name == "Section"@ || name == "HomeTeam"@ || name
        == "VisitTeam"@
}

fn standard_extra_tag(name: &str) -> (r: bool)
    ensures
        r == is_standard_extra_tag(name@),
{
    str_eq(name, "Scoring") || str_eq(name, "Room") || str_eq(name, "Round") || str_eq(name, "Score")
        || str_eq(name, "Generator") || str_eq(name, "Annotator") || str_eq(name, "OptimumResultTable")
        || str_eq(name, "Table") || str_eq(name, "Stage") || str_eq(name, "Section") || str_eq(
        name,
        "HomeTeam",
    ) || str_eq(name, "VisitTeam")
}

/// Names of the non-standard tags, in tag order.
pub open spec fn custom_tag_names(tags: Seq<(String, String)>) -> Seq<Seq<char>>
    decreases tags.len(),
{
    if tags.len() == 0 {
        Seq::empty()
    } else if is_standard_extra_tag(tags.last().0@) {
        custom_tag_names(tags.drop_last())
    } else {
        custom_tag_names(tags.drop_last()).push(tags.last().0@)
    }
}

/// `s` with consecutive repeats collapsed (as `Vec::dedup` does).
pub open spec fn dedup_runs(s: Seq<Seq<char>>) -> Seq<Seq<char>>
    decreases s.len(),
{
    if s.len() == 0 {
        Seq::empty()
    } else {
        let d = dedup_runs(s.drop_last());
        if d.len() > 0 && d.last() == s.last() {
            d
        } else {
            d.push(s.last())
        }
    }
}

/// The text views of a vector of strings.
pub open spec fn string_views(v: Seq<String>) -> Seq<Seq<char>> {
    v.map_values(|s: String| s@)
}

// ---------------------------------------------------------------------------
// Auction proxies
// ---------------------------------------------------------------------------

/// Position of a bid in the bidding ladder (1C = 0, ..., 3NT = 14, 7NT = 34).
pub open spec fn bid_rank(level: u8, strain: Strain) -> int {
    (level - 1) * 5 + strain_index_spec(strain)
}

/// A bid above 3NT other than the normal games 4H, 4S, 5C, 5D.
pub open spec fn is_high_bid_spec(level: u8, strain: Strain) -> bool {
    bid_rank(level, strain) > 14 && !((level == 4 && strain == Strain::Hearts) || (level == 4
        && strain == Strain::Spades) || (level == 5 && strain == Strain::Clubs) || (level == 5
        && strain == Strain::Diamonds))
}

/// Whether a bid is a high bid (above 3NT, not a normal game).
pub fn is_high_bid(level: u8, strain: Strain) -> (r: bool)
    ensures
        r == is_high_bid_spec(level, strain),
{
    let rank: i32 = (level as i32 - 1) * 5 + crate::model::strain_index(strain) as i32;
    let three_nt: i32 = 2 * 5 + 4;
    if rank <= three_nt {
        return false;
    }
    !((level == 4 && strain == Strain::Hearts) || (level == 4 && strain == Strain::Spades) || (
    level == 5 && strain == Strain::Clubs) || (level == 5 && strain == Strain::Diamonds))
}

/// Number of contract bids.
pub open spec fn count_bids(calls: Seq<Call>) -> nat
    decreases calls.len(),
{
    if calls.len() == 0 {
        0
    } else {
        count_bids(calls.drop_last()) + if calls.last() is Bid { 1nat } else { 0nat }
    }
}

/// Number of doubles and redoubles.
pub open spec fn count_doubles(calls: Seq<Call>) -> nat
    decreases calls.len(),
{
    if calls.len() == 0 {
        0
    } else {
        count_doubles(calls.drop_last()) + if calls.last() == Call::Double || calls.last()
            == Call::Redouble {
            1nat
        } else {
            0nat
        }
    }
}

/// Number of high bids.
pub open spec fn count_high_bids(calls: Seq<Call>) -> nat
    decreases calls.len(),
{
    if calls.len() == 0 {
        0
    } else {
        count_high_bids(calls.drop_last()) + match calls.last() {
            Call::Bid { level, strain } => if is_high_bid_spec(level, strain) { 1nat } else { 0nat },
            _ => 0nat,
        }
    }
}

/// Some seat of the partnership with parity `side` (0 = N-S, 1 = E-W)
/// made a contract bid.
pub open spec fn side_bid(dealer: crate::cards::Direction, calls: Seq<Call>, side: int) -> bool {
    exists|i: int| 0 <= i < calls.len() && calls[i] is Bid && dir_index_spec(caller_at(dealer, i)) % 2 == side
}

proof fn lemma_high_bids_bounded(calls: Seq<Call>)
    ensures
        count_high_bids(calls) <= count_bids(calls),
    decreases calls.len(),
{
    if calls.len() > 0 {
        lemma_high_bids_bounded(calls.drop_last());
    }
}

/// Counting over a prefix counts no more than over the whole auction.
proof fn lemma_counts_prefix(calls: Seq<Call>, i: int)
    requires
        0 <= i <= calls.len(),
    ensures
        count_bids(calls.take(i)) <= count_bids(calls),
        count_doubles(calls.take(i)) <= count_doubles(calls),
        count_high_bids(calls.take(i)) <= count_high_bids(calls),
    decreases calls.len() - i,
{
    if i < calls.len() {
        lemma_counts_prefix(calls, i + 1);
        assert(calls.take(i + 1).drop_last() =~= calls.take(i));
    } else {
        assert(calls.take(i) =~= calls);
    }
}

/// The auction's bids and its doubles each fit the record's byte counters
/// (a legal auction has at most 35 bids and 70 doubles and redoubles).
pub open spec fn counts_fit(calls: Seq<Call>) -> bool {
    count_bids(calls) <= 255 && count_doubles(calls) <= 255
}

/// Checks `counts_fit` for an auction's calls.
pub fn auction_counts_fit(a: &Auction) -> (ok: bool)
    ensures
        ok == counts_fit(a.calls@),
{
    let mut bids: usize = 0;
    let mut doubles: usize = 0;
    let n = a.calls.len();
    for i in 0..n
        invariant
            n == a.calls.len(),
            bids == count_bids(a.calls@.take(i as int)) <= i,
            doubles == count_doubles(a.calls@.take(i as int)) <= i,
    {
        assert(a.calls@.take(i + 1).drop_last() =~= a.calls@.take(i as int));
        match a.calls[i] {
            Call::Bid { .. } => {
                bids += 1;
            },
            Call::Double | Call::Redouble => {
                doubles += 1;
            },
            _ => {},
        }
    }
    assert(a.calls@.take(n as int) =~= a.calls@);
    bids <= 255 && doubles <= 255
}

/// A partnership bid: some call at a position whose caller sits in it.
proof fn lemma_side_bid_seats(dealer: crate::cards::Direction, calls: Seq<Call>)
    ensures
        side_bid(dealer, calls, 0) <==> exists|i: int| 0 <= i < calls.len() && calls[i] is Bid
            && (caller_at(dealer, i) == crate::cards::Direction::North || caller_at(dealer, i) == crate::cards::Direction::South),
        side_bid(dealer, calls, 1) <==> exists|i: int| 0 <= i < calls.len() && calls[i] is Bid
            && (caller_at(dealer, i) == crate::cards::Direction::East || caller_at(dealer, i) == crate::cards::Direction::West),
{
    assert forall|d: crate::cards::Direction| #![auto] (dir_index_spec(d) % 2 == 0 <==> (d == crate::cards::Direction::North
        || d == crate::cards::Direction::South)) && (dir_index_spec(d) % 2 == 1 <==> (d == crate::cards::Direction::East
        || d == crate::cards::Direction::West)) by {
        crate::cards::lemma_dir_index(d);
    }
}

/// An auction is contested exactly when both partnerships made a contract
/// bid: North or South bid at some call, and East or West at some call. An
/// auction where only one side bids is not contested.
pub proof fn lemma_contested_needs_both_sides(a: Auction)
    ensures
        auction_info_spec(Some(a)).contested <==> (
            (exists|i: int| 0 <= i < a.calls@.len() && #[trigger] a.calls@[i] is Bid
                && (caller_at(a.dealer, i) == crate::cards::Direction::North || caller_at(a.dealer, i) == crate::cards::Direction::South))
            && (exists|j: int| 0 <= j < a.calls@.len() && #[trigger] a.calls@[j] is Bid
                && (caller_at(a.dealer, j) == crate::cards::Direction::East || caller_at(a.dealer, j) == crate::cards::Direction::West))),
{
    lemma_side_bid_seats(a.dealer, a.calls@);
}

/// The proxies of an auction (or of its absence).
pub open spec fn auction_info_spec(a: Option<Auction>) -> AuctionInfo {
    match a {
        None => AuctionInfo {
            present: false,
            bids: 0,
            contested: false,
            doubles: 0,
            double_of_final: false,
            high_bids: 0,
        },
        Some(a) => AuctionInfo {
            present: true,
            bids: count_bids(a.calls@) as u8,
            contested: side_bid(a.dealer, a.calls@, 0) && side_bid(a.dealer, a.calls@, 1),
            doubles: count_doubles(a.calls@) as u8,
            double_of_final: match final_contract_spec(a.dealer, a.calls@) {
                Some(fc) => fc.doubled || fc.redoubled,
                None => false,
            },
            high_bids: count_high_bids(a.calls@) as u8,
        },
    }
}

/// Cheap auction-complexity proxies from the parsed auction.
pub fn auction_info(auction: Option<&Auction>) -> (r: AuctionInfo)
    requires
        auction matches Some(a) ==> counts_fit(a.calls@),
    ensures
        r == auction_info_spec(match auction {
            Some(a) => Some(*a),
            None => None,
        }),
{
    let a = match auction {
        None => return AuctionInfo::absent(),
        Some(a) => a,
    };
    let mut bids: u8 = 0;
    let mut doubles: u8 = 0;
    let mut high_bids: u8 = 0;
    let mut ns_bid = false;
    let mut ew_bid = false;
    let n = a.calls.len();
    for i in 0..n
        invariant
            n == a.calls.len(),
            counts_fit(a.calls@),
            bids == count_bids(a.calls@.take(i as int)),
            doubles == count_doubles(a.calls@.take(i as int)),
            high_bids == count_high_bids(a.calls@.take(i as int)),
            ns_bid == side_bid(a.dealer, a.calls@.take(i as int), 0),
            ew_bid == side_bid(a.dealer, a.calls@.take(i as int), 1),
    {
        let ghost t = a.calls@.take(i + 1);
        assert(t.drop_last() =~= a.calls@.take(i as int));
        proof {
            lemma_counts_prefix(a.calls@, i + 1);
            lemma_high_bids_bounded(a.calls@);
        }
        let who = a.caller(i);
        match a.calls[i] {
            Call::Bid { level, strain } => {
                bids += 1;
                if who.index() % 2 == 0 {
                    ns_bid = true;
                } else {
                    ew_bid = true;
                }
                if is_high_bid(level, strain) {
                    high_bids += 1;
                }
            },
            Call::Double | Call::Redouble => {
                doubles += 1;
            },
            _ => {},
        }
        proof {
            assert forall|s: int| side_bid(a.dealer, t, s) == (side_bid(a.dealer, a.calls@.take(i as int), s)
                || (t[i as int] is Bid && dir_index_spec(caller_at(a.dealer, i as int)) % 2 == s)) by {
                if side_bid(a.dealer, t, s) {
                    let j = choose|j: int| 0 <= j < t.len() && t[j] is Bid && dir_index_spec(caller_at(a.dealer, j)) % 2 == s;
                    if j < i {
                        assert(a.calls@.take(i as int)[j] == t[j]);
                    }
                }
                if side_bid(a.dealer, a.calls@.take(i as int), s) {
                    let j = choose|j: int| 0 <= j < i && a.calls@.take(i as int)[j] is Bid && dir_index_spec(caller_at(a.dealer, j)) % 2 == s;
                    assert(t[j] == a.calls@.take(i as int)[j]);
                }
            }
        }
    }
    assert(a.calls@.take(n as int) =~= a.calls@);
    let double_of_final = match a.final_contract() {
        Some(fc) => fc.doubled || fc.redoubled,
        None => false,
    };
    AuctionInfo { present: true, bids, contested: ns_bid && ew_bid, doubles, double_of_final, high_bids }
}

// ---------------------------------------------------------------------------
// Structural record
// ---------------------------------------------------------------------------

/// How a board's contract is known: from its `[Contract]` tag, else
/// inferred when its auction reaches a final contract, else missing.
pub open spec fn provenance_spec(b: &Board) -> ContractProvenance {
    if b.contract is Some {
        ContractProvenance::Explicit
    } else if b.auction matches Some(a) && final_contract_spec(a.dealer, a.calls@) is Some {
        ContractProvenance::Inferred
    } else {
        ContractProvenance::Missing
    }
}

/// The structural record's provenance agrees with the contract the board
/// is analyzed in: without a `[Contract]` tag, the contract is inferred from
/// the auction exactly when the record says `Inferred`, and there is none
/// exactly when it says `Missing`; a usable tag is `Explicit` in both.
pub proof fn lemma_provenance_agrees(b: &Board)
    ensures
        b.contract is None ==> (provenance_spec(b) == ContractProvenance::Missing
            <==> crate::contract::effective_contract_spec(b) is None),
        b.contract is None ==> (crate::contract::effective_contract_spec(b) matches Some(ec)
            ==> ec.provenance == provenance_spec(b)),
        crate::contract::explicit_contract(b) is Some ==> provenance_spec(b) == ContractProvenance::Explicit
            && (crate::contract::effective_contract_spec(b) matches Some(ec) && ec.provenance == ContractProvenance::Explicit),
{
}

/// The structural record the pass derives from a board.
pub open spec fn structural_ok(b: &Board, s: &StructuralInfo) -> bool {
    &&& (match (b.contract, s.contract) {
        (Some(x), Some(y)) => x@ == y@,
        (None, None) => true,
        _ => false,
    })
    &&& s.contract_provenance == provenance_spec(b)
    &&& s.auction == auction_info_spec(b.auction)
    &&& s.play == b.play
    &&& s.commentary.present == (b.commentary@.len() > 0)
    &&& (match s.commentary.style {
        Some(st) => s.commentary.present && st@ == "inline"@,
        None => !s.commentary.present,
    })
    &&& string_views(s.custom_tags@) == dedup_runs(custom_tag_names(b.extra_tags@))
}

fn custom_tags_of(tags: &Vec<(String, String)>) -> (r: Vec<String>)
    ensures
        string_views(r@) == dedup_runs(custom_tag_names(tags@)),
{
    let mut names: Vec<String> = Vec::new();
    for i in 0..tags.len()
        invariant
            string_views(names@) == custom_tag_names(tags@.take(i as int)),
    {
        assert(tags@.take(i + 1).drop_last() =~= tags@.take(i as int));
        let name = &tags[i].0;
        if !standard_extra_tag(name.as_str()) {
            let ghost before = names@;
            names.push(copy_string(name));
            assert(string_views(names@) =~= string_views(before).push(name@));
        }
    }
    assert(tags@.take(tags.len() as int) =~= tags@);
    let mut out: Vec<String> = Vec::new();
    for i in 0..names.len()
        invariant
            string_views(out@) == dedup_runs(string_views(names@).take(i as int)),
    {
        let ghost sv = string_views(names@);
        assert(sv.take(i + 1).drop_last() =~= sv.take(i as int));
        assert(sv.take(i + 1).last() == names@[i as int]@);
        let keep = if out.len() == 0 {
            true
        } else {
            !str_eq(out[out.len() - 1].as_str(), names[i].as_str())
        };
        if keep {
            let ghost before = out@;
            out.push(copy_string(&names[i]));
            assert(string_views(out@) =~= string_views(before).push(names@[i as int]@));
        }
    }
    assert(string_views(names@).take(names.len() as int) =~= string_views(names@));
    out
}

/// Derives the structural record from a parsed board.
pub fn structural_of(board: &Board) -> (s: StructuralInfo)
    requires
        board.auction matches Some(a) ==> counts_fit(a.calls@),
    ensures
        structural_ok(board, &s),
{
    let derivable = match &board.auction {
        Some(a) => a.final_contract().is_some(),
        None => false,
    };
    let provenance = if board.contract.is_some() {
        ContractProvenance::Explicit
    } else if derivable {
        ContractProvenance::Inferred
    } else {
        ContractProvenance::Missing
    };
    let contract = match &board.contract {
        Some(c) => Some(copy_string(c)),
        None => None,
    };
    let present = board.commentary.len() > 0;
    let style = if present {
        proof {
            reveal_strlit("inline");
        }
        Some(owned("inline"))
    } else {
        None
    };
    let auction = match &board.auction {
        Some(a) => auction_info(Some(a)),
        None => auction_info(None),
    };
    StructuralInfo {
        contract,
        contract_provenance: provenance,
        auction,
        play: board.play,
        commentary: Commentary { present, style },
        custom_tags: custom_tags_of(&board.extra_tags),
    }
}

// ---------------------------------------------------------------------------
// Source and category
// ---------------------------------------------------------------------------

/// The lesson grouping of a deal: the first component of its `[SkillPath]`
/// tag when non-empty, else the leading folder of its file path, else
/// "(uncategorized)".
pub open spec fn category_spec(tags: Seq<(String, String)>, file: Seq<char>) -> Seq<char> {
    let from_skill = match first_tag(tags, "SkillPath"@) {
        Some(i) => split_on(tags[i].1@, '/')[0],
        None => Seq::empty(),
    };
    if from_skill.len() > 0 {
        from_skill
    } else {
        match first_index(file, '/') {
            Some(k) => file.take(k),
            None => "(uncategorized)"@,
        }
    }
}

/// The lesson grouping of a deal (see `category_spec`).
pub fn category_of(board: &Board, file: &str) -> (r: String)
    ensures
        r@ == category_spec(board.extra_tags@, file@),
{
    if let Some(sp) = board.extra_tag("SkillPath") {
        let cs = chars_of(sp.as_str());
        let parts = split_chars(&cs, '/');
        if parts[0].len() > 0 {
            return string_of(&parts[0]);
        }
    }
    let f = chars_of(file);
    match find_char(&f, '/') {
        Some(k) => {
            let dir = slice_chars(&f, 0, k);
            assert(dir@ =~= file@.take(k as int));
            string_of(&dir)
        },
        None => {
            proof {
                reveal_strlit("(uncategorized)");
            }
            owned("(uncategorized)")
        },
    }
}

/// The source of a board within a collection scan.
pub fn source_for(collection: &str, file: &str, board: &Board) -> (s: Source)
    ensures
        s.collection@ == collection@,
        s.file@ == file@,
        s.board == board.number,
        s.category@ == category_spec(board.extra_tags@, file@),
{
    Source {
        collection: owned(collection),
        file: owned(file),
        board: board.number,
        category: category_of(board, file),
    }
}

} // verus!
