//! Stage 4 — technique probes (perturbation solves, gated on the baseline).
//!
//! Each probe perturbs the deal in a way that isolates one technique. The
//! perturbed deals are solved double-dummy in the contract strain, and the
//! probe fires if some perturbation turns a making contract into a failing
//! one — the contract *needed* that technique.
//!
//! - `finesse`: move a key honor (A, K, Q, J) held by one defender to the
//!   other, giving back that defender's lowest card of the suit; only where
//!   both defenders hold the suit and declarer's side holds a higher card.
//! - `ruff`: move the short trump hand's lowest trump to its partner, giving
//!   back the partner's lowest side-suit card.

use vstd::prelude::*;
use crate::cards::{
    dir_index_spec, hand_of, deal_view, rank_value, strain_suit, strain_suit_spec, suit_cards,
    Card, Deal, Direction, Hand, Rank, Strain, Suit,
};
use crate::model::{FlipCause, FlipEvidence, ProbeRecord};
use crate::text::owned;

verus! {

broadcast use vstd::string::group_string_axioms;

// ---------------------------------------------------------------------------
// Card-moving helpers
// ---------------------------------------------------------------------------

/// Index of the first card of least rank (the one `min_by_key` picks).
pub open spec fn lowest_index(s: Seq<Card>) -> int
    decreases s.len(),
{
    if s.len() <= 1 {
        0
    } else {
        let k = lowest_index(s.drop_last());
        if rank_value(s.last().rank) < rank_value(s[k].rank) {
            s.len() - 1
        } else {
            k
        }
    }
}

proof fn lemma_lowest_index(s: Seq<Card>)
    requires
        s.len() > 0,
    ensures
        0 <= lowest_index(s) < s.len(),
        forall|j: int| 0 <= j < s.len() ==> rank_value(s[lowest_index(s)].rank) <= rank_value(#[trigger] s[j].rank),
    decreases s.len(),
{
    if s.len() > 1 {
        lemma_lowest_index(s.drop_last());
        assert forall|j: int| 0 <= j < s.len() - 1 implies s[j] == s.drop_last()[j] by {}
    }
}

/// The first card of least rank.
pub fn lowest(cards: &Vec<Card>) -> (c: Card)
    requires
        cards@.len() > 0,
    ensures
        c == cards@[lowest_index(cards@)],
{
    let mut k: usize = 0;
    let mut i: usize = 1;
    assert(cards@.take(1).drop_last().len() == 0);
    while i < cards.len()
        invariant
            1 <= i <= cards.len(),
            k < i,
            k as int == lowest_index(cards@.take(i as int)),
        decreases cards.len() - i,
    {
        let ghost t = cards@.take(i + 1);
        assert(t.drop_last() =~= cards@.take(i as int));
        assert(t[k as int] == cards@[k as int]);
        if cards[i].rank.value() < cards[k].rank.value() {
            k = i;
        }
        i += 1;
    }
    assert(cards@.take(cards.len() as int) =~= cards@);
    cards[k]
}

/// Index of the first occurrence of `c`.
pub open spec fn card_index(s: Seq<Card>, c: Card) -> Option<int>
    decreases s.len(),
{
    if s.len() == 0 {
        None
    } else {
        match card_index(s.drop_last(), c) {
            Some(i) => Some(i),
            None => if s.last() == c { Some(s.len() - 1) } else { None },
        }
    }
}

/// `s` without the first occurrence of `c` (unchanged when absent).
pub open spec fn remove_first(s: Seq<Card>, c: Card) -> Seq<Card> {
    match card_index(s, c) {
        Some(i) => s.remove(i),
        None => s,
    }
}

proof fn lemma_card_index(s: Seq<Card>, c: Card)
    ensures
        card_index(s, c) matches Some(i) ==> 0 <= i < s.len(),
    decreases s.len(),
{
    if s.len() > 0 {
        lemma_card_index(s.drop_last(), c);
    }
}

fn find_card(v: &Vec<Card>, c: Card) -> (r: Option<usize>)
    ensures
        r matches Some(k) ==> card_index(v@, c) == Some(k as int) && k < v@.len(),
        r is None ==> card_index(v@, c) is None,
{
    let mut i: usize = 0;
    while i < v.len()
        invariant
            i <= v.len(),
            card_index(v@.take(i as int), c) is None,
        decreases v.len() - i,
    {
        assert(v@.take(i + 1).drop_last() =~= v@.take(i as int));
        if v[i] == c {
            proof {
                assert(card_index(v@.take(i + 1), c) == Some(i as int));
                lemma_card_index_prefix(v@, c, i + 1);
            }
            return Some(i);
        }
        i += 1;
    }
    assert(v@.take(v.len() as int) =~= v@);
    None
}

/// Removes the first occurrence of `c`.
pub fn remove_one(v: &mut Vec<Card>, c: Card)
    ensures
        final(v)@ == remove_first(old(v)@, c),
{
    match find_card(v, c) {
        Some(k) => {
            v.remove(k);
        },
        None => {},
    }
}

proof fn lemma_card_index_prefix(s: Seq<Card>, c: Card, n: int)
    requires
        0 <= n <= s.len(),
        card_index(s.take(n), c) is Some,
    ensures
        card_index(s, c) == card_index(s.take(n), c),
    decreases s.len() - n,
{
    if n < s.len() {
        assert(s.take(n + 1).drop_last() =~= s.take(n));
        lemma_card_index_prefix(s, c, n + 1);
    } else {
        assert(s.take(n) =~= s);
    }
}

/// The deal after card `ca` moves from seat `da` to seat `db` and card `cb`
/// moves back (each removed from its old hand, appended to the new one).
pub open spec fn swapped(v: Seq<Seq<Card>>, da: Direction, ca: Card, db: Direction, cb: Card) -> Seq<Seq<Card>> {
    let ia = dir_index_spec(da);
    let ib = dir_index_spec(db);
    v.update(ia, remove_first(v[ia], ca).push(cb)).update(ib, remove_first(v[ib], cb).push(ca))
}

fn copy_cards(v: &Vec<Card>) -> (r: Vec<Card>)
    ensures
        r@ == v@,
{
    let h = Hand { cards: Vec::new() };
    let mut r: Vec<Card> = h.cards;
    for i in 0..v.len()
        invariant
            r@ == v@.take(i as int),
    {
        r.push(v[i]);
        assert(v@.take(i + 1) =~= v@.take(i as int).push(v@[i as int]));
    }
    assert(v@.take(v.len() as int) =~= v@);
    r
}

proof fn lemma_card_index_found(s: Seq<Card>, c: Card)
    requires
        s.contains(c),
    ensures
        card_index(s, c) matches Some(i) && 0 <= i < s.len() && s[i] == c,
    decreases s.len(),
{
    lemma_card_index_found_value(s, c);
    let t = s.drop_last();
    lemma_card_index_found_value(t, c);
    if t.contains(c) {
        lemma_card_index_found(t, c);
    } else {
        let i = choose|i: int| 0 <= i < s.len() && s[i] == c;
        if i < s.len() - 1 {
            assert(t[i] == c);
        }
        if card_index(t, c) is Some {
            let j = card_index(t, c)->0;
            assert(t[j] == c);
        }
    }
}

proof fn lemma_card_index_found_value(s: Seq<Card>, c: Card)
    ensures
        card_index(s, c) matches Some(i) ==> 0 <= i < s.len() && s[i] == c,
    decreases s.len(),
{
    if s.len() > 0 {
        lemma_card_index_found_value(s.drop_last(), c);
    }
}

/// The cards of a hand after moving `out` away and `inn` in: one `out`
/// fewer, one `inn` more.
proof fn lemma_exchange(h: Seq<Card>, out: Card, inn: Card)
    requires
        h.contains(out),
    ensures
        remove_first(h, out).push(inn).to_multiset() == h.to_multiset().remove(out).insert(inn),
{
    broadcast use vstd::seq_lib::group_to_multiset_ensures;
    lemma_card_index_found(h, out);
}

/// A swap moves exactly the two cards: seat `da` gives up `ca` and gets
/// `cb`, seat `db` the other way round (as card collections), the other
/// seats keep their hands, and swapping back restores every hand's cards.
pub proof fn lemma_swap_exchanges(v: Seq<Seq<Card>>, da: Direction, ca: Card, db: Direction, cb: Card)
    requires
        v.len() == 4,
        da != db,
        v[dir_index_spec(da)].contains(ca),
        v[dir_index_spec(db)].contains(cb),
    ensures
        swapped(v, da, ca, db, cb)[dir_index_spec(da)].to_multiset()
            == v[dir_index_spec(da)].to_multiset().remove(ca).insert(cb),
        swapped(v, da, ca, db, cb)[dir_index_spec(db)].to_multiset()
            == v[dir_index_spec(db)].to_multiset().remove(cb).insert(ca),
        forall|i: int| 0 <= i < 4 && i != dir_index_spec(da) && i != dir_index_spec(db)
            ==> #[trigger] swapped(v, da, ca, db, cb)[i] == v[i],
        forall|i: int| 0 <= i < 4 ==> #[trigger] swapped(swapped(v, da, ca, db, cb), da, cb, db, ca)[i].to_multiset()
            == v[i].to_multiset(),
{
    broadcast use vstd::seq_lib::group_to_multiset_ensures;
    let ia = dir_index_spec(da);
    let ib = dir_index_spec(db);
    crate::cards::lemma_dir_index(da);
    crate::cards::lemma_dir_index(db);
    let w = swapped(v, da, ca, db, cb);
    lemma_exchange(v[ia], ca, cb);
    lemma_exchange(v[ib], cb, ca);
    assert(w[ia] == remove_first(v[ia], ca).push(cb));
    assert(w[ib] == remove_first(v[ib], cb).push(ca));
    assert(w[ia].contains(cb)) by {
        assert(w[ia][w[ia].len() - 1] == cb);
    }
    assert(w[ib].contains(ca)) by {
        assert(w[ib][w[ib].len() - 1] == ca);
    }
    lemma_exchange(w[ia], cb, ca);
    lemma_exchange(w[ib], ca, cb);
    let u = swapped(w, da, cb, db, ca);
    assert forall|i: int| 0 <= i < 4 implies #[trigger] u[i].to_multiset() == v[i].to_multiset() by {
        if i == ia {
            assert(u[i].to_multiset() =~= v[i].to_multiset());
        } else if i == ib {
            assert(u[i].to_multiset() =~= v[i].to_multiset());
        }
    }
}

/// Exchanges card `ca` of seat `da` with card `cb` of seat `db`.
pub fn swap(deal: &Deal, da: Direction, ca: Card, db: Direction, cb: Card) -> (d: Deal)
    ensures
        deal_view(&d) == swapped(deal_view(deal), da, ca, db, cb),
{
    let mut d = deal.copy();
    let mut ha = copy_cards(&deal.hand(da).cards);
    remove_one(&mut ha, ca);
    ha.push(cb);
    let mut hb = copy_cards(&deal.hand(db).cards);
    remove_one(&mut hb, cb);
    hb.push(ca);
    let ghost hav = ha@;
    let ghost hbv = hb@;
    d.set_hand(da, Hand::from_cards(ha));
    d.set_hand(db, Hand::from_cards(hb));
    proof {
        let v = deal_view(deal);
        crate::cards::lemma_dir_index(da);
        crate::cards::lemma_dir_index(db);
        assert(v[dir_index_spec(da)] == hand_of(deal, da));
        assert(v[dir_index_spec(db)] == hand_of(deal, db));
        assert forall|i: int| 0 <= i < 4 implies #[trigger] deal_view(&d)[i] == swapped(v, da, ca, db, cb)[i] by {
            crate::cards::lemma_hand_at(&d, i);
            crate::cards::lemma_hand_at(deal, i);
            crate::cards::lemma_dir_at(i);
        }
        assert(deal_view(&d) =~= swapped(v, da, ca, db, cb));
    }
    d
}

// ---------------------------------------------------------------------------
// Seats
// ---------------------------------------------------------------------------

/// The two defenders of a declarer, in (E, W) or (N, S) order.
pub open spec fn defenders_spec(d: Direction) -> (Direction, Direction) {
    match d {
        Direction::North | Direction::South => (Direction::East, Direction::West),
        Direction::East | Direction::West => (Direction::North, Direction::South),
    }
}

/// The defenders of a declarer.
pub fn defenders_of(d: Direction) -> (r: (Direction, Direction))
    ensures
        r == defenders_spec(d),
{
    match d {
        Direction::North | Direction::South => (Direction::East, Direction::West),
        Direction::East | Direction::West => (Direction::North, Direction::South),
    }
}

// ---------------------------------------------------------------------------
// Perturbations
// ---------------------------------------------------------------------------

/// A perturbed deal and what the perturbation changed.
#[derive(Debug)]
pub struct Perturbation {
    pub deal: Deal,
    pub cause: FlipCause,
}

/// The plain content of a perturbation.
pub struct PerturbationView {
    pub deal: Seq<Seq<Card>>,
    pub cause: FlipCause,
}

/// The content of a list of perturbations.
pub open spec fn perturbation_views(p: Seq<Perturbation>) -> Seq<PerturbationView> {
    p.map_values(|x: Perturbation| PerturbationView { deal: deal_view(&x.deal), cause: x.cause })
}

/// Suit of finesse candidate `n` (suits in C, D, H, S order, four honors each).
pub open spec fn candidate_suit(n: int) -> Suit {
    if n / 4 == 0 { Suit::Clubs } else if n / 4 == 1 { Suit::Diamonds } else if n / 4 == 2 { Suit::Hearts } else { Suit::Spades }
}

/// Honor of finesse candidate `n` (A, K, Q, J within each suit).
pub open spec fn candidate_honor(n: int) -> Rank {
    if n % 4 == 0 { Rank::Ace } else if n % 4 == 1 { Rank::King } else if n % 4 == 2 { Rank::Queen } else { Rank::Jack }
}

/// Declarer's side holds a card of the suit ranked above `honor`.
pub open spec fn holds_above(v: Seq<Seq<Card>>, declarer: Direction, suit: Suit, honor: Rank) -> bool {
    let side = suit_cards(v[dir_index_spec(declarer)], suit) + suit_cards(v[dir_index_spec(crate::cards::partner_spec(declarer))], suit);
    exists|i: int| 0 <= i < side.len() && rank_value(side[i].rank) > rank_value(honor)
}

/// The finesse perturbation for candidate `n`, when it applies.
pub open spec fn finesse_candidate(v: Seq<Seq<Card>>, declarer: Direction, n: int) -> Option<PerturbationView> {
    let suit = candidate_suit(n);
    let honor = candidate_honor(n);
    let (d0, d1) = defenders_spec(declarer);
    let c0 = suit_cards(v[dir_index_spec(d0)], suit);
    let c1 = suit_cards(v[dir_index_spec(d1)], suit);
    let card = Card { suit, rank: honor };
    if c0.len() == 0 || c1.len() == 0 {
        None
    } else if c0.contains(card) == c1.contains(card) {
        None
    } else if !holds_above(v, declarer, suit, honor) {
        None
    } else {
        let (holder, other, other_cards) = if c0.contains(card) { (d0, d1, c1) } else { (d1, d0, c0) };
        let low = other_cards[lowest_index(other_cards)];
        Some(PerturbationView { deal: swapped(v, holder, card, other, low), cause: FlipCause::Finesse { suit, honor } })
    }
}

/// The finesse perturbations among the first `n` candidates, in order.
pub open spec fn finesse_upto(v: Seq<Seq<Card>>, declarer: Direction, n: int) -> Seq<PerturbationView>
    decreases n,
{
    if n <= 0 {
        Seq::empty()
    } else {
        finesse_upto(v, declarer, n - 1) + match finesse_candidate(v, declarer, n - 1) {
            Some(p) => seq![p],
            None => Seq::empty(),
        }
    }
}

/// All finesse perturbations of a deal for a declarer.
pub open spec fn finesse_perturbations_spec(v: Seq<Seq<Card>>, declarer: Direction) -> Seq<PerturbationView> {
    finesse_upto(v, declarer, 16)
}

fn suit_of_candidate(n: usize) -> (s: Suit)
    requires
        n < 16,
    ensures
        s == candidate_suit(n as int),
{
    if n / 4 == 0 { Suit::Clubs } else if n / 4 == 1 { Suit::Diamonds } else if n / 4 == 2 { Suit::Hearts } else { Suit::Spades }
}

fn honor_of_candidate(n: usize) -> (r: Rank)
    ensures
        r == candidate_honor(n as int),
{
    if n % 4 == 0 { Rank::Ace } else if n % 4 == 1 { Rank::King } else if n % 4 == 2 { Rank::Queen } else { Rank::Jack }
}

fn contains_card(v: &Vec<Card>, c: Card) -> (r: bool)
    ensures
        r == v@.contains(c),
{
    for i in 0..v.len()
        invariant
            forall|j: int| 0 <= j < i ==> v@[j] != c,
    {
        if v[i] == c {
            return true;
        }
    }
    false
}

fn any_above(v: &Vec<Card>, honor: Rank) -> (r: bool)
    ensures
        r == exists|i: int| 0 <= i < v@.len() && rank_value(v@[i].rank) > rank_value(honor),
{
    for i in 0..v.len()
        invariant
            forall|j: int| 0 <= j < i ==> rank_value(v@[j].rank) <= rank_value(honor),
    {
        if v[i].rank.value() > honor.value() {
            return true;
        }
    }
    false
}

fn finesse_at(deal: &Deal, declarer: Direction, n: usize) -> (r: Option<Perturbation>)
    requires
        n < 16,
    ensures
        r is Some <==> finesse_candidate(deal_view(deal), declarer, n as int) is Some,
        r matches Some(p) ==> finesse_candidate(deal_view(deal), declarer, n as int) == Some(
            PerturbationView { deal: deal_view(&p.deal), cause: p.cause },
        ),
{
    let ghost v = deal_view(deal);
    let suit = suit_of_candidate(n);
    let honor = honor_of_candidate(n);
    let (d0, d1) = defenders_of(declarer);
    proof {
        crate::cards::lemma_dir_index(d0);
        crate::cards::lemma_dir_index(d1);
        crate::cards::lemma_dir_index(declarer);
    }
    let c0 = deal.hand(d0).cards_in_suit(suit);
    let c1 = deal.hand(d1).cards_in_suit(suit);
    assert(c0@ == suit_cards(v[dir_index_spec(d0)], suit));
    assert(c1@ == suit_cards(v[dir_index_spec(d1)], suit));
    if c0.len() == 0 || c1.len() == 0 {
        return None;
    }
    let card = Card { suit, rank: honor };
    let in0 = contains_card(&c0, card);
    let in1 = contains_card(&c1, card);
    if in0 == in1 {
        return None;
    }
    let partner = declarer.partner();
    proof {
        crate::cards::lemma_dir_index(partner);
    }
    let mut side = deal.hand(declarer).cards_in_suit(suit);
    let mut pc = deal.hand(partner).cards_in_suit(suit);
    side.append(&mut pc);
    assert(side@ =~= suit_cards(v[dir_index_spec(declarer)], suit) + suit_cards(v[dir_index_spec(partner)], suit));
    if !any_above(&side, honor) {
        return None;
    }
    let (holder, other, low) = if in0 {
        (d0, d1, lowest(&c1))
    } else {
        (d1, d0, lowest(&c0))
    };
    let pd = swap(deal, holder, card, other, low);
    Some(Perturbation { deal: pd, cause: FlipCause::Finesse { suit, honor } })
}

/// Finesse perturbations: for each suit (C, D, H, S) and honor (A, K, Q,
/// J) held by exactly one defender, where both defenders hold the suit and
/// declarer's side holds a higher card, the deal with that honor exchanged
/// for the other defender's lowest card of the suit.
pub fn finesse_perturbations(deal: &Deal, declarer: Direction) -> (r: Vec<Perturbation>)
    ensures
        perturbation_views(r@) == finesse_perturbations_spec(deal_view(deal), declarer),
{
    let mut out: Vec<Perturbation> = Vec::new();
    for n in 0..16
        invariant
            perturbation_views(out@) == finesse_upto(deal_view(deal), declarer, n as int),
    {
        let ghost before = out@;
        match finesse_at(deal, declarer, n) {
            Some(p) => {
                out.push(p);
                assert(perturbation_views(out@) =~= perturbation_views(before).push(
                    finesse_candidate(deal_view(deal), declarer, n as int)->0,
                ));
                assert(perturbation_views(out@) =~= finesse_upto(deal_view(deal), declarer, n + 1));
            },
            None => {
                assert(perturbation_views(out@) =~= finesse_upto(deal_view(deal), declarer, n + 1));
            },
        }
    }
    out
}

/// Cards of `h` not in suit `s`, in hand order.
pub open spec fn off_suit_cards(h: Seq<Card>, s: Suit) -> Seq<Card>
    decreases h.len(),
{
    if h.len() == 0 {
        Seq::empty()
    } else if h.last().suit != s {
        off_suit_cards(h.drop_last(), s).push(h.last())
    } else {
        off_suit_cards(h.drop_last(), s)
    }
}

/// The ruff perturbation: in a suit contract, the shorter trump holding of
/// declarer and dummy (declarer's on equal length) gives its lowest trump to
/// the other hand and takes back that hand's lowest side-suit card. None in
/// no trump, or when either card is missing.
pub open spec fn ruff_perturbations_spec(v: Seq<Seq<Card>>, declarer: Direction, strain: Strain) -> Seq<PerturbationView> {
    match strain_suit_spec(strain) {
        None => Seq::empty(),
        Some(trump) => {
            let partner = crate::cards::partner_spec(declarer);
            let dl = suit_cards(v[dir_index_spec(declarer)], trump).len();
            let pl = suit_cards(v[dir_index_spec(partner)], trump).len();
            let (short, long) = if dl <= pl { (declarer, partner) } else { (partner, declarer) };
            let st = suit_cards(v[dir_index_spec(short)], trump);
            let ls = off_suit_cards(v[dir_index_spec(long)], trump);
            if st.len() == 0 || ls.len() == 0 {
                Seq::empty()
            } else {
                seq![PerturbationView {
                    deal: swapped(v, short, st[lowest_index(st)], long, ls[lowest_index(ls)]),
                    cause: FlipCause::Ruff { trump },
                }]
            }
        },
    }
}

proof fn lemma_off_suit_cards(h: Seq<Card>, t: Suit)
    ensures
        forall|j: int| 0 <= j < off_suit_cards(h, t).len() ==> (#[trigger] off_suit_cards(h, t)[j]).suit != t
            && h.contains(off_suit_cards(h, t)[j]),
    decreases h.len(),
{
    if h.len() > 0 {
        lemma_off_suit_cards(h.drop_last(), t);
        assert forall|j: int| 0 <= j < off_suit_cards(h, t).len() implies (#[trigger] off_suit_cards(h, t)[j]).suit != t
            && h.contains(off_suit_cards(h, t)[j]) by {
            let c = off_suit_cards(h, t)[j];
            if j < off_suit_cards(h.drop_last(), t).len() {
                assert(c == off_suit_cards(h.drop_last(), t)[j]);
                let k = choose|k: int| 0 <= k < h.drop_last().len() && h.drop_last()[k] == c;
                assert(h[k] == c);
            } else {
                assert(c == h.last());
                assert(h[h.len() - 1] == c);
            }
        }
    }
}

/// Removing one card changes a suit's length by one exactly when the card
/// is of that suit.
proof fn lemma_suit_len_remove(h: Seq<Card>, i: int, t: Suit)
    requires
        0 <= i < h.len(),
    ensures
        suit_cards(h.remove(i), t).len() + (if h[i].suit == t { 1int } else { 0int }) == suit_cards(h, t).len(),
    decreases h.len(),
{
    if i == h.len() - 1 {
        assert(h.remove(i) =~= h.drop_last());
    } else {
        lemma_suit_len_remove(h.drop_last(), i, t);
        assert(h.remove(i) =~= h.drop_last().remove(i).push(h.last()));
        assert(h.remove(i).drop_last() =~= h.drop_last().remove(i));
    }
}

/// Moving trump `out` away and a side card `inn` in takes one trump off the
/// hand; the other way round adds one.
proof fn lemma_trump_exchange(h: Seq<Card>, out: Card, inn: Card, t: Suit)
    requires
        h.contains(out),
    ensures
        suit_cards(remove_first(h, out).push(inn), t).len() + (if out.suit == t { 1int } else { 0int })
            == suit_cards(h, t).len() + (if inn.suit == t { 1int } else { 0int }),
{
    lemma_card_index_found(h, out);
    let i = card_index(h, out)->0;
    lemma_suit_len_remove(h, i, t);
    assert(remove_first(h, out).push(inn).drop_last() =~= remove_first(h, out));
}

/// The ruff perturbation takes a trump from the declaring side's shorter
/// trump holding (declarer's on equal length) and gives it to the other
/// hand, which gives back a side-suit card: the hand that loses a trump held
/// no more trumps than its partner, and strictly fewer when it is dummy.
pub proof fn lemma_ruff_takes_from_short_hand(v: Seq<Seq<Card>>, declarer: Direction, strain: Strain)
    requires
        v.len() == 4,
    ensures
        ruff_perturbations_spec(v, declarer, strain).len() <= 1,
        forall|k: int| 0 <= k < ruff_perturbations_spec(v, declarer, strain).len() ==> ({
            let d = (#[trigger] ruff_perturbations_spec(v, declarer, strain)[k]).deal;
            let dec = dir_index_spec(declarer);
            let par = dir_index_spec(crate::cards::partner_spec(declarer));
            strain_suit_spec(strain) matches Some(t) && d.len() == 4 && ((
                suit_cards(d[dec], t).len() + 1 == suit_cards(v[dec], t).len()
                && suit_cards(d[par], t).len() == suit_cards(v[par], t).len() + 1
                && suit_cards(v[dec], t).len() <= suit_cards(v[par], t).len()
            ) || (
                suit_cards(d[par], t).len() + 1 == suit_cards(v[par], t).len()
                && suit_cards(d[dec], t).len() == suit_cards(v[dec], t).len() + 1
                && suit_cards(v[par], t).len() < suit_cards(v[dec], t).len()
            ))
        }),
{
    match strain_suit_spec(strain) {
        None => {},
        Some(t) => {
            let partner = crate::cards::partner_spec(declarer);
            crate::cards::lemma_dir_index(declarer);
            crate::cards::lemma_dir_index(partner);
            assert(dir_index_spec(partner) != dir_index_spec(declarer));
            let dl = suit_cards(v[dir_index_spec(declarer)], t).len();
            let pl = suit_cards(v[dir_index_spec(partner)], t).len();
            let (short, long) = if dl <= pl { (declarer, partner) } else { (partner, declarer) };
            let st = suit_cards(v[dir_index_spec(short)], t);
            let ls = off_suit_cards(v[dir_index_spec(long)], t);
            if st.len() > 0 && ls.len() > 0 {
                lemma_lowest_index(st);
                lemma_lowest_index(ls);
                crate::cards::lemma_suit_cards(v[dir_index_spec(short)], t);
                lemma_off_suit_cards(v[dir_index_spec(long)], t);
                let ca = st[lowest_index(st)];
                let cb = ls[lowest_index(ls)];
                assert(ca.suit == t);
                assert(st.contains(ca));
                assert(v[dir_index_spec(short)].contains(ca));
                assert(cb.suit != t);
                assert(v[dir_index_spec(long)].contains(cb));
                lemma_trump_exchange(v[dir_index_spec(short)], ca, cb, t);
                lemma_trump_exchange(v[dir_index_spec(long)], cb, ca, t);
                let d = swapped(v, short, ca, long, cb);
                assert(d[dir_index_spec(short)] == remove_first(v[dir_index_spec(short)], ca).push(cb));
                assert(d[dir_index_spec(long)] == remove_first(v[dir_index_spec(long)], cb).push(ca));
            }
        },
    }
}

/// The cards the ruff perturbation moves: the short trump hand's lowest
/// trump, for the other hand's lowest side-suit card; nothing in no trump or
/// when either hand has no such card.
pub proof fn lemma_ruff_moves_lowest_cards(v: Seq<Seq<Card>>, declarer: Direction, strain: Strain)
    requires
        v.len() == 4,
    ensures
        ruff_perturbations_spec(v, declarer, strain).len() > 0 ==> exists|
            short: Direction,
            long: Direction,
            ca: Card,
            cb: Card,
        |
            #![trigger swapped(v, short, ca, long, cb)]
            strain_suit_spec(strain) matches Some(t)
            && ruff_perturbations_spec(v, declarer, strain)[0].deal == swapped(v, short, ca, long, cb)
            && ((short == declarer && long == crate::cards::partner_spec(declarer)) || (short
                == crate::cards::partner_spec(declarer) && long == declarer))
            && ca.suit == t && v[dir_index_spec(short)].contains(ca)
            && (forall|c: Card| #[trigger] v[dir_index_spec(short)].contains(c) && c.suit == t ==> rank_value(ca.rank) <= rank_value(c.rank))
            && cb.suit != t && v[dir_index_spec(long)].contains(cb)
            && (forall|c: Card| #[trigger] v[dir_index_spec(long)].contains(c) && c.suit != t ==> rank_value(cb.rank) <= rank_value(c.rank)),
        strain_suit_spec(strain) is None ==> ruff_perturbations_spec(v, declarer, strain).len() == 0,
{
    match strain_suit_spec(strain) {
        None => {},
        Some(t) => {
            let partner = crate::cards::partner_spec(declarer);
            let dl = suit_cards(v[dir_index_spec(declarer)], t).len();
            let pl = suit_cards(v[dir_index_spec(partner)], t).len();
            let (short, long) = if dl <= pl { (declarer, partner) } else { (partner, declarer) };
            let hs = v[dir_index_spec(short)];
            let hl = v[dir_index_spec(long)];
            let st = suit_cards(hs, t);
            let ls = off_suit_cards(hl, t);
            if st.len() > 0 && ls.len() > 0 {
                lemma_lowest_index(st);
                lemma_lowest_index(ls);
                crate::cards::lemma_suit_cards(hs, t);
                lemma_off_suit_cards(hl, t);
                lemma_off_suit_members(hl, t);
                let ca = st[lowest_index(st)];
                let cb = ls[lowest_index(ls)];
                assert(st.contains(ca));
                assert forall|c: Card| #[trigger] hs.contains(c) && c.suit == t implies rank_value(ca.rank) <= rank_value(c.rank) by {
                    assert(st.contains(c));
                    let j = choose|j: int| 0 <= j < st.len() && st[j] == c;
                    assert(rank_value(st[lowest_index(st)].rank) <= rank_value(st[j].rank));
                }
                assert forall|c: Card| #[trigger] hl.contains(c) && c.suit != t implies rank_value(cb.rank) <= rank_value(c.rank) by {
                    assert(ls.contains(c));
                    let j = choose|j: int| 0 <= j < ls.len() && ls[j] == c;
                    assert(rank_value(ls[lowest_index(ls)].rank) <= rank_value(ls[j].rank));
                }
                assert(ruff_perturbations_spec(v, declarer, strain)[0].deal == swapped(v, short, ca, long, cb));
            }
        },
    }
}

/// Every side-suit card of a hand is among its side-suit cards.
proof fn lemma_off_suit_members(h: Seq<Card>, t: Suit)
    ensures
        forall|c: Card| #[trigger] h.contains(c) && c.suit != t ==> off_suit_cards(h, t).contains(c),
    decreases h.len(),
{
    if h.len() > 0 {
        lemma_off_suit_members(h.drop_last(), t);
        assert forall|c: Card| #[trigger] h.contains(c) && c.suit != t implies off_suit_cards(h, t).contains(c) by {
            let i = choose|i: int| 0 <= i < h.len() && h[i] == c;
            if i < h.len() - 1 {
                assert(h.drop_last()[i] == c);
                assert(h.drop_last().contains(c));
                let j = choose|j: int| 0 <= j < off_suit_cards(h.drop_last(), t).len() && off_suit_cards(h.drop_last(), t)[j] == c;
                if h.last().suit != t {
                    assert(off_suit_cards(h, t)[j] == c);
                }
            } else {
                assert(off_suit_cards(h, t).last() == c);
                assert(off_suit_cards(h, t)[off_suit_cards(h, t).len() - 1] == c);
            }
        }
    }
}

fn off_suit(h: &Hand, s: Suit) -> (r: Vec<Card>)
    ensures
        r@ == off_suit_cards(h.cards@, s),
{
    let mut r: Vec<Card> = Vec::new();
    for i in 0..h.cards.len()
        invariant
            r@ == off_suit_cards(h.cards@.take(i as int), s),
    {
        let c = h.cards[i];
        assert(h.cards@.take(i + 1).drop_last() =~= h.cards@.take(i as int));
        if c.suit != s {
            r.push(c);
        }
    }
    assert(h.cards@.take(h.cards.len() as int) =~= h.cards@);
    r
}

/// The ruff perturbation (see `ruff_perturbations_spec`).
pub fn ruff_perturbations(deal: &Deal, declarer: Direction, strain: Strain) -> (r: Vec<Perturbation>)
    ensures
        perturbation_views(r@) == ruff_perturbations_spec(deal_view(deal), declarer, strain),
{
    let mut out: Vec<Perturbation> = Vec::new();
    let trump = match strain_suit(strain) {
        None => {
            assert(perturbation_views(out@) =~= Seq::<PerturbationView>::empty());
            return out;
        },
        Some(t) => t,
    };
    let ghost v = deal_view(deal);
    let partner = declarer.partner();
    proof {
        crate::cards::lemma_dir_index(declarer);
        crate::cards::lemma_dir_index(partner);
    }
    let dl = deal.hand(declarer).suit_length(trump);
    let pl = deal.hand(partner).suit_length(trump);
    let (short, long) = if dl <= pl { (declarer, partner) } else { (partner, declarer) };
    proof {
        crate::cards::lemma_dir_index(short);
        crate::cards::lemma_dir_index(long);
    }
    let st = deal.hand(short).cards_in_suit(trump);
    let ls = off_suit(deal.hand(long), trump);
    assert(st@ == suit_cards(v[dir_index_spec(short)], trump));
    assert(ls@ == off_suit_cards(v[dir_index_spec(long)], trump));
    if st.len() == 0 || ls.len() == 0 {
        assert(perturbation_views(out@) =~= Seq::<PerturbationView>::empty());
        return out;
    }
    let pd = swap(deal, short, lowest(&st), long, lowest(&ls));
    out.push(Perturbation { deal: pd, cause: FlipCause::Ruff { trump } });
    assert(perturbation_views(out@) =~= ruff_perturbations_spec(v, declarer, strain));
    out
}

// ---------------------------------------------------------------------------
// Plans and verdicts
// ---------------------------------------------------------------------------

/// A probe's perturbations, to be solved in the contract strain by the
/// contract's declarer.
#[derive(Debug)]
pub struct ProbePlan {
    pub name: String,
    pub perturbations: Vec<Perturbation>,
}

/// The v1 probes for a deal and contract: finesse, then ruff.
pub fn probe_plans(deal: &Deal, declarer: Direction, strain: Strain) -> (r: Vec<ProbePlan>)
    ensures
        r@.len() == 2,
        r@[0].name@ == "finesse"@,
        perturbation_views(r@[0].perturbations@) == finesse_perturbations_spec(deal_view(deal), declarer),
        r@[1].name@ == "ruff"@,
        perturbation_views(r@[1].perturbations@) == ruff_perturbations_spec(deal_view(deal), declarer, strain),
{
    let mut r: Vec<ProbePlan> = Vec::new();
    r.push(ProbePlan { name: owned("finesse"), perturbations: finesse_perturbations(deal, declarer) });
    r.push(ProbePlan { name: owned("ruff"), perturbations: ruff_perturbations(deal, declarer, strain) });
    r
}

/// The flips among solved perturbations: those whose trick count fell
/// below the requirement, when the contract made at baseline.
pub open spec fn flips_spec(causes: Seq<FlipCause>, tricks: Seq<u8>, baseline: u8, required: u8) -> Seq<FlipEvidence>
    decreases causes.len(),
{
    if causes.len() == 0 || tricks.len() == 0 {
        Seq::empty()
    } else {
        let rest = flips_spec(causes.drop_last(), tricks.drop_last(), baseline, required);
        if baseline >= required && tricks.last() < required {
            rest.push(FlipEvidence { cause: causes.last(), baseline, perturbed: tricks.last() })
        } else {
            rest
        }
    }
}

/// The causes of a list of perturbations.
pub open spec fn causes_of(p: Seq<Perturbation>) -> Seq<FlipCause> {
    p.map_values(|x: Perturbation| x.cause)
}

/// A probe fires if any perturbation turns a making contract into a
/// failing one; the flips carry the evidence.
pub fn verdict_on_flip(name: &String, perturbations: &Vec<Perturbation>, tricks: &Vec<u8>, baseline: u8, required: u8) -> (r: ProbeRecord)
    requires
        tricks@.len() == perturbations@.len(),
    ensures
        r.name@ == name@,
        r.flips@ == flips_spec(causes_of(perturbations@), tricks@, baseline, required),
        r.fired == (r.flips@.len() > 0),
{
    let mut flips: Vec<FlipEvidence> = Vec::new();
    let n = tricks.len();
    for i in 0..n
        invariant
            n == tricks@.len() == perturbations@.len(),
            flips@ == flips_spec(causes_of(perturbations@).take(i as int), tricks@.take(i as int), baseline, required),
    {
        assert(causes_of(perturbations@).take(i + 1).drop_last() =~= causes_of(perturbations@).take(i as int));
        assert(tricks@.take(i + 1).drop_last() =~= tricks@.take(i as int));
        if baseline >= required && tricks[i] < required {
            flips.push(FlipEvidence { cause: perturbations[i].cause, baseline, perturbed: tricks[i] });
        }
    }
    assert(causes_of(perturbations@).take(n as int) =~= causes_of(perturbations@));
    assert(tricks@.take(n as int) =~= tricks@);
    let fired = flips.len() > 0;
    ProbeRecord { name: crate::text::copy_string(name), fired, flips }
}

/// The solved trick counts line up with the plans' perturbations.
pub open spec fn solved_matches(plans: Seq<ProbePlan>, solved: Seq<Vec<u8>>) -> bool {
    solved.len() == plans.len() && forall|i: int| 0 <= i < plans.len() ==> (#[trigger] solved[i])@.len() == plans[i].perturbations@.len()
}

/// One verdict per probe plan, from the solved perturbations.
pub fn run_probes(plans: &Vec<ProbePlan>, solved: &Vec<Vec<u8>>, baseline: u8, required: u8) -> (r: Vec<ProbeRecord>)
    requires
        solved_matches(plans@, solved@),
    ensures
        r@.len() == plans@.len(),
        forall|i: int| 0 <= i < plans@.len() ==> {
            &&& (#[trigger] r@[i]).name@ == plans@[i].name@
            &&& r@[i].flips@ == flips_spec(causes_of(plans@[i].perturbations@), solved@[i]@, baseline, required)
            &&& r@[i].fired == (r@[i].flips@.len() > 0)
        },
{
    let mut r: Vec<ProbeRecord> = Vec::new();
    for i in 0..plans.len()
        invariant
            solved_matches(plans@, solved@),
            r@.len() == i,
            forall|j: int| 0 <= j < i ==> {
                &&& (#[trigger] r@[j]).name@ == plans@[j].name@
                &&& r@[j].flips@ == flips_spec(causes_of(plans@[j].perturbations@), solved@[j]@, baseline, required)
                &&& r@[j].fired == (r@[j].flips@.len() > 0)
            },
    {
        assert(solved@[i as int]@.len() == plans@[i as int].perturbations@.len());
        let rec = verdict_on_flip(&plans[i].name, &plans[i].perturbations, &solved[i], baseline, required);
        r.push(rec);
    }
    r
}

} // verus!
