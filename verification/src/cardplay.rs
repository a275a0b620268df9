//! Stage 3 — cash-out check (no extra solves).
//!
//! The declaring side's immediate top winners in a suit are the run of
//! consecutive top ranks (A, then K, then Q, ...) the partnership holds
//! between its two hands, capped by the longer hand's length in the suit.
//! Summed over the four suits, this is the "top tricks suffice" measure the
//! ladder's level 0 is defined against.

use vstd::prelude::*;
use crate::cards::{lemma_suit_cards, rank_of_value, rank_value, suit_cards, Card, Hand, Rank, Suit};
use vstd::set_lib::{lemma_int_range, lemma_len_subset, set_int_range};

verus! {

/// One of the two hands holds the card of suit `s` with rank value `v`.
pub open spec fn side_holds(a: Seq<Card>, b: Seq<Card>, s: Suit, v: int) -> bool {
    a.contains(Card { suit: s, rank: rank_of_value(v) }) || b.contains(Card { suit: s, rank: rank_of_value(v) })
}

/// Length of the run of consecutive ranks held, from value `v` downward.
pub open spec fn top_run(a: Seq<Card>, b: Seq<Card>, s: Suit, v: int) -> nat
    decreases v,
{
    if v < 2 || !side_holds(a, b, s, v) {
        0
    } else {
        1 + top_run(a, b, s, v - 1)
    }
}

/// Immediate top winners in one suit: the run from the Ace down, capped by
/// the longer holding (its length taken as a byte).
pub open spec fn suit_top_winners_spec(a: Seq<Card>, b: Seq<Card>, s: Suit) -> nat {
    let run = top_run(a, b, s, 14);
    let la = suit_cards(a, s).len();
    let lb = suit_cards(b, s).len();
    let longer = (if la >= lb { la } else { lb }) as u8;
    if run <= longer { run } else { longer as nat }
}

/// Immediate top winners for the declaring side, summed over the suits.
pub open spec fn immediate_top_winners_spec(a: Seq<Card>, b: Seq<Card>) -> nat {
    suit_top_winners_spec(a, b, Suit::Clubs) + suit_top_winners_spec(a, b, Suit::Diamonds)
        + suit_top_winners_spec(a, b, Suit::Hearts) + suit_top_winners_spec(a, b, Suit::Spades)
}

/// The winners do not depend on which of the two hands is declarer's.
pub proof fn lemma_winners_symmetric(a: Seq<Card>, b: Seq<Card>)
    ensures
        immediate_top_winners_spec(a, b) == immediate_top_winners_spec(b, a),
{
    assert forall|s: Suit, v: int| top_run(a, b, s, v) == top_run(b, a, s, v) by {
        lemma_top_run_swap(a, b, s, v);
    }
}

proof fn lemma_top_run_swap(a: Seq<Card>, b: Seq<Card>, s: Suit, v: int)
    ensures
        top_run(a, b, s, v) == top_run(b, a, s, v),
    decreases v,
{
    if v >= 2 {
        lemma_top_run_swap(a, b, s, v - 1);
    }
}

proof fn lemma_top_run_more(a: Seq<Card>, b: Seq<Card>, a2: Seq<Card>, b2: Seq<Card>, s: Suit, v: int)
    requires
        forall|c: Card| a.contains(c) ==> a2.contains(c),
        forall|c: Card| b.contains(c) ==> b2.contains(c),
    ensures
        top_run(a, b, s, v) <= top_run(a2, b2, s, v),
    decreases v,
{
    if v >= 2 {
        lemma_top_run_more(a, b, a2, b2, s, v - 1);
    }
}

proof fn lemma_suit_cards_append(h: Seq<Card>, x: Seq<Card>, s: Suit)
    ensures
        suit_cards(h + x, s).len() == suit_cards(h, s).len() + suit_cards(x, s).len(),
    decreases x.len(),
{
    if x.len() > 0 {
        assert((h + x).drop_last() =~= h + x.drop_last());
        lemma_suit_cards_append(h, x.drop_last(), s);
    } else {
        assert(h + x =~= h);
    }
}

proof fn lemma_suit_cards_distinct(h: Seq<Card>, s: Suit)
    requires
        h.no_duplicates(),
    ensures
        suit_cards(h, s).no_duplicates(),
    decreases h.len(),
{
    if h.len() > 0 {
        let t = h.drop_last();
        assert(t.no_duplicates()) by {
            assert forall|i: int, j: int| 0 <= i < t.len() && 0 <= j < t.len() && i != j implies t[i] != t[j] by {
                assert(t[i] == h[i] && t[j] == h[j]);
            }
        }
        lemma_suit_cards_distinct(t, s);
        lemma_suit_cards(t, s);
        if h.last().suit == s {
            let q = suit_cards(t, s);
            assert(!t.contains(h.last())) by {
                if t.contains(h.last()) {
                    let i = choose|i: int| 0 <= i < t.len() && t[i] == h.last();
                    assert(h[i] == h[h.len() - 1]);
                }
            }
            assert(!q.contains(h.last()));
            assert forall|i: int, j: int| 0 <= i < q.push(h.last()).len() && 0 <= j < q.push(h.last()).len() && i != j
                implies q.push(h.last())[i] != q.push(h.last())[j] by {
                if i < q.len() && j < q.len() {
                } else if i < q.len() {
                    assert(q.contains(q[i]));
                } else {
                    assert(q.contains(q[j]));
                }
            }
        }
    }
}

/// A hand of distinct cards holds at most 13 cards of a suit.
pub proof fn lemma_suit_length_at_most_13(h: Seq<Card>, s: Suit)
    requires
        h.no_duplicates(),
    ensures
        suit_cards(h, s).len() <= 13,
{
    let q = suit_cards(h, s);
    lemma_suit_cards(h, s);
    lemma_suit_cards_distinct(h, s);
    let vals = q.map_values(|c: Card| rank_value(c.rank));
    assert(vals.no_duplicates()) by {
        assert forall|i: int, j: int| 0 <= i < vals.len() && 0 <= j < vals.len() && i != j implies vals[i] != vals[j] by {
            assert(q[i].suit == s && q[j].suit == s);
            assert(q[i] != q[j]);
        }
    }
    vals.unique_seq_to_set();
    lemma_int_range(2, 15);
    assert(vals.to_set().subset_of(set_int_range(2, 15))) by {
        assert forall|v: int| vals.to_set().contains(v) implies set_int_range(2, 15).contains(v) by {
            let i = choose|i: int| 0 <= i < vals.len() && vals[i] == v;
            assert(vals[i] == rank_value(q[i].rank));
        }
    }
    lemma_len_subset(vals.to_set(), set_int_range(2, 15));
}

proof fn lemma_suit_winners_more(a: Seq<Card>, b: Seq<Card>, x: Seq<Card>, y: Seq<Card>, s: Suit)
    requires
        (a + x).no_duplicates(),
        (b + y).no_duplicates(),
    ensures
        suit_top_winners_spec(a, b, s) <= suit_top_winners_spec(a + x, b + y, s),
{
    assert forall|c: Card| a.contains(c) implies (a + x).contains(c) by {
        let i = choose|i: int| 0 <= i < a.len() && a[i] == c;
        assert((a + x)[i] == c);
    }
    assert forall|c: Card| b.contains(c) implies (b + y).contains(c) by {
        let i = choose|i: int| 0 <= i < b.len() && b[i] == c;
        assert((b + y)[i] == c);
    }
    lemma_top_run_more(a, b, a + x, b + y, s, 14);
    lemma_suit_cards_append(a, x, s);
    lemma_suit_cards_append(b, y, s);
    lemma_suit_length_at_most_13(a + x, s);
    lemma_suit_length_at_most_13(b + y, s);
}

/// Adding cards to either hand never lowers the winners, for hands of
/// distinct cards.
pub proof fn lemma_winners_grow(a: Seq<Card>, b: Seq<Card>, x: Seq<Card>, y: Seq<Card>)
    requires
        (a + x).no_duplicates(),
        (b + y).no_duplicates(),
    ensures
        immediate_top_winners_spec(a, b) <= immediate_top_winners_spec(a + x, b + y),
{
    lemma_suit_winners_more(a, b, x, y, Suit::Clubs);
    lemma_suit_winners_more(a, b, x, y, Suit::Diamonds);
    lemma_suit_winners_more(a, b, x, y, Suit::Hearts);
    lemma_suit_winners_more(a, b, x, y, Suit::Spades);
}

proof fn lemma_top_run_bound(a: Seq<Card>, b: Seq<Card>, s: Suit, v: int)
    ensures
        v >= 1 ==> top_run(a, b, s, v) <= v - 1,
        v < 1 ==> top_run(a, b, s, v) == 0,
    decreases v,
{
    if v >= 2 {
        lemma_top_run_bound(a, b, s, v - 1);
    }
}

fn holds_rank(a: &Hand, b: &Hand, suit: Suit, v: u8) -> (r: bool)
    requires
        2 <= v <= 14,
    ensures
        r == side_holds(a.cards@, b.cards@, suit, v as int),
{
    let c = Card { suit, rank: Rank::from_value(v) };
    a.holds(c) || b.holds(c)
}

/// Immediate top winners in one suit for the partnership `a` + `b`.
pub fn suit_top_winners(a: &Hand, b: &Hand, suit: Suit) -> (w: u8)
    ensures
        w as nat == suit_top_winners_spec(a.cards@, b.cards@, suit),
        w <= 13,
{
    let mut winners: u8 = 0;
    let mut v: u8 = 14;
    proof {
        lemma_top_run_bound(a.cards@, b.cards@, suit, 14);
    }
    while v >= 2 && holds_rank(a, b, suit, v)
        invariant
            1 <= v <= 14,
            winners + v == 14,
            top_run(a.cards@, b.cards@, suit, 14) == winners + top_run(a.cards@, b.cards@, suit, v as int),
        decreases v,
    {
        winners += 1;
        v -= 1;
    }
    let la = a.suit_length(suit);
    let lb = b.suit_length(suit);
    let longer = (if la >= lb { la } else { lb }) as u8;
    if winners <= longer { winners } else { longer }
}

/// Immediate top winners for the declaring side (declarer + dummy).
pub fn immediate_top_winners(declarer: &Hand, dummy: &Hand) -> (w: u8)
    ensures
        w as nat == immediate_top_winners_spec(declarer.cards@, dummy.cards@),
        w <= 52,
{
    suit_top_winners(declarer, dummy, Suit::Clubs) + suit_top_winners(declarer, dummy, Suit::Diamonds)
        + suit_top_winners(declarer, dummy, Suit::Hearts) + suit_top_winners(declarer, dummy, Suit::Spades)
}

} // verus!
