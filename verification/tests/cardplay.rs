use deal_survey::cardplay::{immediate_top_winners, suit_top_winners};
use deal_survey::cards::{Card, Hand, Rank, Suit};

fn hand(pbn_suits: &str) -> Hand {
    let suits = [Suit::Spades, Suit::Hearts, Suit::Diamonds, Suit::Clubs];
    let mut cards = Vec::new();
    for (holding, suit) in pbn_suits.split('.').zip(suits) {
        for ch in holding.chars() {
            if let Some(rank) = Rank::from_char(ch) {
                cards.push(Card { suit, rank });
            }
        }
    }
    Hand::from_cards(cards)
}

#[test]
fn counts_top_run_capped_by_length() {
    // Spades AKQ combined across the two hands, hearts A only.
    let declarer = hand("AK.A.5432.5432");
    let dummy = hand("Q432.234.6.6543");
    assert_eq!(immediate_top_winners(&declarer, &dummy), 4);
}

#[test]
fn blockage_cap_limits_winners() {
    let declarer = hand("AKQJ.234.234.234");
    let dummy = hand(".5678.5678.5678");
    assert_eq!(suit_top_winners(&declarer, &dummy, Suit::Spades), 4);
}

#[test]
fn length_cap_applies_to_a_short_run() {
    // AKQ split as A opposite KQ: run of 3, longer holding 2 → 2.
    let declarer = hand("A.2.2.2");
    let dummy = hand("KQ.3.3.3");
    assert_eq!(suit_top_winners(&declarer, &dummy, Suit::Spades), 2);
    // No ace: no winners however many honors.
    let d2 = hand("KQJT.2.2.2");
    let m2 = hand("9876.3.3.3");
    assert_eq!(suit_top_winners(&d2, &m2, Suit::Spades), 0);
}

#[test]
fn full_run_capped_by_longer_holding() {
    let declarer = hand("AKQJT98...");
    let dummy = hand("765432...");
    assert_eq!(suit_top_winners(&declarer, &dummy, Suit::Spades), 7);
}
