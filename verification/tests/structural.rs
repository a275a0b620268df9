use deal_survey::auction::{Auction, Board, Call};
use deal_survey::cards::{Direction, Strain};
use deal_survey::model::ContractProvenance;
use deal_survey::structural::{auction_counts_fit, auction_info, category_of, is_high_bid, source_for, structural_of};

#[test]
fn maps_contract_sections_and_filters_custom_tags() {
    let board = Board::new()
        .with_contract("4S".to_string())
        .with_extra_tag("SkillPath", "majors/weak-two")
        .with_extra_tag("Scoring", "IMP") // standard-but-unmodeled → not custom
        .with_commentary("Draw trumps.".to_string());

    let s = structural_of(&board);
    assert_eq!(s.contract.as_deref(), Some("4S"));
    assert_eq!(s.contract_provenance, ContractProvenance::Explicit);
    assert!(!s.auction.present); // none attached
    assert!(s.commentary.present);
    assert_eq!(s.commentary.style.as_deref(), Some("inline"));
    assert_eq!(s.custom_tags, vec!["SkillPath".to_string()]);
}

#[test]
fn absent_contract_is_none_not_guessed() {
    let s = structural_of(&Board::new());
    assert_eq!(s.contract_provenance, ContractProvenance::Missing);
    assert!(s.contract.is_none());
}

#[test]
fn repeated_custom_tags_collapse_only_when_adjacent() {
    let board = Board::new()
        .with_extra_tag("Difficulty", "2")
        .with_extra_tag("Difficulty", "3")
        .with_extra_tag("Room", "Open")
        .with_extra_tag("SkillPath", "x/y")
        .with_extra_tag("Difficulty", "4");
    let s = structural_of(&board);
    assert_eq!(s.custom_tags, vec!["Difficulty".to_string(), "SkillPath".to_string(), "Difficulty".to_string()]);
}

#[test]
fn auction_proxies() {
    // N 1S, E 2H, S 4S, W 5H, N X, all pass.
    let mut a = Auction::new(Direction::North);
    for call in [
        Call::bid(1, Strain::Spades),
        Call::bid(2, Strain::Hearts),
        Call::bid(4, Strain::Spades),
        Call::bid(5, Strain::Hearts),
        Call::Double,
        Call::Pass,
        Call::Pass,
        Call::Pass,
    ] {
        a.add_call(call);
    }
    let info = auction_info(Some(&a));
    assert!(info.present);
    assert_eq!(info.bids, 4);
    assert!(info.contested);
    assert_eq!(info.doubles, 1);
    assert!(info.double_of_final);
    assert_eq!(info.high_bids, 1); // 5H; 4S is a game
    let none = auction_info(None);
    assert!(!none.present && none.bids == 0);
}

#[test]
fn high_bids_exclude_games() {
    assert!(!is_high_bid(3, Strain::NoTrump));
    assert!(!is_high_bid(4, Strain::Hearts));
    assert!(!is_high_bid(4, Strain::Spades));
    assert!(!is_high_bid(5, Strain::Clubs));
    assert!(!is_high_bid(5, Strain::Diamonds));
    assert!(is_high_bid(4, Strain::Clubs));
    assert!(is_high_bid(4, Strain::NoTrump));
    assert!(is_high_bid(6, Strain::Hearts));
    assert!(!is_high_bid(2, Strain::Spades));
}

#[test]
fn category_sources() {
    let b = Board::new().with_extra_tag("SkillPath", "majors/weak-two");
    assert_eq!(category_of(&b, "Lessons/x.pbn"), "majors");
    let b2 = Board::new().with_extra_tag("SkillPath", "/weak-two");
    assert_eq!(category_of(&b2, "Lessons/x.pbn"), "Lessons");
    assert_eq!(category_of(&Board::new(), "x.pbn"), "(uncategorized)");
    let s = source_for("Baker", "Lessons/x.pbn", &Board::new());
    assert_eq!(s.collection, "Baker");
    assert_eq!(s.file, "Lessons/x.pbn");
    assert_eq!(s.category, "Lessons");
    assert_eq!(s.board, None);
}

#[test]
fn contract_derivable_from_the_auction_is_inferred() {
    let mut a = deal_survey::auction::Auction::new(deal_survey::cards::Direction::North);
    for call in [
        deal_survey::auction::Call::bid(1, deal_survey::cards::Strain::NoTrump),
        deal_survey::auction::Call::Pass,
        deal_survey::auction::Call::bid(3, deal_survey::cards::Strain::NoTrump),
        deal_survey::auction::Call::Pass,
        deal_survey::auction::Call::Pass,
        deal_survey::auction::Call::Pass,
    ] {
        a.add_call(call);
    }
    let s = structural_of(&Board::new().with_auction(a));
    assert_eq!(s.contract_provenance, ContractProvenance::Inferred);
    assert!(s.contract.is_none());

    let mut passed = deal_survey::auction::Auction::new(deal_survey::cards::Direction::East);
    for _ in 0..4 {
        passed.add_call(deal_survey::auction::Call::Pass);
    }
    let s = structural_of(&Board::new().with_auction(passed));
    assert_eq!(s.contract_provenance, ContractProvenance::Missing);
}

#[test]
fn long_auctions_count_their_bids_and_doubles() {
    // Every bid from 1C to 7NT, each doubled and redoubled before the next
    // (pass, pass, double, pass, pass, redouble, pass, pass), then the
    // last one doubled, redoubled and passed out: 316 calls.
    let mut a = Auction::new(Direction::North);
    let strains = [Strain::Clubs, Strain::Diamonds, Strain::Hearts, Strain::Spades, Strain::NoTrump];
    for level in 1..=7u8 {
        for s in strains {
            a.add_call(Call::bid(level, s));
            if !(level == 7 && s == Strain::NoTrump) {
                for c in [Call::Pass, Call::Pass, Call::Double, Call::Pass, Call::Pass, Call::Redouble, Call::Pass, Call::Pass] {
                    a.add_call(c);
                }
            }
        }
    }
    for c in [Call::Pass, Call::Pass, Call::Double, Call::Pass, Call::Pass, Call::Redouble, Call::Pass, Call::Pass, Call::Pass] {
        a.add_call(c);
    }
    assert_eq!(a.calls.len(), 35 + 34 * 8 + 9);
    assert!(a.calls.len() > 255);
    assert!(auction_counts_fit(&a));
    let info = auction_info(Some(&a));
    assert_eq!((info.bids, info.doubles), (35, 70));
    let s = structural_of(&Board::new().with_auction(a));
    assert!(s.auction.present && s.auction.bids == 35);

    let mut many = Auction::new(Direction::North);
    for _ in 0..256 {
        many.add_call(Call::Double);
    }
    assert!(!auction_counts_fit(&many));
}
