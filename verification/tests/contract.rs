use deal_survey::auction::{Auction, Board, Call};
use deal_survey::cards::{Direction, Strain};
use deal_survey::contract::{effective_contract, Contract};
use deal_survey::model::ContractProvenance;

#[test]
fn explicit_contract_is_used() {
    let board = Board::new()
        .with_contract("4H".to_string())
        .with_declarer(Direction::South);
    let ec = effective_contract(&board).expect("explicit contract");
    assert_eq!(ec.level, 4);
    assert_eq!(ec.strain, Strain::Hearts);
    assert_eq!(ec.declarer, Direction::South);
    assert_eq!(ec.provenance, ContractProvenance::Explicit);
}

#[test]
fn falls_back_to_auction_final_call() {
    let mut auction = Auction::new(Direction::North);
    for call in [
        Call::bid(1, Strain::NoTrump),
        Call::Pass,
        Call::bid(3, Strain::NoTrump),
        Call::Pass,
        Call::Pass,
        Call::Pass,
    ] {
        auction.add_call(call);
    }
    let board = Board::new().with_auction(auction); // no [Contract]
    let ec = effective_contract(&board).expect("inferred from auction");
    assert_eq!(ec.level, 3);
    assert_eq!(ec.strain, Strain::NoTrump);
    assert_eq!(ec.provenance, ContractProvenance::Inferred);
}

#[test]
fn no_contract_no_auction_declines() {
    assert!(effective_contract(&Board::new()).is_none());
}

#[test]
fn display_texts() {
    let board = Board::new().with_contract("4H".to_string()).with_declarer(Direction::South);
    assert_eq!(effective_contract(&board).unwrap().display, "4H by S");
    let mut auction = Auction::new(Direction::North);
    for call in [Call::bid(1, Strain::NoTrump), Call::Pass, Call::bid(3, Strain::NoTrump), Call::Double, Call::Pass, Call::Pass, Call::Pass] {
        auction.add_call(call);
    }
    let ec = effective_contract(&Board::new().with_auction(auction)).unwrap();
    // North opened 1NT, South raised: North declares.
    assert_eq!(ec.declarer, Direction::North);
    assert_eq!(ec.display, "3NTX by N");
}

#[test]
fn declarer_is_first_of_side_to_name_the_strain() {
    // Dealer E. E pass, S 1H, W pass, N 4H, all pass: South bid hearts first.
    let mut auction = Auction::new(Direction::East);
    for call in [Call::Pass, Call::bid(1, Strain::Hearts), Call::Pass, Call::bid(4, Strain::Hearts), Call::Pass, Call::Pass, Call::Pass] {
        auction.add_call(call);
    }
    let fc = auction.final_contract().unwrap();
    assert_eq!(fc.level, 4);
    assert_eq!(fc.strain, Strain::Hearts);
    assert_eq!(fc.declarer, Direction::South);
    assert!(!fc.doubled && !fc.redoubled);
    assert_eq!(fc.to_pbn(), "4H");
}

#[test]
fn redouble_after_double() {
    let mut auction = Auction::new(Direction::North);
    for call in [Call::bid(2, Strain::Spades), Call::Double, Call::Redouble, Call::Pass, Call::Pass, Call::Pass] {
        auction.add_call(call);
    }
    let fc = auction.final_contract().unwrap();
    assert!(fc.redoubled);
    assert!(!fc.doubled);
    assert_eq!(fc.to_pbn(), "2SXX");
}

#[test]
fn passed_out_has_no_contract() {
    let mut auction = Auction::new(Direction::West);
    for _ in 0..4 {
        auction.add_call(Call::Pass);
    }
    assert!(auction.final_contract().is_none());
}

#[test]
fn contract_grammar() {
    let c = Contract::parse("3NT").unwrap();
    assert_eq!((c.level, c.strain, c.doubled, c.redoubled, c.declarer), (3, Strain::NoTrump, false, false, None));
    let c = Contract::parse("4HX").unwrap();
    assert!(c.doubled && !c.redoubled);
    let c = Contract::parse("6SXXE").unwrap();
    assert!(c.redoubled);
    assert_eq!(c.declarer, Some(Direction::East));
    assert!(Contract::parse("8H").is_none());
    assert!(Contract::parse("4").is_none());
    assert!(Contract::parse("Pass").is_none());
    assert!(Contract::parse("4HXQ").is_none());
}

#[test]
fn contract_declarer_letter_used_without_declarer_tag() {
    let board = Board::new().with_contract("4SW".to_string());
    let ec = effective_contract(&board).unwrap();
    assert_eq!(ec.declarer, Direction::West);
    assert_eq!(ec.display, "4SW by W");
}

#[test]
fn unparsable_contract_falls_back_to_auction() {
    let mut auction = Auction::new(Direction::South);
    for call in [Call::bid(1, Strain::Clubs), Call::Pass, Call::Pass, Call::Pass] {
        auction.add_call(call);
    }
    let board = Board::new().with_contract("junk".to_string()).with_auction(auction);
    let ec = effective_contract(&board).unwrap();
    assert_eq!(ec.provenance, ContractProvenance::Inferred);
    assert_eq!(ec.declarer, Direction::South);
    assert_eq!(ec.display, "1C by S");
}
