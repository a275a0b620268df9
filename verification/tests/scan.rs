use deal_survey::auction::Board;
use deal_survey::cards::{Card, Deal, Direction, Rank, Strain, Suit};
use deal_survey::model::{DdTable, FlipCause, Par, Versions};
use deal_survey::scan::{
    admit_board, analyze, count_written, is_complete, is_current_baselined, partner_of, probe_request, tally, take_cached,
    ScanSummary,
};

const DEAL: &str = "N:94.QJ76.KQ65.AJ6 QJ3.432.A873.T42 A76.A98.JT9.KQ85 KT852.KT5.42.973";

fn board(contract: &str) -> Board {
    Board::new()
        .with_deal(Deal::from_pbn(DEAL).unwrap())
        .with_contract(contract.to_string())
        .with_declarer(Direction::South)
}

fn table(south_nt: u8, north_nt: u8) -> DdTable {
    let mut tricks = [[0u8; 5]; 4];
    tricks[2][4] = south_nt;
    tricks[0][4] = north_nt;
    DdTable { tricks }
}

fn par() -> Par {
    Par { optimum_score: 400, contract: Some("3NT-S".to_string()) }
}

#[test]
fn completeness() {
    assert!(is_complete(&Deal::from_pbn(DEAL).unwrap()));
    assert!(!is_complete(&Deal::empty()));
    assert_eq!(partner_of(Direction::East), Direction::West);
}

#[test]
fn probes_request_finesse_candidates_in_suit_and_honor_order() {
    let (strain, declarer, plans) = probe_request(&board("3NT"), &table(9, 9)).expect("probes run");
    assert_eq!(strain, Strain::NoTrump);
    assert_eq!(declarer, Direction::South);
    assert_eq!(plans.len(), 2);
    assert_eq!(plans[0].name, "finesse");
    assert_eq!(plans[1].name, "ruff");
    let causes: Vec<FlipCause> = plans[0].perturbations.iter().map(|p| p.cause).collect();
    assert_eq!(
        causes,
        vec![
            FlipCause::Finesse { suit: Suit::Hearts, honor: Rank::King },
            FlipCause::Finesse { suit: Suit::Spades, honor: Rank::King },
            FlipCause::Finesse { suit: Suit::Spades, honor: Rank::Queen },
            FlipCause::Finesse { suit: Suit::Spades, honor: Rank::Jack },
        ]
    );
    // No trump suit, no ruff to relocate.
    assert!(plans[1].perturbations.is_empty());
    // The spade king moves from West to East, East's lowest spade the other way.
    let moved = &plans[0].perturbations[1].deal;
    let king = Card { suit: Suit::Spades, rank: Rank::King };
    let three = Card { suit: Suit::Spades, rank: Rank::Three };
    assert!(moved.hand(Direction::East).holds(king));
    assert!(!moved.hand(Direction::West).holds(king));
    assert!(moved.hand(Direction::West).holds(three));
}

#[test]
fn probes_do_not_run_on_a_failing_contract() {
    assert!(probe_request(&board("3NT"), &table(8, 8)).is_none());
}

#[test]
fn one_flip_is_a_single_technique() {
    let b = board("3NT");
    let (baseline, cardplay, probes) = analyze(&b, &table(9, 9), &par(), &vec![vec![9, 9, 8, 9], vec![]]);
    let baseline = baseline.expect("complete deal");
    assert_eq!(baseline.par.as_ref().unwrap().optimum_score, 400);
    let facts = baseline.contract.expect("contract");
    assert_eq!(facts.contract, "3NT by S");
    assert_eq!((facts.dd_tricks, facts.required, facts.dd_makes, facts.slack), (9, 9, true, 0));
    assert!(!facts.declarer_seat_sensitive);
    let cp = cardplay.expect("cardplay");
    assert_eq!(cp.immediate_winners, 6);
    assert_eq!(cp.required, 9);
    assert_eq!(cp.difficulty, Some(2));
    assert_eq!(probes.len(), 2);
    assert!(probes[0].fired);
    assert_eq!(probes[0].flips.len(), 1);
    assert_eq!(probes[0].flips[0].cause, FlipCause::Finesse { suit: Suit::Spades, honor: Rank::Queen });
    assert_eq!((probes[0].flips[0].baseline, probes[0].flips[0].perturbed), (9, 8));
    assert!(!probes[1].fired);
}

#[test]
fn no_flip_with_a_small_gap_is_establishment() {
    // 1NT needs 7 tricks; the 6 immediate winners leave a gap of 1.
    let (_, cardplay, probes) = analyze(&board("1NT"), &table(9, 10), &par(), &vec![vec![9, 9, 9, 9], vec![]]);
    let cp = cardplay.unwrap();
    assert_eq!((cp.required, cp.immediate_winners), (7, 6));
    assert_eq!(cp.difficulty, Some(1));
    assert!(probes.iter().all(|p| !p.fired));
}

#[test]
fn no_flip_with_a_wide_gap_is_unclassified() {
    // 3NT needs 9 tricks; the 6 immediate winners leave a gap of 3.
    let (_, cardplay, probes) = analyze(&board("3NT"), &table(9, 10), &par(), &vec![vec![9, 9, 9, 9], vec![]]);
    assert_eq!(cardplay.unwrap().difficulty, None);
    assert!(probes.iter().all(|p| !p.fired));
}

#[test]
fn one_flip_with_a_small_gap_is_a_single_technique() {
    let (_, cardplay, _) = analyze(&board("1NT"), &table(9, 9), &par(), &vec![vec![6, 9, 9, 9], vec![]]);
    assert_eq!(cardplay.unwrap().difficulty, Some(2));
}

#[test]
fn failing_contract_has_no_level() {
    let (baseline, cardplay, probes) = analyze(&board("3NT"), &table(8, 9), &par(), &vec![]);
    let facts = baseline.unwrap().contract.unwrap();
    assert!(!facts.dd_makes);
    assert_eq!(facts.slack, -1);
    assert!(facts.declarer_seat_sensitive);
    assert_eq!(cardplay.unwrap().difficulty, None);
    assert!(probes.is_empty());
}

#[test]
fn cash_out_needs_no_probe() {
    let deal = Deal::from_pbn("N:AKQJ.AKQ.AKQ.432 7654.8765.8765.T T98.JT9.JT9.AKQJ 32.432.432.98765").unwrap();
    let b = Board::new().with_deal(deal).with_contract("1NT".to_string()).with_declarer(Direction::South);
    let t = table(13, 13);
    assert!(probe_request(&b, &t).is_none());
    let (_, cardplay, probes) = analyze(&b, &t, &par(), &vec![]);
    let cp = cardplay.unwrap();
    assert_eq!(cp.required, 7);
    assert_eq!(cp.immediate_winners, 14);
    assert_eq!(cp.difficulty, Some(0));
    assert!(probes.is_empty());
}

#[test]
fn incomplete_deal_has_no_baseline() {
    let b = Board::new().with_contract("3NT".to_string()).with_declarer(Direction::South);
    let (baseline, cardplay, probes) = analyze(&b, &table(9, 9), &par(), &vec![]);
    assert!(baseline.is_none() && cardplay.is_none() && probes.is_empty());
}

#[test]
fn tally_counts_levels_of_making_contracts() {
    let mut sum = ScanSummary::new();
    let b = board("3NT");
    let (baseline, cardplay, probes) = analyze(&b, &table(9, 9), &par(), &vec![vec![9, 9, 8, 9], vec![]]);
    let rec = deal_survey::model::DealRecord {
        hash: "h".into(),
        source: deal_survey::structural::source_for("C", "f.pbn", &b),
        structural: deal_survey::structural::structural_of(&b),
        baseline,
        cardplay,
        probes,
        versions: Versions::current(),
    };
    tally(&mut sum, &rec);
    assert_eq!((sum.baselined, sum.with_contract, sum.difficulty, sum.unclassified), (1, 1, [0, 0, 1], 0));
    assert!(is_current_baselined(&rec));
}

fn analyzed_record() -> deal_survey::model::DealRecord {
    let b = board("3NT");
    let (baseline, cardplay, probes) = analyze(&b, &table(9, 9), &par(), &vec![vec![9, 9, 8, 9], vec![]]);
    deal_survey::model::DealRecord {
        hash: "h".into(),
        source: deal_survey::structural::source_for("C", "f.pbn", &b),
        structural: deal_survey::structural::structural_of(&b),
        baseline,
        cardplay,
        probes,
        versions: Versions::current(),
    }
}

#[test]
fn scan_steps_skip_blank_deals_and_count_the_rest() {
    let mut sum = ScanSummary::new();
    assert!(!admit_board(&mut sum, &Deal::empty()));
    assert_eq!(sum.total, 0);
    assert!(admit_board(&mut sum, &Deal::from_pbn(DEAL).unwrap()));
    assert_eq!(sum.total, 1);

    // Nothing cached: the board is to be analyzed, the summary unchanged.
    assert!(!take_cached(&mut sum, &None));
    assert_eq!((sum.cached, sum.baselined), (0, 0));

    // A stale cached record is not used.
    let mut stale = analyzed_record();
    stale.versions.ladder = 0;
    assert!(!take_cached(&mut sum, &Some(stale)));
    assert_eq!((sum.cached, sum.baselined), (0, 0));

    // A current one is used and tallied.
    assert!(take_cached(&mut sum, &Some(analyzed_record())));
    assert_eq!((sum.cached, sum.baselined, sum.with_contract, sum.difficulty), (1, 1, 1, [0, 0, 1]));

    // A freshly analyzed record is tallied and counted as written.
    count_written(&mut sum, &analyzed_record());
    assert_eq!((sum.written, sum.cached, sum.baselined, sum.difficulty), (1, 1, 2, [0, 0, 2]));
    assert_eq!(sum.total, 1);
}

#[test]
fn scan_steps_keep_the_summary_consistent() {
    let mut sum = ScanSummary::new();
    let deal = Deal::from_pbn(DEAL).unwrap();
    // First board: nothing cached, analyzed and written.
    assert!(admit_board(&mut sum, &deal));
    assert!(!take_cached(&mut sum, &None));
    count_written(&mut sum, &analyzed_record());
    // Second board: a current record is cached.
    assert!(admit_board(&mut sum, &deal));
    assert!(take_cached(&mut sum, &Some(analyzed_record())));
    // A blank board is skipped.
    assert!(!admit_board(&mut sum, &Deal::empty()));
    assert_eq!(sum.total, sum.written + sum.cached);
    assert_eq!((sum.total, sum.written, sum.cached), (2, 1, 1));
    assert!(sum.with_contract <= sum.baselined && sum.baselined <= sum.total);
    assert!(sum.difficulty.iter().sum::<usize>() + sum.unclassified <= sum.with_contract);
}
