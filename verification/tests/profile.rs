use deal_survey::model::{
    AuctionInfo, Baseline, Cardplay, Commentary, ContractFacts, ContractProvenance, DdTable,
    DealRecord, ProbeRecord, Source, StructuralInfo, Versions,
};
use deal_survey::profile::{auction_complexity_level, build, parse_contract, sanitize, strain_label};
use deal_survey::topics::{Baseline as TopicBaseline, TopicRule, Topics};
use deal_survey::cards::Strain;

fn rec(difficulty: Option<u8>, dd_makes: bool, fired: &[&str], contract: &str) -> DealRecord {
    rec_in(difficulty, dd_makes, fired, contract, "f.pbn", "cat")
}

fn rec_in(difficulty: Option<u8>, dd_makes: bool, fired: &[&str], contract: &str, file: &str, category: &str) -> DealRecord {
    DealRecord {
        hash: "h".into(),
        source: Source { collection: "Test".into(), file: file.into(), board: Some(1), category: category.into() },
        structural: StructuralInfo {
            contract: Some(contract.split_whitespace().next().unwrap().to_string()),
            contract_provenance: ContractProvenance::Explicit,
            auction: AuctionInfo {
                present: true,
                bids: 4,
                contested: false,
                doubles: 0,
                double_of_final: false,
                high_bids: 0,
            },
            play: false,
            commentary: Commentary { present: true, style: Some("inline".into()) },
            custom_tags: vec!["SkillPath".into()],
        },
        baseline: Some(Baseline {
            dd_table: DdTable { tricks: [[0; 5]; 4] },
            par: None,
            contract: Some(ContractFacts {
                contract: contract.into(),
                provenance: ContractProvenance::Explicit,
                dd_tricks: if dd_makes { 10 } else { 8 },
                required: 10,
                dd_makes,
                slack: 0,
                declarer_seat_sensitive: false,
            }),
        }),
        cardplay: Some(Cardplay { immediate_winners: 5, required: 10, difficulty }),
        probes: fired
            .iter()
            .map(|n| ProbeRecord { name: n.to_string(), fired: true, flips: vec![] })
            .collect(),
        versions: Versions::current(),
    }
}

fn count(m: &deal_survey::sorted_map::CountMap, k: &str) -> usize {
    m.get(&k.to_string())
}

#[test]
fn aggregates_histogram_mix_and_techniques() {
    let p = build(
        vec![
            rec(Some(0), true, &[], "3NT by N"),
            rec(Some(2), true, &["finesse"], "4H by S"),
            rec(None, false, &[], "6S by S"), // not makeable
        ],
        None,
        None,
    );
    assert_eq!(p.deal_count, 3);
    assert_eq!(p.difficulty.cash_out_0, 1);
    assert_eq!(p.difficulty.technique_2, 1);
    assert_eq!(p.difficulty.not_makeable, 1);
    assert_eq!(count(&p.techniques, "finesse"), 1);
    assert_eq!(p.structural.with_auction, 3);
    assert_eq!(count(&p.contract_mix.by_strain, "NT"), 1);
    assert_eq!(count(&p.contract_mix.by_strain, "H"), 1);
    assert_eq!(count(&p.contract_mix.by_declarer, "S"), 2);
}

#[test]
fn histogram_buckets_cover_every_deal() {
    let mut r4 = rec(Some(1), true, &[], "2C by E");
    r4.baseline = None;
    let mut r5 = rec(Some(1), true, &[], "2C by E");
    r5.baseline.as_mut().unwrap().contract = None;
    let p = build(
        vec![
            rec(Some(0), true, &[], "3NT by N"),
            rec(Some(1), true, &[], "1C by W"),
            rec(None, true, &["finesse", "ruff"], "4S by S"),
            r4,
            r5,
        ],
        None,
        None,
    );
    let d = &p.difficulty;
    assert_eq!((d.cash_out_0, d.establish_1, d.technique_2, d.unclassified, d.not_makeable, d.no_contract, d.incomplete), (1, 1, 0, 1, 0, 1, 1));
    assert_eq!(d.cash_out_0 + d.establish_1 + d.technique_2 + d.unclassified + d.not_makeable + d.no_contract + d.incomplete, p.deal_count);
    assert_eq!(count(&p.techniques, "ruff"), 1);
    assert_eq!(count(&p.contract_mix.by_level, "3"), 1);
    assert_eq!(count(&p.contract_mix.by_level, "4"), 1);
    assert_eq!(count(&p.structural.custom_tags, "SkillPath"), 5);
    assert_eq!(p.collection, "Test");
}

#[test]
fn breakdowns_by_lesson_and_category() {
    let topics = Topics {
        defaults: TopicBaseline { bidding: 1, cardplay: 1 },
        topics: vec![TopicRule { name: "Finesse".into(), matches: vec!["finesse".into()], bidding: 1, cardplay: 2 }],
    };
    let p = build(
        vec![
            rec_in(Some(2), true, &["finesse"], "4H by S", "Cardplay/Finesse 1-6.pbn", "Cardplay"),
            rec_in(Some(1), true, &[], "3NT by N", "Cardplay/Finesse 7-12.pbn", "Cardplay"),
            rec_in(Some(0), true, &[], "3NT by N", "Bidding/Stayman.pbn", ""),
        ],
        None,
        Some(&topics),
    );
    // Two lessons: the finesse slices roll up into one.
    assert_eq!(p.by_lesson.entries.len(), 2);
    let (k0, s0) = &p.by_lesson.entries[0];
    assert_eq!(k0, "(uncategorized)\u{0}Stayman");
    assert_eq!(s0.deal_count, 1);
    assert_eq!(s0.topic, "(unmatched)");
    let (k1, s1) = &p.by_lesson.entries[1];
    assert_eq!(k1, "Cardplay\u{0}Finesse");
    assert_eq!(s1.deal_count, 2);
    assert_eq!(s1.topic, "Finesse");
    assert_eq!(s1.category, "Cardplay");
    assert_eq!(s1.lesson, "Finesse");
    assert_eq!(s1.observed_cardplay, [0, 1, 1]);
    // combined cardplay: max(0, 2 + 2 - 1) + max(0, 2 + 1 - 1) = 3 + 2.
    assert_eq!((s1.combined_cardplay_sum, s1.combined_cardplay_n), (5, 2));
    // bidding: 4 bids, no signals → level 1 → max(0, 1 + 1 - 1) = 1 each.
    assert_eq!((s1.combined_bidding_sum, s1.combined_bidding_n), (2, 2));
    assert_eq!(p.by_category.entries.len(), 2);
    let total: usize = p.by_category.entries.iter().map(|(_, s)| s.deal_count).sum();
    assert_eq!(total, 3);
    let by_topic = p.by_topic.as_ref().unwrap();
    assert_eq!(by_topic.entries.len(), 2);
    assert_eq!(by_topic.entries[0].0, "(unmatched)");
    assert_eq!(by_topic.entries[1].0, "Finesse");
}

#[test]
fn auction_levels() {
    let mut a = AuctionInfo { present: true, bids: 2, contested: false, doubles: 0, double_of_final: false, high_bids: 0 };
    assert_eq!(auction_complexity_level(&a), 0);
    a.bids = 4;
    assert_eq!(auction_complexity_level(&a), 1);
    a.contested = true;
    a.doubles = 1;
    assert_eq!(auction_complexity_level(&a), 2);
}

#[test]
fn contract_display_parsing() {
    assert_eq!(parse_contract("4H by S"), Some((4, "H".to_string(), 'S')));
    assert_eq!(parse_contract("3NTX by E"), Some((3, "NT".to_string(), 'E')));
    assert_eq!(parse_contract("3NT"), None);
    assert_eq!(parse_contract("3NT by "), None);
    assert_eq!(parse_contract("9Z by S"), None);
    assert_eq!(strain_label(Strain::Diamonds), "D");
}

#[test]
fn sanitized_file_names() {
    assert_eq!(sanitize("Baker Bridge (v2)"), "Baker-Bridge--v2-");
    assert_eq!(sanitize("a_b-c"), "a_b-c");
}

#[test]
fn custom_tags_count_deals_not_occurrences() {
    let mut twice = rec(Some(0), true, &[], "3NT by N");
    twice.structural.custom_tags = vec!["SkillPath".into(), "Difficulty".into(), "SkillPath".into()];
    let p = build(vec![twice, rec(Some(1), true, &[], "1C by W")], None, None);
    assert_eq!(count(&p.structural.custom_tags, "SkillPath"), 2);
    assert_eq!(count(&p.structural.custom_tags, "Difficulty"), 1);
}
