use deal_survey::model::{
    AuctionInfo, Baseline, Cardplay, Commentary, ContractFacts, ContractProvenance, DdTable,
    DealRecord, ProbeRecord, Source, StructuralInfo, Versions,
};
use deal_survey::profile::{build, CollectionProfile, Editorial};
use deal_survey::report::{is_printable, is_truncatable, lesson_label_text, report, truncate, ReportError};
use deal_survey::sorted_map::CountMap;
use deal_survey::topics::{Baseline as TopicBaseline, TopicRule, Topics};
use std::collections::BTreeMap;

fn rec(collection: &str, difficulty: Option<u8>, dd_makes: bool, fired: &[&str], contract: &str, file: &str, category: &str, bids: u8) -> DealRecord {
    DealRecord {
        hash: "h".into(),
        source: Source { collection: collection.into(), file: file.into(), board: Some(1), category: category.into() },
        structural: StructuralInfo {
            contract: Some(contract.split_whitespace().next().unwrap().to_string()),
            contract_provenance: ContractProvenance::Explicit,
            auction: AuctionInfo { present: bids > 0, bids, contested: bids > 5, doubles: if bids > 6 { 1 } else { 0 }, double_of_final: false, high_bids: 0 },
            play: false,
            commentary: Commentary { present: true, style: Some("inline".into()) },
            custom_tags: vec![],
        },
        baseline: Some(Baseline {
            dd_table: DdTable { tricks: [[0; 5]; 4] },
            par: None,
            contract: Some(ContractFacts {
                contract: contract.into(),
                provenance: ContractProvenance::Explicit,
                dd_tricks: if dd_makes { 10 } else { 8 },
                required: 10,
                dd_makes,
                slack: 0,
                declarer_seat_sensitive: false,
            }),
        }),
        cardplay: Some(Cardplay { immediate_winners: 5, required: 10, difficulty }),
        probes: fired.iter().map(|n| ProbeRecord { name: n.to_string(), fired: true, flips: vec![] }).collect(),
        versions: Versions::current(),
    }
}

fn topics() -> Topics {
    Topics {
        defaults: TopicBaseline { bidding: 1, cardplay: 1 },
        topics: vec![
            TopicRule { name: "Finesse".into(), matches: vec!["finesse".into()], bidding: 1, cardplay: 2 },
            TopicRule { name: "Squeeze".into(), matches: vec!["squeeze".into()], bidding: 2, cardplay: 4 },
        ],
    }
}

fn baker() -> CollectionProfile {
    let t = topics();
    build(
        vec![
            rec("Baker", Some(2), true, &["finesse"], "4H by S", "Cardplay/Baker Bridge Finesse practice deals.pbn", "Cardplay", 4),
            rec("Baker", Some(1), true, &[], "3NT by N", "Cardplay/Baker Bridge Finesse practice deals.pbn", "Cardplay", 7),
            rec("Baker", Some(0), true, &["ruff"], "2S by E", "Cardplay/Squeeze intro.pbn", "Cardplay", 3),
            rec("Baker", None, false, &[], "6S by S", "Bidding/Stayman.pbn", "Bidding", 6),
            rec("Baker", Some(1), true, &[], "1NT by W", "Bidding/Stayman.pbn", "Bidding", 0),
        ],
        Some(Editorial {
            licensing: Some("CC BY".into()),
            intended_audience: None,
            commentary_quality: Some("good <mostly>".into()),
            notes: Some("a & b".into()),
        }),
        Some(&t),
    )
}

fn short() -> CollectionProfile {
    build(
        vec![
            rec("An extremely long collection name for the table", Some(0), true, &[], "3NT by N", "x/thinking-bridge-entries.pbn", "", 2),
        ],
        None,
        None,
    )
}

fn counts(m: &CountMap) -> BTreeMap<String, usize> {
    m.entries.iter().cloned().collect()
}

// --- an independent rendering of the report, with floats ----------------------

fn pct(n: usize, d: usize) -> String {
    if d == 0 {
        "  -".to_string()
    } else {
        format!("{:3.0}%", 100.0 * n as f64 / d as f64)
    }
}

fn mean(sum: usize, n: usize) -> String {
    if n > 0 {
        format!("{:.1}", sum as f64 / n as f64)
    } else {
        "  -".to_string()
    }
}

fn cut(s: &str, n: usize) -> String {
    if s.len() <= n {
        s.to_string()
    } else {
        format!("{}…", &s[..n - 1])
    }
}

fn label(path: &str) -> String {
    let base = path.rsplit('/').next().unwrap_or(path);
    let base = base.strip_suffix(".pbn").unwrap_or(base);
    let base = base.strip_prefix("Baker Bridge ").or_else(|| base.strip_prefix("thinking-bridge-")).unwrap_or(base);
    base.strip_suffix(" practice deals").unwrap_or(base).to_string()
}

fn dist(out: &mut String, label: &str, map: &BTreeMap<String, usize>) {
    if map.is_empty() {
        return;
    }
    let parts: Vec<String> = map.iter().map(|(k, v)| format!("{k}:{v}")).collect();
    out.push_str(&format!("{label}: {}\n", parts.join("  ")));
}

fn expected(ps: &[&CollectionProfile]) -> String {
    let mut o = String::new();
    o.push_str(&format!(
        "{:<24} {:>6} {:>5} | {:>5} {:>5} {:>5} {:>5} | {:>5} {:>5} {:>5} | {:>5} {:>5}\n",
        "collection", "deals", "mkbl", "L0", "L1", "L2", "uncl", "auc", "cmt", "xcon", "fin", "ruff"
    ));
    o.push_str(&format!("{}\n", "-".repeat(100)));
    for p in ps {
        let d = &p.difficulty;
        let mk = d.cash_out_0 + d.establish_1 + d.technique_2 + d.unclassified;
        let t = counts(&p.techniques);
        o.push_str(&format!(
            "{:<24} {:>6} {:>5} | {:>5} {:>5} {:>5} {:>5} | {:>5} {:>5} {:>5} | {:>5} {:>5}\n",
            cut(&p.collection, 24),
            p.deal_count,
            pct(mk, p.deal_count),
            pct(d.cash_out_0, mk),
            pct(d.establish_1, mk),
            pct(d.technique_2, mk),
            pct(d.unclassified, mk),
            pct(p.structural.with_auction, p.deal_count),
            pct(p.structural.with_commentary, p.deal_count),
            pct(p.structural.with_explicit_contract, p.deal_count),
            t.get("finesse").copied().unwrap_or(0),
            t.get("ruff").copied().unwrap_or(0),
        ));
    }
    o.push_str("\nL0 cash-out · L1 establish · L2 single-technique · uncl unclassified (% of makeable)\nauc/cmt/xcon = % of deals with auction / commentary / explicit contract\n");
    for p in ps {
        o.push_str(&format!("\n=== {} ({} deals) ===\n", p.collection, p.deal_count));
        let d = &p.difficulty;
        if d.not_makeable + d.no_contract + d.incomplete > 0 {
            o.push_str(&format!(
                "  excluded from ladder: not-makeable {}  no-contract {}  incomplete {}\n",
                d.not_makeable, d.no_contract, d.incomplete
            ));
        }
        let a = &p.auction;
        if a.with_auction > 0 {
            let n = a.with_auction;
            o.push_str(&format!(
                "  auction : {:.1} bids avg  ·  contested {}  ·  doubles {} ({} deals, {} final-dbl)  ·  high-bids {} ({} deals)\n",
                a.total_bids as f64 / n as f64,
                pct(a.contested, n),
                a.total_doubles,
                a.with_doubles,
                a.double_of_final,
                a.total_high_bids,
                a.with_high_bids,
            ));
        }
        dist(&mut o, "  strain ", &counts(&p.contract_mix.by_strain));
        dist(&mut o, "  level  ", &counts(&p.contract_mix.by_level));
        dist(&mut o, "  declarer", &counts(&p.contract_mix.by_declarer));
        dist(&mut o, "  fired  ", &counts(&p.techniques));
        if let Some(topics) = &p.by_topic {
            o.push_str("  topics (baseline prior vs observed, + combined difficulty):\n");
            o.push_str(&format!(
                "    {:<28} {:>5} {:>9} | {:>4} {:>4} {:>4} {:>5} | {:>7} {:>7}\n",
                "topic", "deals", "base b/cp", "L0", "L1", "L2", "n-mk", "comb-bid", "comb-cp"
            ));
            for (name, t) in &topics.entries {
                o.push_str(&format!(
                    "    {:<28} {:>5} {:>4}/{:<4} | {:>4} {:>4} {:>4} {:>5} | {:>7} {:>7}\n",
                    cut(name, 28),
                    t.deal_count,
                    t.baseline_bidding,
                    t.baseline_cardplay,
                    t.observed_cardplay[0],
                    t.observed_cardplay[1],
                    t.observed_cardplay[2],
                    t.not_makeable,
                    mean(t.combined_bidding_sum, t.combined_bidding_n),
                    mean(t.combined_cardplay_sum, t.combined_cardplay_n),
                ));
            }
            o.push_str("    (base b/cp = authored bidding/cardplay baseline; comb = baseline ± observed level, mean)\n");
        }
        if !p.by_lesson.entries.is_empty() {
            o.push_str("  lessons by category (navigation order):\n");
            o.push_str(&format!(
                "    {:<34} {:>5} | {:>4} {:>4} {:>4} {:>5} | {:>7} {:>7}  {}\n",
                "lesson", "deals", "L0", "L1", "L2", "n-mk", "comb-cp", "comb-bid", "topic"
            ));
            for (cat, roll) in &p.by_category.entries {
                o.push_str(&format!(
                    "  ▸ {}  ({} deals, cp {}, bid {})\n",
                    cat,
                    roll.deal_count,
                    mean(roll.combined_cardplay_sum, roll.combined_cardplay_n),
                    mean(roll.combined_bidding_sum, roll.combined_bidding_n),
                ));
                for (lesson, t) in p.by_lesson.entries.iter().filter(|(_, t)| &t.category == cat) {
                    o.push_str(&format!(
                        "    {:<34} {:>5} | {:>4} {:>4} {:>4} {:>5} | {:>7} {:>7}  {}\n",
                        cut(&label(lesson), 34),
                        t.deal_count,
                        t.observed_cardplay[0],
                        t.observed_cardplay[1],
                        t.observed_cardplay[2],
                        t.not_makeable,
                        mean(t.combined_cardplay_sum, t.combined_cardplay_n),
                        mean(t.combined_bidding_sum, t.combined_bidding_n),
                        t.topic,
                    ));
                }
            }
        }
        if let Some(ed) = &p.editorial {
            o.push_str("  editorial:\n");
            for (k, v) in [
                ("licensing", &ed.licensing),
                ("audience", &ed.intended_audience),
                ("commentary", &ed.commentary_quality),
                ("notes", &ed.notes),
            ] {
                if let Some(v) = v {
                    o.push_str(&format!("    {k}: {v}\n"));
                }
            }
        }
    }
    o
}

#[test]
fn report_of_one_collection_matches_float_rendering() {
    let p = baker();
    assert!(is_printable(&p));
    let want = expected(&[&p]);
    let got = report(&vec![baker()]).unwrap();
    assert_eq!(got, want);
    assert!(got.contains("  ▸ Cardplay  (3 deals"));
    assert!(got.contains("  editorial:\n    licensing: CC BY\n    commentary: good <mostly>\n    notes: a & b\n"));
}

#[test]
fn report_orders_collections_by_name() {
    let a = baker();
    let b = short();
    let want = expected(&[&b, &a]);
    let got = report(&vec![baker(), short()]).unwrap();
    assert_eq!(got, want);
    assert!(got.contains("An extremely long colle… "));
}

#[test]
fn report_without_profiles_is_an_error() {
    assert!(matches!(report(&vec![]), Err(ReportError::NoProfiles)));
}

#[test]
fn truncation_counts_bytes() {
    assert_eq!(truncate("short", 24), "short");
    assert_eq!(truncate("abcdef", 4), "abc…");
    assert_eq!(truncate("ééé", 5), "éé…");
    assert!(!is_truncatable("éééé", 4));
    assert!(is_truncatable("éééé", 8));
    assert!(is_truncatable("ééé", 5));
}

#[test]
fn lesson_labels() {
    assert_eq!(lesson_label_text(&"x/Baker Bridge Finesse practice deals.pbn".to_string()), "Finesse");
    assert_eq!(lesson_label_text(&"Cardplay\u{0}Baker Bridge Finesse practice deals.pbn".to_string()), "Cardplay\u{0}Baker Bridge Finesse");
    assert_eq!(lesson_label_text(&"a/thinking-bridge-entries.pbn".to_string()), "entries");
    assert_eq!(lesson_label_text(&"Cat\u{0}Stayman".to_string()), "Cat\u{0}Stayman");
}

#[test]
fn truncation_to_zero_bytes_keeps_only_the_empty_text() {
    assert_eq!(truncate("", 0), "");
    assert!(is_truncatable("", 0));
    assert!(!is_truncatable("a", 0));
}
