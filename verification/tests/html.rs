use deal_survey::html::{html_report, render, totals_fit_check};
use deal_survey::report::ReportError;
use deal_survey::model::{
    AuctionInfo, Baseline, Cardplay, Commentary, ContractFacts, ContractProvenance, DdTable,
    DealRecord, ProbeRecord, Source, StructuralInfo, Versions,
};
use deal_survey::profile::{build, CollectionProfile, Editorial, TopicStats};
use deal_survey::sorted_map::CountMap;
use deal_survey::topics::{Baseline as TopicBaseline, TopicRule, Topics};
use std::collections::BTreeMap;

fn rec(collection: &str, difficulty: Option<u8>, dd_makes: bool, fired: &[&str], contract: &str, file: &str, category: &str, bids: u8) -> DealRecord {
    DealRecord {
        hash: "h".into(),
        source: Source { collection: collection.into(), file: file.into(), board: Some(1), category: category.into() },
        structural: StructuralInfo {
            contract: Some(contract.split_whitespace().next().unwrap().to_string()),
            contract_provenance: ContractProvenance::Explicit,
            auction: AuctionInfo { present: bids > 0, bids, contested: bids > 5, doubles: if bids > 6 { 1 } else { 0 }, double_of_final: bids > 7, high_bids: if bids > 6 { 1 } else { 0 } },
            play: false,
            commentary: Commentary { present: bids % 2 == 0, style: None },
            custom_tags: vec![],
        },
        baseline: Some(Baseline {
            dd_table: DdTable { tricks: [[0; 5]; 4] },
            par: None,
            contract: Some(ContractFacts {
                contract: contract.into(),
                provenance: ContractProvenance::Explicit,
                dd_tricks: if dd_makes { 10 } else { 8 },
                required: 10,
                dd_makes,
                slack: 0,
                declarer_seat_sensitive: false,
            }),
        }),
        cardplay: Some(Cardplay { immediate_winners: 5, required: 10, difficulty }),
        probes: fired.iter().map(|n| ProbeRecord { name: n.to_string(), fired: true, flips: vec![] }).collect(),
        versions: Versions::current(),
    }
}

fn profile(name: &str, with_topics: bool) -> CollectionProfile {
    let t = Topics {
        defaults: TopicBaseline { bidding: 1, cardplay: 1 },
        topics: vec![
            TopicRule { name: "Finesse".into(), matches: vec!["finesse".into()], bidding: 1, cardplay: 2 },
            TopicRule { name: "Squeeze & <co>".into(), matches: vec!["squeeze".into()], bidding: 2, cardplay: 4 },
        ],
    };
    build(
        vec![
            rec(name, Some(2), true, &["finesse"], "4H by S", "Cardplay/Finesse basics.pbn", "Cardplay", 4),
            rec(name, Some(1), true, &[], "3NT by N", "Cardplay/Finesse basics.pbn", "Cardplay", 8),
            rec(name, Some(0), true, &["ruff"], "2S by E", "Cardplay/Squeeze intro.pbn", "Cardplay", 3),
            rec(name, Some(2), true, &["finesse", "ruff"], "5C by W", "Cardplay/Squeeze intro.pbn", "Cardplay", 7),
            rec(name, None, false, &[], "6S by S", "Bidding/Stayman.pbn", "Bidding", 6),
            rec(name, Some(1), true, &[], "1NT by W", "Bidding/Stayman.pbn", "Bidding", 0),
            rec(name, Some(0), true, &[], "2H by N", "Bidding/Transfers.pbn", "Bidding", 2),
        ],
        Some(Editorial { licensing: Some("CC \"BY\"".into()), intended_audience: Some("club".into()), commentary_quality: None, notes: None }),
        if with_topics { Some(&t) } else { None },
    )
}

// --- an independent rendering of the page, with floats ------------------------

fn esc(s: &str) -> String {
    s.replace('&', "&amp;").replace('<', "&lt;").replace('>', "&gt;").replace('"', "&quot;")
}

fn counts(m: &CountMap) -> BTreeMap<String, usize> {
    m.entries.iter().cloned().collect()
}

fn pct_str(n: usize, d: usize) -> String {
    if d == 0 { "–".to_string() } else { format!("{:.0}%", 100.0 * n as f64 / d as f64) }
}

fn cmean(sum: usize, n: usize) -> f64 {
    if n > 0 { sum as f64 / n as f64 } else { -1.0 }
}

fn heat(v: f64) -> String {
    let t = (v / 5.0).clamp(0.0, 1.0);
    let hue = 140.0 * (1.0 - t);
    format!("background:hsl({hue:.0} 62% 42%);color:#fff")
}

fn cell_int(h: &mut String, n: usize) {
    h.push_str(&format!("<td class=\"num\">{n}</td>"));
}

fn cell_pct(h: &mut String, n: usize, d: usize) {
    h.push_str(&format!("<td class=\"num\">{}</td>", pct_str(n, d)));
}

fn cell_base(h: &mut String, v: u8) {
    h.push_str(&format!("<td class=\"num heat\" style=\"{}\">{v}</td>", heat(v as f64)));
}

fn cell_comb(h: &mut String, sum: usize, n: usize) {
    if n == 0 {
        h.push_str("<td class=\"num\">–</td>");
    } else {
        let m = sum as f64 / n as f64;
        h.push_str(&format!("<td class=\"num heat\" style=\"{}\">{m:.1}</td>", heat(m)));
    }
}

fn stats(h: &mut String, t: &TopicStats) {
    cell_int(h, t.deal_count);
    cell_base(h, t.baseline_bidding);
    cell_base(h, t.baseline_cardplay);
    cell_int(h, t.observed_cardplay[0]);
    cell_int(h, t.observed_cardplay[1]);
    cell_int(h, t.observed_cardplay[2]);
    cell_int(h, t.not_makeable);
    cell_comb(h, t.combined_cardplay_sum, t.combined_cardplay_n);
    cell_comb(h, t.combined_bidding_sum, t.combined_bidding_n);
}

fn dist_line(h: &mut String, label: &str, map: &BTreeMap<String, usize>) {
    if map.is_empty() {
        return;
    }
    let parts: Vec<String> = map.iter().map(|(k, v)| format!("{}:{}", esc(k), v)).collect();
    h.push_str(&format!("<p class=\"dist\"><strong>{}</strong> {}</p>\n", esc(label), parts.join("  ")));
}

fn page_label(path: &str) -> String {
    let base = path.rsplit('/').next().unwrap_or(path);
    base.strip_suffix(".pbn").unwrap_or(base).to_string()
}

fn heads(h: &mut String, cols: &[&str]) {
    h.push_str("<table class=\"grid\">\n<thead><tr>");
    for c in cols {
        h.push_str(&format!("<th>{}</th>", esc(c)));
    }
    h.push_str("</tr></thead>\n<tbody>\n");
}

fn expected_body(ps: &[&CollectionProfile]) -> String {
    let mut h = String::new();
    h.push_str("<h2>Collections</h2>\n");
    h.push_str("<p class=\"note\">The two coloured columns are the overall combined difficulty (mean over the collection), green → red.</p>\n");
    heads(&mut h, &["collection", "deals", "cardplay", "bidding", "makeable", "L0", "L1", "L2", "uncl", "auction", "commentary", "expl. contract", "finesse", "ruff"]);
    for p in ps {
        let d = &p.difficulty;
        let mk = d.cash_out_0 + d.establish_1 + d.technique_2 + d.unclassified;
        let (cs, cn) = p.by_lesson.entries.iter().fold((0, 0), |(s, n), (_, t)| (s + t.combined_cardplay_sum, n + t.combined_cardplay_n));
        let (bs, bn) = p.by_lesson.entries.iter().fold((0, 0), |(s, n), (_, t)| (s + t.combined_bidding_sum, n + t.combined_bidding_n));
        h.push_str(&format!("<tr><td class=\"name\">{}</td>", esc(&p.collection)));
        cell_int(&mut h, p.deal_count);
        cell_comb(&mut h, cs, cn);
        cell_comb(&mut h, bs, bn);
        cell_pct(&mut h, mk, p.deal_count);
        cell_pct(&mut h, d.cash_out_0, mk);
        cell_pct(&mut h, d.establish_1, mk);
        cell_pct(&mut h, d.technique_2, mk);
        cell_pct(&mut h, d.unclassified, mk);
        cell_pct(&mut h, p.structural.with_auction, p.deal_count);
        cell_pct(&mut h, p.structural.with_commentary, p.deal_count);
        cell_pct(&mut h, p.structural.with_explicit_contract, p.deal_count);
        let t = counts(&p.techniques);
        cell_int(&mut h, *t.get("finesse").unwrap_or(&0));
        cell_int(&mut h, *t.get("ruff").unwrap_or(&0));
        h.push_str("</tr>\n");
    }
    h.push_str("</tbody>\n</table>\n");
    for p in ps {
        h.push_str(&format!("<h2>{} <span class=\"sub\">({} deals)</span></h2>\n", esc(&p.collection), p.deal_count));
        let d = &p.difficulty;
        let a = &p.auction;
        h.push_str(&format!(
            "<p class=\"stats\">excluded from ladder: not-makeable {}, no-contract {}, incomplete {}. ",
            d.not_makeable, d.no_contract, d.incomplete
        ));
        if a.with_auction > 0 {
            h.push_str(&format!(
                "auction: {:.1} bids avg, {} contested, {} doubles ({} final-dbl), {} high-bid deals.",
                a.total_bids as f64 / a.with_auction as f64,
                pct_str(a.contested, a.with_auction),
                a.total_doubles,
                a.double_of_final,
                a.with_high_bids
            ));
        }
        h.push_str("</p>\n");
        dist_line(&mut h, "Strain", &counts(&p.contract_mix.by_strain));
        dist_line(&mut h, "Level", &counts(&p.contract_mix.by_level));
        dist_line(&mut h, "Declarer", &counts(&p.contract_mix.by_declarer));
        if let Some(ed) = &p.editorial {
            h.push_str("<p class=\"editorial\">");
            for (k, v) in [("Licensing", &ed.licensing), ("Audience", &ed.intended_audience), ("Commentary", &ed.commentary_quality), ("Notes", &ed.notes)] {
                if let Some(v) = v {
                    h.push_str(&format!("<strong>{}:</strong> {} ", esc(k), esc(v)));
                }
            }
            h.push_str("</p>\n");
        }
        if let Some(topics) = &p.by_topic {
            h.push_str("<h3>By topic</h3>\n");
            let mut rows: Vec<&(String, TopicStats)> = topics.entries.iter().collect();
            rows.sort_by(|x, y| {
                cmean(y.1.combined_cardplay_sum, y.1.combined_cardplay_n)
                    .partial_cmp(&cmean(x.1.combined_cardplay_sum, x.1.combined_cardplay_n))
                    .unwrap()
                    .then(cmean(y.1.combined_bidding_sum, y.1.combined_bidding_n).partial_cmp(&cmean(x.1.combined_bidding_sum, x.1.combined_bidding_n)).unwrap())
                    .then(y.1.deal_count.cmp(&x.1.deal_count))
            });
            heads(&mut h, &["topic", "deals", "base b", "base cp", "L0", "L1", "L2", "n-mk", "comb-cp", "comb-bid"]);
            for (key, t) in rows {
                h.push_str(&format!("<tr><td class=\"name\">{}</td>", esc(key)));
                stats(&mut h, t);
                h.push_str("</tr>\n");
            }
            h.push_str("</tbody>\n</table>\n");
        }
        h.push_str("<h3>By lesson <span class=\"sub\">(grouped by category, hardest first)</span></h3>\n");
        if !p.by_lesson.entries.is_empty() {
            heads(&mut h, &["lesson", "deals", "base b", "base cp", "L0", "L1", "L2", "n-mk", "comb-cp", "comb-bid", "topic"]);
            let mut cats: Vec<&(String, TopicStats)> = p.by_category.entries.iter().collect();
            cats.sort_by(|a, b| cmean(b.1.combined_cardplay_sum, b.1.combined_cardplay_n).partial_cmp(&cmean(a.1.combined_cardplay_sum, a.1.combined_cardplay_n)).unwrap());
            for (cat, roll) in cats {
                h.push_str(&format!(
                    "<tr class=\"cat\"><td class=\"catname\" colspan=\"8\">{} <span class=\"sub\">({} deals)</span></td>",
                    esc(cat),
                    roll.deal_count
                ));
                cell_comb(&mut h, roll.combined_cardplay_sum, roll.combined_cardplay_n);
                cell_comb(&mut h, roll.combined_bidding_sum, roll.combined_bidding_n);
                h.push_str("<td></td></tr>\n");
                let mut rows: Vec<&(String, TopicStats)> = p.by_lesson.entries.iter().filter(|(_, t)| &t.category == cat).collect();
                rows.sort_by(|a, b| {
                    cmean(b.1.combined_cardplay_sum, b.1.combined_cardplay_n)
                        .partial_cmp(&cmean(a.1.combined_cardplay_sum, a.1.combined_cardplay_n))
                        .unwrap()
                        .then(b.1.deal_count.cmp(&a.1.deal_count))
                });
                for (lesson, t) in rows {
                    h.push_str(&format!("<tr><td class=\"name indent\">{}</td>", esc(&page_label(lesson))));
                    stats(&mut h, t);
                    h.push_str(&format!("<td class=\"topic\">{}</td>", esc(&t.topic)));
                    h.push_str("</tr>\n");
                }
            }
            h.push_str("</tbody>\n</table>\n");
        }
    }
    h.push_str("</main>\n</body>\n</html>\n");
    h
}

#[test]
fn page_matches_float_rendering() {
    let a = profile("Alpha <&> \"one\"", true);
    let b = profile("Beta", false);
    assert!(totals_fit_check(&a) && totals_fit_check(&b));
    let page = render(&vec![profile("Alpha <&> \"one\"", true), profile("Beta", false)]);
    let body = expected_body(&[&a, &b]);
    assert!(page.starts_with("<!doctype html>\n<html lang=\"en\">\n<head>\n"));
    assert!(page.ends_with(&body), "page body differs:\n{page}\n---\n{body}");
    assert!(page.contains("<style>\n:root{"));
    assert!(page.contains("<h1>Lesson-collection difficulty report</h1>\n"));
    assert!(page.contains("Alpha &lt;&amp;&gt; &quot;one&quot;"));
    assert!(page.contains("Squeeze &amp; &lt;co&gt;"));
}

#[test]
fn page_without_collections_is_just_the_frame() {
    let page = render(&vec![]);
    assert!(page.contains("<tbody>\n</tbody>\n</table>\n</main>\n</body>\n</html>\n"));
}

#[test]
fn html_report_orders_collections_by_name() {
    let page = html_report(&vec![profile("Zeta", false), profile("Alpha", true)]).unwrap();
    let a = profile("Alpha", true);
    let z = profile("Zeta", false);
    assert!(page.ends_with(&expected_body(&[&a, &z])));
    assert!(matches!(html_report(&vec![]), Err(ReportError::NoProfiles)));
}

#[test]
fn one_h2_heading_per_collection_plus_the_summary() {
    let page = render(&vec![profile("Alpha <h2> one", true), profile("Beta", false), profile("Gamma", true)]);
    assert_eq!(page.matches("<h2>").count(), 4);
    let first = page.find("<h2>Alpha &lt;h2&gt; one ").unwrap();
    let second = page.find("<h2>Beta ").unwrap();
    let third = page.find("<h2>Gamma ").unwrap();
    assert!(page.find("<h2>Collections</h2>").unwrap() < first && first < second && second < third);
    assert_eq!(render(&vec![]).matches("<h2>").count(), 1);
}
