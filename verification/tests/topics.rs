use deal_survey::topics::{Baseline, TopicRule, Topics};

fn table() -> Topics {
    // [defaults] bidding = 1, cardplay = 1; topics "Finesse" (1/2), "Squeeze" (1/4).
    Topics {
        defaults: Baseline { bidding: 1, cardplay: 1 },
        topics: vec![
            TopicRule { name: "Finesse".to_string(), matches: vec!["Finesse".to_string()], bidding: 1, cardplay: 2 },
            TopicRule { name: "Squeeze".to_string(), matches: vec!["Squeeze".to_string()], bidding: 1, cardplay: 4 },
        ],
    }
}

#[test]
fn resolves_first_match_case_insensitively() {
    let t = table();

    let (name, base) = t.resolve("Baker/finesse.pbn");
    assert_eq!(name, "Finesse");
    assert_eq!(base.cardplay, 2);

    let (name, base) = t.resolve("Advanced/Squeeze practice deals.pbn");
    assert_eq!(name, "Squeeze");
    assert_eq!(base.cardplay, 4);

    let (name, base) = t.resolve("Stayman.pbn");
    assert_eq!(name, "(unmatched)");
    assert_eq!(base.cardplay, 1); // default
}

#[test]
fn earlier_topic_wins_when_both_match() {
    let t = table();
    let (name, base) = t.resolve("FINESSE then squeeze.pbn");
    assert_eq!(name, "Finesse");
    assert_eq!(base, Baseline { bidding: 1, cardplay: 2 });
}

#[test]
fn any_of_several_match_strings_selects() {
    let t = Topics {
        defaults: Baseline { bidding: 0, cardplay: 0 },
        topics: vec![TopicRule {
            name: "Ruffing".to_string(),
            matches: vec!["crossruff".to_string(), "RUFF".to_string()],
            bidding: 2,
            cardplay: 3,
        }],
    };
    assert_eq!(t.resolve("lessons/Ruffs in dummy.pbn").0, "Ruffing");
    assert_eq!(t.resolve("lessons/stayman.pbn").0, "(unmatched)");
}

#[test]
fn resolve_lowered_takes_the_first_list_with_an_occurring_pattern() {
    let t = table();
    let lowered = vec![vec!["finesse".to_string()], vec!["squeeze".to_string()]];
    let (name, base) = t.resolve_lowered("advanced/squeeze and finesse.pbn", &lowered);
    assert_eq!(name, "Finesse");
    assert_eq!(base, Baseline { bidding: 1, cardplay: 2 });
    let (name, base) = t.resolve_lowered("advanced/squeeze.pbn", &lowered);
    assert_eq!(name, "Squeeze");
    assert_eq!(base.cardplay, 4);
    // The text is matched as given: an upper-case path matches nothing.
    let (name, base) = t.resolve_lowered("ADVANCED/SQUEEZE.PBN", &lowered);
    assert_eq!(name, "(unmatched)");
    assert_eq!(base, Baseline { bidding: 1, cardplay: 1 });
}
