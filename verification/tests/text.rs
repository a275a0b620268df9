use deal_survey::sorted_map::CountMap;
use deal_survey::text::{
    char_count, decimal_string, find_chars, lex_less, push_signed_decimal, split_chars, str_contains,
    trim_chars,
};

fn cs(s: &str) -> Vec<char> {
    s.chars().collect()
}

#[test]
fn decimal_rendering() {
    assert_eq!(decimal_string(0), "0");
    assert_eq!(decimal_string(1234567890), "1234567890");
    let mut s = String::from("x=");
    push_signed_decimal(&mut s, -42);
    assert_eq!(s, "x=-42");
}

#[test]
fn ordering_is_by_code_point() {
    assert!(lex_less(&cs("Alpha"), &cs("Beta")));
    assert!(lex_less(&cs("Al"), &cs("Alpha")));
    assert!(!lex_less(&cs("beta"), &cs("Beta")));
    assert!(!lex_less(&cs("same"), &cs("same")));
}

#[test]
fn searching_splitting_trimming() {
    assert_eq!(find_chars(&cs("a by b by c"), &cs(" by ")), Some(1));
    assert_eq!(find_chars(&cs("abc"), &cs("x")), None);
    assert!(str_contains("finesse practice", "practice"));
    let parts: Vec<String> = split_chars(&cs("a/b//c"), '/').into_iter().map(|v| v.into_iter().collect()).collect();
    assert_eq!(parts, vec!["a", "b", "", "c"]);
    assert_eq!(trim_chars(&cs("  x y \t")).into_iter().collect::<String>(), "x y");
    assert_eq!(char_count("ééa"), 3);
}

#[test]
fn counts_keyed_by_text() {
    let mut m = CountMap::new();
    m.increment(&"ruff".to_string());
    m.increment(&"finesse".to_string());
    m.increment(&"ruff".to_string());
    assert_eq!(m.get(&"ruff".to_string()), 2);
    assert_eq!(m.get(&"finesse".to_string()), 1);
    assert_eq!(m.get(&"squeeze".to_string()), 0);
    let keys: Vec<&str> = m.entries.iter().map(|(k, _)| k.as_str()).collect();
    assert_eq!(keys, vec!["finesse", "ruff"]);
}
