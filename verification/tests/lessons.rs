use deal_survey::lessons::{is_range, is_set_size, is_view_or_set, is_view_or_set_lowered, lesson_of, normalize_lesson_name, two_numbers};

fn cs(s: &str) -> Vec<char> {
    s.chars().collect()
}

fn text(v: Vec<char>) -> String {
    v.into_iter().collect()
}

#[test]
fn lesson_folders_roll_up_slices_and_views() {
    assert_eq!(text(lesson_of(&cs("Cardplay/Finesse/Full Table/Finesse 1-6.pbn"), &cs("Cardplay"))), "Finesse");
    assert_eq!(text(lesson_of(&cs("Bidding/6x6 board sets/South/Stayman 1-6.pbn"), &cs("Bidding"))), "Stayman");
    assert_eq!(text(lesson_of(&cs("Bidding/Bidding/x.pbn"), &cs("Bidding"))), "x");
    assert_eq!(text(lesson_of(&cs("Cardplay/Baker Bridge Finesse practice deals 7-12.pbn"), &cs("Cardplay"))), "Finesse practice deals");
    assert_eq!(text(lesson_of(&cs("Stayman.pbn"), &cs("(uncategorized)"))), "Stayman");
}

#[test]
fn filenames_normalize_to_lesson_labels() {
    assert_eq!(text(normalize_lesson_name(&cs("thinking-bridge-Entries 6x6 1-6 - NS.pbn"))), "Entries");
    assert_eq!(text(normalize_lesson_name(&cs("Baker Bridge Squeeze practice deals.pbn"))), "Squeeze");
    assert_eq!(text(normalize_lesson_name(&cs("Openings Nonstandard.pbn"))), "Openings");
    assert_eq!(text(normalize_lesson_name(&cs("  Leads 13-24  "))), "Leads");
    assert_eq!(text(normalize_lesson_name(&cs("Plain"))), "Plain");
}

#[test]
fn number_tokens() {
    assert!(is_range(&cs("1-6")));
    assert!(!is_range(&cs("-6")));
    assert!(!is_range(&cs("1-")));
    assert!(!is_range(&cs("a-6")));
    assert!(is_set_size(&cs("6x6")));
    assert!(!is_set_size(&cs("6x")));
    assert!(two_numbers(&cs("12:34"), ':'));
}

#[test]
fn view_and_set_folders() {
    assert!(is_view_or_set(&cs("North-South")));
    assert!(is_view_or_set(&cs("NESW")));
    assert!(is_view_or_set(&cs("12 Board Sets")));
    assert!(is_view_or_set(&cs("6x6")));
    assert!(!is_view_or_set(&cs("Finesse")));
}

#[test]
fn folder_test_on_a_lowered_name() {
    assert!(is_view_or_set_lowered(&cs("north-south"), &cs("North-South")));
    assert!(is_view_or_set_lowered(&cs("12 board sets"), &cs("12 Board Sets")));
    // Seat views are compared in lower case only.
    assert!(!is_view_or_set_lowered(&cs("North-South"), &cs("North-South")));
    // The set size is read from the name as given.
    assert!(is_view_or_set_lowered(&cs("6x6"), &cs("6x6")));
    assert!(!is_view_or_set_lowered(&cs("finesse"), &cs("Finesse")));
}
