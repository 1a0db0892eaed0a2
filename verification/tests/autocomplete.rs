use rosace_widgets::tree::autocomplete::{select_matches, Autocomplete};

fn options(v: &[&str]) -> Vec<String> {
    v.iter().map(|s| s.to_string()).collect()
}

#[test]
fn matches_filters_case_insensitively() {
    let ac = Autocomplete::new(options(&["Apple", "Banana", "apricot"]), false).value("ap");
    let m: Vec<String> = ac.matches();
    assert_eq!(m, vec!["Apple", "apricot"]);
}

#[test]
fn empty_query_has_no_matches() {
    let ac = Autocomplete::new(options(&["Apple", "Banana"]), false);
    assert!(ac.matches().is_empty());
}

#[test]
fn respects_max_visible() {
    let ac = Autocomplete::new(options(&["a1", "a2", "a3", "a4"]), false).value("a").max_visible(2);
    assert_eq!(ac.matches().len(), 2);
}

#[test]
fn the_query_is_trimmed_and_lowercased() {
    let ac = Autocomplete::new(options(&["Grape", "grapefruit", "Orange"]), false).value("  GRAPE\t");
    assert_eq!(ac.matches(), vec!["Grape", "grapefruit"]);
    let blank = Autocomplete::new(options(&["x"]), false).value("   ");
    assert!(blank.matches().is_empty());
    assert_eq!(Autocomplete::new(options(&[]), false).max_visible(0).max_visible, 1);
    assert_eq!(Autocomplete::new(options(&[]), true).placeholder, "Search\u{2026}");
}

#[test]
fn select_matches_picks_by_the_given_lowercase_forms() {
    let opts = options(&["Apple", "Banana", "apricot", "Grape"]);
    // The lowercase forms are taken as given: here "Grape" is given as "ap".
    let lowered = options(&["apple", "banana", "apricot", "ap"]);
    assert_eq!(select_matches(&opts, &lowered, "ap", 10), vec!["Apple", "apricot", "Grape"]);
    assert_eq!(select_matches(&opts, &lowered, "ap", 2), vec!["Apple", "apricot"]);
    assert!(select_matches(&opts, &lowered, "", 10).is_empty());
    assert!(select_matches(&opts, &lowered, "zz", 10).is_empty());
}
