use std::cmp::Ordering;

use segs::search::{compare_matches, search_names, TextFinder};

#[test]
fn earlier_matches_sort_first() {
    let names = vec!["Alpha Flight".to_owned(), "Flight Alpha".to_owned()];
    let results = search_names(&names, "flight");
    assert_eq!(names[results[0].index], "Flight Alpha");
}

#[test]
fn empty_query_lists_every_name_by_name() {
    let names = vec!["Zeta".to_owned(), "Alpha".to_owned(), "Mid".to_owned()];
    let results = search_names(&names, "");
    let order = results.iter().map(|r| names[r.index].as_str()).collect::<Vec<_>>();
    assert_eq!(order, ["Alpha", "Mid", "Zeta"]);
    assert!(results.iter().all(|r| r.matches.is_empty()));
}

#[test]
fn matching_is_case_insensitive_and_reports_ranges() {
    let names = vec!["Main FLIGHT".to_owned(), "Ground".to_owned(), "flight flight".to_owned()];
    let results = search_names(&names, "FLIGHT");
    let order = results.iter().map(|r| names[r.index].as_str()).collect::<Vec<_>>();
    assert_eq!(order, ["flight flight", "Main FLIGHT"]);
    assert_eq!(results[0].matches, vec![0..6, 7..13]);
    assert_eq!(results[1].matches, vec![5..11]);
}

#[test]
fn match_lists_compare_by_starts_then_count() {
    assert_eq!(compare_matches(&[0..2], &[1..3]), Ordering::Less);
    assert_eq!(compare_matches(&[4..5], &[1..3]), Ordering::Greater);
    assert_eq!(compare_matches(&[1..2], &[1..9]), Ordering::Equal);
    assert_eq!(compare_matches(&[1..2], &[1..2, 5..6]), Ordering::Less);
    assert_eq!(compare_matches(&[], &[]), Ordering::Equal);
}

#[test]
fn finder_ranks_texts_by_their_matches_and_keeps_ties_in_order() {
    let finder = TextFinder::new("FLIGHT");
    assert!(finder.has_same_pattern("Flight"));
    assert!(!finder.has_same_pattern("Flights"));
    let texts = vec![
        "Alpha Flight".to_owned(),
        "Ground".to_owned(),
        "flight".to_owned(),
        "Flight Flight".to_owned(),
        "FLIGHT".to_owned(),
    ];
    let found = finder.find_in(&texts);
    let order = found.iter().map(|r| r.index).collect::<Vec<_>>();
    assert_eq!(order, [2, 4, 3, 0]);
    assert_eq!(found[0].matches, vec![0..6]);
    assert_eq!(found[2].matches, vec![0..6, 7..13]);
    assert_eq!(found[3].matches, vec![6..12]);
}

#[test]
fn finder_reports_leftmost_non_overlapping_byte_ranges() {
    let texts = vec!["aaaa a".to_owned(), "xÉé".to_owned()];
    let found = TextFinder::new("aa").find_in(&texts);
    assert_eq!(found.len(), 1);
    assert_eq!(found[0].matches, vec![0..2, 2..4]);
    let accented = TextFinder::new("é").find_in(&texts);
    assert_eq!(accented[0].index, 1);
    assert_eq!(accented[0].matches, vec![1..3, 3..5]);
}

#[test]
fn empty_finder_pattern_matches_at_every_byte() {
    let texts = vec!["ab".to_owned()];
    let found = TextFinder::new("").find_in(&texts);
    assert_eq!(found[0].matches, vec![0..0, 1..1, 2..2]);
}
