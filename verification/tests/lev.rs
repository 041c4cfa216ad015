use std::char::{from_u32, MAX};
use syntex::lev_distance::{find_best_match_for_name, lev_distance, min_by_key, select_fold1};

#[test]
fn test_lev_distance() {
    // Test bytelength agnosticity
    for c in (0..MAX as u32).filter_map(|i| from_u32(i)).map(|i| i.to_string()) {
        assert_eq!(lev_distance(&c[..], &c[..]), 0);
    }

    let a = "\nMäry häd ä little lämb\n\nLittle lämb\n";
    let b = "\nMary häd ä little lämb\n\nLittle lämb\n";
    let c = "Mary häd ä little lämb\n\nLittle lämb\n";
    assert_eq!(lev_distance(a, b), 1);
    assert_eq!(lev_distance(b, a), 1);
    assert_eq!(lev_distance(a, c), 2);
    assert_eq!(lev_distance(c, a), 2);
    assert_eq!(lev_distance(b, c), 1);
    assert_eq!(lev_distance(c, b), 1);
}

#[test]
fn lev_distance_known_values() {
    assert_eq!(lev_distance("kitten", "sitting"), 3);
    assert_eq!(lev_distance("", "abc"), 3);
    assert_eq!(lev_distance("abc", ""), 3);
    assert_eq!(lev_distance("flaw", "lawn"), 2);
}

#[test]
fn best_match_picks_nearest_name() {
    let names = vec!["expand".to_string(), "expend".to_string(), "exile".to_string()];
    let got = find_best_match_for_name(&names, "expando", None);
    assert_eq!(got, Some("expand".to_string()));
}

#[test]
fn best_match_none_when_too_far() {
    let names = vec!["alpha".to_string()];
    let got = find_best_match_for_name(&names, "omega", None);
    assert_eq!(got, None);
}

#[test]
fn best_match_respects_given_limit() {
    let names = vec!["abcd".to_string()];
    assert_eq!(find_best_match_for_name(&names, "abce", Some(0)), None);
    assert_eq!(find_best_match_for_name(&names, "abce", Some(1)), Some("abcd".to_string()));
}

#[test]
fn min_by_key_is_stable() {
    let items = vec![("b".to_string(), 2), ("a".to_string(), 1), ("c".to_string(), 1)];
    assert_eq!(min_by_key(items), Some(("a".to_string(), 1)));
    assert_eq!(min_by_key(Vec::new()), None);
}

#[test]
fn select_fold1_returns_projection_with_selection() {
    let items = vec![("x".to_string(), 5), ("y".to_string(), 4), ("z".to_string(), 4)];
    assert_eq!(select_fold1(items), Some((4, ("y".to_string(), 4))));
}
