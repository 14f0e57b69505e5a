use skillpack::errors::SkillpackError;
use skillpack::patterns::{is_valid_pattern, match_pattern, PatternSet};

#[test]
fn match_pattern_segments() {
    assert!(match_pattern("general/**", "general"));
    assert!(match_pattern("general/**", "general/foo"));
    assert!(match_pattern("coding/dotnet/*", "coding/dotnet/efcore"));
    assert!(!match_pattern("coding/dotnet/*", "coding/dotnet/efcore/x"));
    assert!(match_pattern("**/experimental/**", "experimental/foo"));
    assert!(match_pattern("**/experimental/**", "a/b/experimental/foo"));
    assert!(!match_pattern("**/experimental/**", "a/b/experiments/foo"));
}

#[test]
fn match_pattern_segment_wildcards() {
    assert!(match_pattern("general/*-style", "general/writing-style"));
    assert!(match_pattern("general/*style", "general/writing-style"));
    assert!(!match_pattern("general/*style", "general/writing/ins"));
    assert!(!match_pattern("general/writing-style", "general/writing"));
}

#[test]
fn double_star_covers_zero_or_more_segments() {
    assert!(match_pattern("a/**", "a"));
    assert!(match_pattern("a/**", "a/b/c"));
    assert!(!match_pattern("a/*", "a/b/c"));
}

#[test]
fn double_star_on_both_sides_matches_single_segment() {
    assert!(match_pattern("**/x/**", "x"));
    assert!(match_pattern("**/x/**", "a/x/b"));
    assert!(!match_pattern("**/x/**", "y"));
}

#[test]
fn star_anchors_and_interior_chunks() {
    assert!(match_pattern("a*c", "abc"));
    assert!(match_pattern("a*c", "ac"));
    assert!(!match_pattern("a*c", "abcd"));
    assert!(match_pattern("*b*", "abc"));
    assert!(match_pattern("a*b*c", "axxbyyc"));
    assert!(!match_pattern("a*b*c", "axxcyyb"));
    assert!(match_pattern("*", "anything"));
    assert!(!match_pattern("*", "two/segments"));
}

#[test]
fn matching_is_case_sensitive() {
    assert!(!match_pattern("General/**", "general/foo"));
    assert!(match_pattern("general/Foo", "general/Foo"));
}

#[test]
fn invalid_patterns_are_rejected() {
    assert!(!is_valid_pattern(""));
    assert!(!is_valid_pattern("a//b"));
    assert!(!is_valid_pattern("/a"));
    assert!(!is_valid_pattern("a/"));
    assert!(!is_valid_pattern("a**"));
    assert!(!is_valid_pattern("**b/c"));
    assert!(is_valid_pattern("**"));
    assert!(is_valid_pattern("a/**/b"));
    assert!(is_valid_pattern("a*b/c"));
    assert!(!match_pattern("a**", "a"));
}

#[test]
fn pattern_set_matches_any_pattern() {
    let set = PatternSet::new(&vec!["alpha/**".to_string(), "beta".to_string()]).unwrap();
    assert!(set.is_match("alpha"));
    assert!(set.is_match("alpha/x"));
    assert!(set.is_match("beta"));
    assert!(!set.is_match("beta/x"));
    assert!(!set.is_match("gamma"));
}

#[test]
fn pattern_set_order_does_not_matter() {
    let one = PatternSet::new(&vec!["a/*".to_string(), "b".to_string()]).unwrap();
    let two = PatternSet::new(&vec!["b".to_string(), "a/*".to_string()]).unwrap();
    for id in ["a/x", "b", "c", "a"] {
        assert_eq!(one.is_match(id), two.is_match(id));
    }
}

#[test]
fn pattern_set_counts_per_pattern() {
    let set = PatternSet::new(&vec!["a/**".to_string(), "*".to_string(), "zzz".to_string()]).unwrap();
    let ids = vec!["a".to_string(), "a/b".to_string(), "c".to_string()];
    assert_eq!(set.match_count_per_pattern(&ids), vec![2, 2, 0]);
}

#[test]
fn pattern_set_reports_first_invalid_pattern() {
    let err = PatternSet::new(&vec!["ok".to_string(), "bad**".to_string(), "".to_string()]).unwrap_err();
    match &err {
        SkillpackError::InvalidPattern { pattern } => assert_eq!(pattern, "bad**"),
        other => panic!("unexpected error {:?}", other),
    }
    assert_eq!(err.to_cli_error().message(), "invalid pattern: bad**");
}
