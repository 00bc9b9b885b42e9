use smart_read::fuzzy::{custom_fuzzy_match, custom_fuzzy_search, FuzzyScore};

fn value(s: FuzzyScore) -> (i128, i128) {
    (s.numerator, s.denominator)
}

#[test]
fn pattern_against_itself_beats_disjoint_item() {
    let same = custom_fuzzy_match("abc", "abc");
    let other = custom_fuzzy_match("abc", "xyz");
    assert_eq!(value(same), (54, 6));
    // best offset is the last: one mismatch, weighted by 4
    assert_eq!(value(other), (-4, 6));
    assert!(same.is_greater_than(&other));
}

#[test]
fn earlier_match_scores_at_least_as_high() {
    let early = custom_fuzzy_match("abc", "abcxyz");
    let late = custom_fuzzy_match("abc", "xyzabc");
    assert!(!late.is_greater_than(&early));
    assert!(early.is_greater_than(&late));
    assert_eq!(value(early), (108, 12));
}

#[test]
fn match_ignores_ascii_case() {
    assert_eq!(value(custom_fuzzy_match("ABC", "abc")), (54, 6));
}

#[test]
fn partial_overlap_score_is_exact() {
    // "gren" over "red" at offset -1: r/r, e/e, n/d -> 5, weighted by 7
    assert_eq!(value(custom_fuzzy_match("gren", "red")), (35, 6));
    // "gren" over "green" at offset 0: g, r, e match, n/e does not -> 8, weighted by 10
    assert_eq!(value(custom_fuzzy_match("gren", "green")), (80, 10));
}

#[test]
fn score_is_negative_when_every_offset_mismatches() {
    assert_eq!(value(custom_fuzzy_match("a", "b")), (-2, 2));
}

#[test]
fn empty_inputs_score_zero() {
    assert_eq!(value(custom_fuzzy_match("", "abc")).0, 0);
    assert_eq!(value(custom_fuzzy_match("abc", "")), (0, 1));
    assert_eq!(value(custom_fuzzy_match("", "")), (0, 1));
}

#[test]
fn search_finds_word_with_missing_letter() {
    assert_eq!(custom_fuzzy_search("gren", &["red", "green", "blue"]), Some(1));
}

#[test]
fn search_without_overlap_gives_nothing() {
    assert_eq!(custom_fuzzy_search("zzz", &["aaa", "bbb"]), None);
}

#[test]
fn search_over_no_items_gives_nothing() {
    assert_eq!(custom_fuzzy_search("abc", &[]), None);
}

#[test]
fn search_ties_go_to_first_item() {
    assert_eq!(custom_fuzzy_search("ab", &["xx", "ab", "ab"]), Some(1));
}

#[test]
fn search_typo_against_colour_candidates_gives_nothing() {
    assert_eq!(custom_fuzzy_search("blu", &["1", "red", "r", "2", "green", "g"]), None);
}

#[test]
fn earlier_occurrence_inside_item_scores_higher() {
    let early = custom_fuzzy_match("abc", "xabcxx");
    let late = custom_fuzzy_match("abc", "xxxabc");
    assert_eq!(value(early), (99, 12));
    assert_eq!(value(late), (81, 12));
    assert!(early.is_greater_than(&late));
}
