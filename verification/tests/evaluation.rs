use fuzzy_match::{check, FuzzyConfig};

fn defaults(threshold: usize) -> FuzzyConfig {
    FuzzyConfig {
        threshold,
        insertion_penalty: None,
        deletion_penalty: None,
        substitution_penalty: None,
    }
}

fn weighted(threshold: usize, insertion: usize, deletion: usize, substitution: usize) -> FuzzyConfig {
    FuzzyConfig {
        threshold,
        insertion_penalty: Some(insertion),
        deletion_penalty: Some(deletion),
        substitution_penalty: Some(substitution),
    }
}

fn distance_of(query: &str, candidate: &str, config: FuzzyConfig) -> Option<usize> {
    let query = query.to_string();
    let candidate = candidate.to_string();
    check(&query, &candidate, config).map(|hit| hit.1)
}

#[test]
fn a_string_matches_itself_at_distance_zero() {
    for s in ["a", "hello", "youtube", "na\u{ef}ve", "\u{65e5}\u{672c}\u{8a9e}"] {
        let s = s.to_string();
        assert_eq!(check(&s, &s, defaults(0)), Some((&s, 0)));
        assert_eq!(check(&s, &s, defaults(2)), Some((&s, 0)));
        assert_eq!(check(&s, &s, weighted(0, 7, 11, 13)), Some((&s, 0)));
    }
}

#[test]
fn a_match_hands_back_the_candidate() {
    let query = "hello".to_string();
    let candidate = "hallo".to_string();
    let hit = check(&query, &candidate, defaults(2)).unwrap();
    assert!(std::ptr::eq(hit.0, &candidate));
    assert_eq!(hit.1, 2);
}

#[test]
fn an_empty_query_never_matches() {
    assert_eq!(distance_of("", "hello", defaults(0)), None);
    assert_eq!(distance_of("", "hello", defaults(5)), None);
    assert_eq!(distance_of("", "hello", defaults(usize::MAX)), None);
    assert_eq!(distance_of("", "hello", weighted(usize::MAX, 0, 0, 0)), None);
}

#[test]
fn an_empty_candidate_never_matches() {
    assert_eq!(distance_of("hello", "", defaults(0)), None);
    assert_eq!(distance_of("hello", "", defaults(5)), None);
    assert_eq!(distance_of("hello", "", defaults(usize::MAX)), None);
    assert_eq!(distance_of("hello", "", weighted(usize::MAX, 0, 0, 0)), None);
}

#[test]
fn two_empty_strings_do_not_match() {
    assert_eq!(distance_of("", "", defaults(0)), None);
    assert_eq!(distance_of("", "", defaults(usize::MAX)), None);
}

#[test]
fn default_weights_are_one_one_two() {
    // one character of the query deleted
    assert_eq!(distance_of("youtube", "yotube", defaults(10)), Some(1));
    // one character of the candidate inserted
    assert_eq!(distance_of("yotube", "youtube", defaults(10)), Some(1));
    // one character substituted
    assert_eq!(distance_of("hello", "hallo", defaults(10)), Some(2));
    assert_eq!(distance_of("youtube", "you", defaults(10)), Some(4));
    assert_eq!(distance_of("youtube", "otube", defaults(10)), Some(2));
    assert_eq!(distance_of("youtube", "outube", defaults(10)), Some(1));
    assert_eq!(distance_of("youtube", "routube", defaults(10)), Some(2));
    assert_eq!(distance_of("youtube", "ytub", defaults(10)), Some(3));
    assert_eq!(distance_of("youtube", "out", defaults(10)), Some(4));
    assert_eq!(distance_of("kitten", "sitting", defaults(10)), Some(5));
}

#[test]
fn deletions_are_weighed_by_the_deletion_cost() {
    assert_eq!(distance_of("abc", "a", weighted(100, 5, 3, 50)), Some(6));
    assert_eq!(distance_of("abcd", "d", weighted(100, 5, 3, 50)), Some(9));
}

#[test]
fn insertions_are_weighed_by_the_insertion_cost() {
    assert_eq!(distance_of("a", "abc", weighted(100, 4, 9, 50)), Some(8));
    assert_eq!(distance_of("d", "abcd", weighted(100, 4, 9, 50)), Some(12));
}

#[test]
fn a_substitution_is_taken_when_it_is_the_cheapest() {
    assert_eq!(distance_of("a", "b", weighted(100, 4, 9, 1)), Some(1));
    assert_eq!(distance_of("abc", "xyz", weighted(100, 4, 9, 5)), Some(15));
}

#[test]
fn a_deletion_and_an_insertion_replace_a_dear_substitution() {
    assert_eq!(distance_of("a", "b", weighted(100, 4, 9, 50)), Some(13));
    assert_eq!(distance_of("a", "b", defaults(100)), Some(2));
    assert_eq!(distance_of("a", "b", weighted(100, 1, 1, 3)), Some(2));
}

#[test]
fn mixed_edits_take_the_cheapest_path() {
    // delete 'x' (3), keep 'a', substitute 'b' by 'c' (6), insert 'd' (5)
    assert_eq!(distance_of("xab", "acd", weighted(100, 5, 3, 6)), Some(14));
    assert_eq!(distance_of("xab", "acd", weighted(13, 5, 3, 6)), None);
    // three substitutions
    assert_eq!(distance_of("xab", "acd", weighted(100, 5, 3, 2)), Some(6));
}

#[test]
fn a_candidate_at_the_threshold_matches() {
    assert_eq!(distance_of("youtube", "you", defaults(4)), Some(4));
    assert_eq!(distance_of("hello", "hallo", defaults(2)), Some(2));
    assert_eq!(distance_of("hello", "hello", defaults(0)), Some(0));
    assert_eq!(distance_of("abc", "a", weighted(6, 5, 3, 50)), Some(6));
}

#[test]
fn a_candidate_one_past_the_threshold_does_not_match() {
    assert_eq!(distance_of("youtube", "you", defaults(3)), None);
    assert_eq!(distance_of("hello", "hallo", defaults(1)), None);
    assert_eq!(distance_of("hello", "hell", defaults(0)), None);
    assert_eq!(distance_of("abc", "a", weighted(5, 5, 3, 50)), None);
}

#[test]
fn swapping_the_strings_and_the_two_weights_keeps_the_distance() {
    let pairs = [
        ("youtube", "you"),
        ("kitten", "sitting"),
        ("abc", "a"),
        ("xab", "acd"),
        ("hello", "hello"),
        ("a", "zzzz"),
    ];
    for (query, candidate) in pairs {
        let there = distance_of(query, candidate, weighted(1000, 3, 7, 8));
        let back = distance_of(candidate, query, weighted(1000, 7, 3, 8));
        assert!(there.is_some());
        assert_eq!(there, back);
    }
    assert_eq!(distance_of("youtube", "you", weighted(1000, 3, 7, 8)), Some(28));
    assert_eq!(distance_of("you", "youtube", weighted(1000, 7, 3, 8)), Some(28));
    assert_eq!(distance_of("you", "youtube", weighted(1000, 3, 7, 8)), Some(12));
}

#[test]
fn characters_are_compared_not_bytes() {
    assert_eq!(distance_of("na\u{ef}ve", "naive", defaults(10)), Some(2));
    assert_eq!(distance_of("\u{e9}", "e", defaults(10)), Some(2));
    assert_eq!(distance_of("\u{65e5}\u{672c}\u{8a9e}", "\u{65e5}\u{672c}", defaults(10)), Some(1));
    assert_eq!(distance_of("\u{65e5}\u{672c}", "\u{65e5}\u{672c}\u{8a9e}", weighted(10, 4, 1, 1)), Some(4));
}

#[test]
fn case_is_not_folded() {
    assert_eq!(distance_of("Hello", "hello", defaults(10)), Some(2));
}

#[test]
fn free_edits_bring_every_candidate_to_distance_zero() {
    assert_eq!(distance_of("abc", "xyzzy", weighted(0, 0, 0, 0)), Some(0));
    assert_eq!(distance_of("abc", "xyzzy", weighted(0, 0, 0, 9)), Some(0));
    assert_eq!(distance_of("abc", "xyz", weighted(0, 5, 5, 0)), Some(0));
}

#[test]
fn a_weight_too_large_to_add_is_passed_over() {
    // the substitution cannot be afforded; deleting and inserting can
    assert_eq!(distance_of("a", "b", weighted(10, 1, 1, usize::MAX)), Some(2));
    assert_eq!(distance_of("ab", "cb", weighted(10, 1, 1, usize::MAX)), Some(2));
    assert_eq!(distance_of("a", "b", weighted(usize::MAX, 1, 1, usize::MAX)), Some(2));
}

#[test]
fn a_distance_past_the_largest_word_matches_no_threshold() {
    let m = usize::MAX;
    assert_eq!(distance_of("ab", "cd", weighted(m, m, m, m)), None);
    assert_eq!(distance_of("abc", "a", weighted(m, 1, m, 1)), None);
    assert_eq!(distance_of("a", "abc", weighted(m, m, 1, 1)), None);
    // one substitution is affordable, exactly
    assert_eq!(distance_of("a", "b", weighted(m, m, m, m)), Some(m));
    assert_eq!(distance_of("a", "b", weighted(m - 1, m, m, m)), None);
}

#[test]
fn the_largest_threshold_admits_every_distance_that_fits() {
    assert_eq!(distance_of("youtube", "out", defaults(usize::MAX)), Some(4));
    assert_eq!(distance_of("abc", "xyz", weighted(usize::MAX, 1000, 1000, 5000)), Some(6000));
}

#[test]
fn long_strings_are_measured_in_full() {
    let query = "a".repeat(400);
    let same = "a".repeat(400);
    let other = "b".repeat(400);
    let longer = "a".repeat(450);
    assert_eq!(distance_of(&query, &same, defaults(0)), Some(0));
    assert_eq!(distance_of(&query, &other, defaults(1000)), Some(800));
    assert_eq!(distance_of(&query, &other, defaults(799)), None);
    assert_eq!(distance_of(&query, &longer, weighted(1000, 3, 100, 100)), Some(150));
    assert_eq!(distance_of(&longer, &query, weighted(1000, 100, 3, 100)), Some(150));
}
