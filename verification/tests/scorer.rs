use findr::fuzzy_logic::{fuzzy_match, fuzzy_matcher, separator, to_ascii_lower};
use findr::text::chars_of;

#[test]
fn prefix_match_scores_base_streak_and_prefix_bonus() {
    // a at 0: 10 + 15; p at 1: 10 + 5 - 1; p at 2: 10 + 10 - 2
    assert_eq!(fuzzy_matcher("app", "apple.txt"), Some(57));
    assert_eq!(fuzzy_matcher("app", "app_config.yaml"), Some(57));
}

#[test]
fn query_that_is_no_subsequence_does_not_match() {
    assert_eq!(fuzzy_matcher("app", "banana.rs"), None);
    assert_eq!(fuzzy_matcher("xyz", "apple.txt"), None);
    assert_eq!(fuzzy_matcher("ba", "ab"), None);
    assert_eq!(fuzzy_matcher("aa", "a"), None);
}

#[test]
fn empty_query_matches_everything_with_zero() {
    assert_eq!(fuzzy_matcher("", "apple.txt"), Some(0));
    assert_eq!(fuzzy_matcher("", ""), Some(0));
    assert_eq!(fuzzy_match("", "apple.txt"), Some((0, vec![])));
}

#[test]
fn empty_candidate_matches_only_the_empty_query() {
    assert_eq!(fuzzy_matcher("a", ""), None);
}

#[test]
fn match_is_a_subsequence_not_a_substring() {
    // a at 0: 25; l at 3: 10 - 3; t at 6: 10 - 6 + 10 after the dot
    assert_eq!(fuzzy_matcher("alt", "apple.txt"), Some(25 + 7 + 14));
    assert_eq!(fuzzy_match("alt", "apple.txt"), Some((46, vec![0, 3, 6])));
}

#[test]
fn matching_ignores_ascii_case_on_both_sides() {
    assert_eq!(fuzzy_matcher("APP", "apple.txt"), Some(57));
    assert_eq!(fuzzy_matcher("app", "APPLE.TXT"), Some(57));
    assert_eq!(fuzzy_matcher("aPp", "ApPle"), Some(57));
}

#[test]
fn non_ascii_letters_are_compared_as_they_are() {
    assert_eq!(fuzzy_matcher("é", "É"), None);
    assert_eq!(fuzzy_matcher("é", "é"), Some(25));
    // positions count characters, not bytes
    assert_eq!(fuzzy_match("b", "éb"), Some((9, vec![1])));
}

#[test]
fn separator_before_a_match_earns_its_bonus() {
    // c at 2, right after the underscore: 10 - 2 + 10
    assert_eq!(fuzzy_matcher("c", "a_camel"), Some(18));
    assert_eq!(fuzzy_matcher("c", "a-camel"), Some(18));
    assert_eq!(fuzzy_matcher("c", "a/camel"), Some(18));
    assert_eq!(fuzzy_matcher("c", "a.camel"), Some(18));
    assert_eq!(fuzzy_matcher("c", "a\\camel"), Some(18));
    // no separator: 10 - 2
    assert_eq!(fuzzy_matcher("c", "axcamel"), Some(8));
    // a space is no separator
    assert_eq!(fuzzy_matcher("c", "a camel"), Some(8));
}

#[test]
fn streak_bonus_grows_with_the_run() {
    // a: 25, b: 10 + 5 - 1, c: 10 + 10 - 2, d: 10 + 15 - 3
    assert_eq!(fuzzy_matcher("abcd", "abcd"), Some(25 + 14 + 18 + 22));
    // a gap ends the run: a: 25, b: 14, d at 3 with no run before it: 10 - 3
    assert_eq!(fuzzy_matcher("abd", "abcd"), Some(25 + 14 + 7));
}

#[test]
fn later_position_scores_less() {
    assert_eq!(fuzzy_matcher("x", "ax"), Some(9));
    assert_eq!(fuzzy_matcher("x", "aax"), Some(8));
    assert_eq!(fuzzy_matcher("x", "aaax"), Some(7));
}

#[test]
fn match_at_the_start_beats_the_same_match_further_on() {
    let at_start = fuzzy_matcher("a", "abc").unwrap();
    let later = fuzzy_matcher("b", "abc").unwrap();
    let last = fuzzy_matcher("c", "abc").unwrap();
    assert_eq!(at_start, 25);
    assert_eq!(later, 9);
    assert_eq!(last, 8);
    assert!(at_start > later && later > last);
    // the same two characters, once from the start and once shifted by two
    let first = fuzzy_matcher("ab", "abab__").unwrap();
    let shifted = fuzzy_matcher("cd", "abcd__").unwrap();
    assert_eq!(first, 25 + 14);
    assert_eq!(shifted, 8 + 12);
    assert!(first > shifted);
}

#[test]
fn score_is_floored_at_zero() {
    let mut candidate = String::from("a");
    for _ in 0..40 {
        candidate.push('x');
    }
    candidate.push('b');
    // a: 25, b at 41: 10 - 41, the sum is -6
    assert_eq!(fuzzy_matcher("ab", &candidate), Some(0));
    let mut far = String::new();
    for _ in 0..100 {
        far.push('x');
    }
    far.push('b');
    assert_eq!(fuzzy_matcher("b", &far), Some(0));
}

#[test]
fn score_is_held_at_the_largest_i32() {
    let mut text = String::new();
    for _ in 0..40_000 {
        text.push('a');
    }
    // 25 + sum over k in 1..n of (10 + 4k) is above 3 * 10^9
    assert_eq!(fuzzy_matcher(&text, &text), Some(i32::MAX));
}

#[test]
fn long_run_below_the_cap_is_exact() {
    let mut text = String::new();
    for _ in 0..1000 {
        text.push('a');
    }
    // 25 + sum over k in 1..1000 of (10 + 5k - k) = 25 + 9990 + 4 * 499500
    assert_eq!(fuzzy_matcher(&text, &text), Some(25 + 9990 + 1_998_000));
}

#[test]
fn leftmost_match_is_the_one_scored() {
    // the first b is taken although the second would close a run with c
    assert_eq!(fuzzy_match("abc", "abxbc"), Some((25 + 14 + 6, vec![0, 1, 4])));
}

#[test]
fn positions_are_one_for_each_query_character() {
    let (_, positions) = fuzzy_match("pct", "app_config.txt").unwrap();
    assert_eq!(positions.len(), 3);
    assert_eq!(positions, vec![1, 4, 11]);
}

#[test]
fn helpers_agree_with_std() {
    assert_eq!(chars_of("aé_"), vec!['a', 'é', '_']);
    for c in ['A', 'Z', 'a', 'z', '@', '[', 'É', '0'] {
        assert_eq!(to_ascii_lower(c), c.to_ascii_lowercase());
    }
    for c in ['_', '-', '/', '.', '\\'] {
        assert!(separator(c));
    }
    for c in [' ', ':', 'a', ','] {
        assert!(!separator(c));
    }
}

#[test]
fn scoring_is_deterministic() {
    assert_eq!(fuzzy_match("pct", "app_config.txt"), fuzzy_match("pct", "app_config.txt"));
}
