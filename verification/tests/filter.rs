use minigrep::text::contains;
use minigrep::LineFilter;

#[test]
fn contains_finds_a_block_anywhere() {
    assert!(contains("safe, fast, productive.", "safe"));
    assert!(contains("safe, fast, productive.", "fast"));
    assert!(contains("safe, fast, productive.", "productive."));
    assert!(contains("safe, fast, productive.", "safe, fast, productive."));
}

#[test]
fn contains_rejects_what_is_not_there() {
    assert!(!contains("safe, fast, productive.", "slow"));
    assert!(!contains("safe, fast, productive.", "Safe"));
    assert!(!contains("safe", "safe, fast"));
    assert!(!contains("", "a"));
    assert!(!contains("abc", "ac"));
}

#[test]
fn contains_finds_the_empty_text_everywhere() {
    assert!(contains("abc", ""));
    assert!(contains("", ""));
}

#[test]
fn contains_compares_whole_characters() {
    assert!(contains("naïve café", "ï"));
    assert!(contains("naïve café", "é"));
    assert!(!contains("naive cafe", "é"));
    assert!(contains("日本語", "本"));
    assert!(!contains("日本語", "木"));
}

#[test]
fn contains_agrees_with_the_standard_library() {
    let texts = ["", "a", "ab", "aab", "abab", "ÄäÖö", "xyz", "aaa", "ba", "äÖ"];
    for haystack in texts {
        for needle in texts {
            assert_eq!(contains(haystack, needle), haystack.contains(needle));
        }
    }
}

#[test]
fn filter_with_case_regarded() {
    let filter = LineFilter::new("Rust", false);
    assert!(filter.accepts("Rust:"));
    assert!(filter.accepts("Trust in Rust"));
    assert!(!filter.accepts("rust"));
    assert!(!filter.accepts("RUST"));
    assert!(!filter.accepts(""));
    assert!(!filter.accepts_nothing());
}

#[test]
fn filter_with_case_ignored() {
    let filter = LineFilter::new("RuSt", true);
    assert!(filter.accepts("Rust:"));
    assert!(filter.accepts("rust"));
    assert!(filter.accepts("RUST is great"));
    assert!(filter.accepts("trusty"));
    assert!(!filter.accepts("rus t"));
    assert!(!filter.accepts(""));
    assert!(!filter.accepts_nothing());
}

#[test]
fn filter_of_the_empty_query_accepts_nothing() {
    for ignore_case in [false, true] {
        let filter = LineFilter::new("", ignore_case);
        assert!(filter.accepts_nothing());
        assert!(!filter.accepts(""));
        assert!(!filter.accepts("Rust:"));
    }
}

#[test]
fn filter_can_be_used_line_by_line() {
    let filter = LineFilter::new("is", true);
    let lines = ["Rust:", "This", "IS", "it", "his"];
    let kept: Vec<&str> = lines.into_iter().filter(|line| filter.accepts(line)).collect();
    assert_eq!(kept, vec!["This", "IS", "his"]);
}
