use hux_core::decode::{
    has_complete_candidate, has_letter, normalize, parse_boundaries, parse_selector, trailing_selector_span,
    CodeEntry, DecodeLock,
};
use hux_core::lexicon::Lexicon;

#[test]
fn normalize_matches_reference_rules() {
    assert_eq!(normalize("A B\tC\r\n"), b"abc");
    assert_eq!(normalize("a\u{0b}b"), b"ab");
    assert!(has_letter(b"a1"));
    assert!(!has_letter(b"123"));
    assert_eq!(trailing_selector_span(b"ab12;"), 3);
    assert_eq!(parse_selector(b"ab;", 2), (2, 3));
    assert_eq!(parse_selector(b"ab'", 2), (3, 3));
    assert_eq!(parse_selector(b"ab0", 2), (10, 3));
    assert_eq!(parse_selector(b"ab12", 2), (12, 4));
    assert_eq!(parse_selector(b"ab00", 2), (0, 4));
    assert_eq!(parse_selector(b"ab99999999999999999999", 2), (u64::MAX, 22));
    assert_eq!(parse_selector(b"ab", 2), (0, 2));
}

#[test]
fn parse_boundaries_matches_gmatch() {
    assert_eq!(parse_boundaries("2,3;"), vec![(2, 3)]);
    assert_eq!(parse_boundaries("2,3;4,6;"), vec![(2, 3), (4, 6)]);
    assert_eq!(parse_boundaries(""), Vec::<(usize, usize)>::new());
    assert_eq!(parse_boundaries("abc"), Vec::<(usize, usize)>::new());
    assert_eq!(parse_boundaries("2,;"), Vec::<(usize, usize)>::new());
    assert_eq!(parse_boundaries("2,3"), Vec::<(usize, usize)>::new());
    assert_eq!(parse_boundaries("x2,3;"), vec![(2, 3)]);
    assert_eq!(parse_boundaries("12,34,56;"), vec![(34, 56)]);
    assert_eq!(parse_boundaries("1,2,3;"), vec![(2, 3)]);
}

fn sample_lexicon() -> Lexicon {
    let mut lexicon = Lexicon::new();
    lexicon.insert(
        "ab",
        vec![
            CodeEntry { text: "交".to_string(), rank: 1 },
            CodeEntry { text: "疒".to_string(), rank: 2 },
        ],
    );
    lexicon
}

#[test]
fn has_complete_candidate_honors_lock() {
    let lexicon = sample_lexicon();
    assert!(has_complete_candidate(&lexicon, "abab", "", None, false, true, None));
    assert!(has_complete_candidate(&lexicon, "abab", "交", None, false, true, None));
    let lock = DecodeLock {
        raw: "ab",
        text: "交",
        boundaries: "2,3;",
    };
    assert!(has_complete_candidate(&lexicon, "abab", "", None, false, true, Some(&lock)));
    assert!(has_complete_candidate(&lexicon, "abab", "交", None, false, true, Some(&lock)));
    assert!(has_complete_candidate(&lexicon, "ab", "交", None, false, true, Some(&lock)));
    let foreign = DecodeLock {
        raw: "cd",
        text: "交",
        boundaries: "2,3;",
    };
    assert!(!has_complete_candidate(&lexicon, "abab", "", None, false, true, Some(&foreign)));
    assert!(!has_complete_candidate(&lexicon, "abab", "疒", None, false, true, Some(&lock)));
    assert!(!has_complete_candidate(&lexicon, "ab", "交", Some("交"), false, true, Some(&lock)));
    assert!(has_complete_candidate(&lexicon, "abab", "交", Some("交"), false, true, Some(&lock)));
}

#[test]
fn has_complete_candidate_needs_letters_and_codes() {
    let lexicon = sample_lexicon();
    assert!(!has_complete_candidate(&lexicon, "", "", None, false, true, None));
    assert!(!has_complete_candidate(&lexicon, "12", "", None, false, true, None));
    assert!(!has_complete_candidate(&lexicon, "abc", "", None, false, true, None));
    assert!(has_complete_candidate(&lexicon, "A B", "", None, false, true, None));
}

#[test]
fn has_complete_candidate_follows_selectors_and_ranks() {
    let lexicon = sample_lexicon();
    assert!(has_complete_candidate(&lexicon, "ab;", "疒", None, false, false, None));
    assert!(!has_complete_candidate(&lexicon, "ab;", "交", None, false, false, None));
    assert!(!has_complete_candidate(&lexicon, "abab", "交疒", None, false, false, None));
    assert!(has_complete_candidate(&lexicon, "abab", "交交", None, false, false, None));
    assert!(has_complete_candidate(&lexicon, "abab", "交疒", None, false, true, None));
    assert!(!has_complete_candidate(&lexicon, "ab", "交", Some("交"), false, false, None));
    assert!(has_complete_candidate(&lexicon, "ab", "", Some("交"), false, false, None));
}
