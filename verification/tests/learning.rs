use hux_core::learning::{
    chars, context, diff, frame, fusion_event, key, summary_code, fusion_mode, fusion_pair_code, hash, hash_bytes, static_text, unframe, DiffEvent,
    DiffItem, DiffPathNode,
};

#[test]
fn hash_matches_reference_vectors() {
    assert_eq!(hash(""), "811c9dc500001505");
    assert_eq!(hash("tiger_sentence"), "f2d1c028532c0d94");
    assert_eq!(hash("虎句"), "2b025b23302e3acd");
    assert_eq!(hash_bytes(b""), hash(""));
}

#[test]
fn fusion_keys_match_reference_vectors() {
    assert_eq!(fusion_mode(""), "");
    assert_eq!(fusion_mode("m"), "fusion-v1|m");
    assert_eq!(
        fusion_pair_code(b"ii", "C", "A"),
        "~f422122101c436982",
        "`raw \"\\0D\\0\" direct \"\\0C\\0\" composed` 的哈希 + `~f` 前缀"
    );
    assert_eq!(
        fusion_pair_code(b"", "", ""),
        "~f4576f3060cad8fac",
        "空组件按 `a or \"\"` 处理"
    );
    assert_eq!(
        fusion_pair_code(b"ab", "疒否", "交否"),
        "~f39bc299c6ab38db6"
    );
    assert!("~f422122101c436982" > "zzzz");
}

#[test]
fn fusion_event_encodes_direction_and_offsets() {
    assert!(fusion_event("", b"ii", "C", "A", true, 2).is_none());
    let event = fusion_event("m", b"ii", "C", "A", true, 2).expect("事件");
    assert_eq!(event.mode, "fusion-v1|m");
    assert_eq!(event.code, "~f422122101c436982");
    assert_eq!(event.text, "D");
    assert_eq!(event.context, "");
    assert_eq!(
        (
            event.raw_start,
            event.raw_end,
            event.text_start,
            event.text_end
        ),
        (0, 2, 0, 1)
    );
    let reversed = fusion_event("m", b"ii", "C", "A", false, 2).expect("事件");
    assert_eq!(reversed.text, "C");
}

#[test]
fn context_keeps_last_two_characters() {
    assert_eq!(context("甲"), "甲");
    assert_eq!(context("甲乙"), "甲乙");
    assert_eq!(context("甲乙丙"), "乙丙");
    assert_eq!(context(""), "");
}

#[test]
fn chars_validates_utf8_tags() {
    assert!(chars("甲乙").is_some());
    assert!(chars("\u{fffd}").is_some());
}

#[test]
fn static_text_constrains_tags() {
    assert!(!static_text(""));
    assert!(static_text("甲"));
    assert!(!static_text(&"甲".repeat(17)));
    assert!(!static_text("甲{乙"));
    assert!(!static_text("\u{e000}"));
}

#[test]
fn frame_roundtrip() {
    let values = vec!["1".to_string(), "ab".to_string(), String::new()];
    assert_eq!(unframe(&frame(&values)), Some(values));
}

#[test]
fn unframe_rejects_bad_input() {
    assert_eq!(unframe("5:abc"), None);
    assert_eq!(unframe("8193:ab"), None);
    assert_eq!(unframe("ab"), None);
}

#[test]
fn unframe_rejects_non_char_boundary_slices() {
    assert_eq!(unframe("1:é"), None);
    assert_eq!(unframe("3:1:a1:é"), None);
    let lossy = String::from_utf8_lossy(b"2:\xff\xfe").to_string();
    assert_eq!(unframe(&lossy), None);
    assert_eq!(
        unframe("1:a2:é"),
        Some(vec!["a".to_string(), "é".to_string()])
    );
}

fn item(text: &str, path: &[(usize, usize)]) -> DiffItem {
    DiffItem {
        text: text.to_string(),
        path: path
            .iter()
            .map(|&(raw_length, text_length)| DiffPathNode { raw_length, text_length })
            .collect(),
    }
}

#[test]
fn diff_reports_the_changed_segment() {
    let before = item("甲乙", &[(4, 6), (2, 3)]);
    let selected = item("甲丙", &[(4, 6), (2, 3)]);
    let events = diff(b"ABcd", Some(&before), Some(&selected), 0, "m");
    assert_eq!(
        events,
        vec![DiffEvent {
            mode: "m".to_string(),
            code: "cd".to_string(),
            text: "丙".to_string(),
            context: "甲".to_string(),
            raw_start: 2,
            raw_end: 4,
            text_start: 3,
            text_end: 6,
        }]
    );
}

#[test]
fn diff_skips_segments_before_the_floor_and_equal_texts() {
    let before = item("甲乙", &[(4, 6), (2, 3)]);
    let selected = item("甲丙", &[(4, 6), (2, 3)]);
    assert!(diff(b"abcd", Some(&before), Some(&selected), 3, "m").is_empty());
    assert!(diff(b"abcd", Some(&before), Some(&before), 0, "m").is_empty());
    assert!(diff(b"abcd", None, Some(&selected), 0, "m").is_empty());
}

#[test]
fn diff_needs_consistent_boundaries() {
    let before = item("甲乙", &[(4, 6), (2, 3)]);
    let broken = item("甲丙", &[(4, 3), (2, 3)]);
    assert!(diff(b"abcd", Some(&before), Some(&broken), 0, "m").is_empty());
    let short = item("甲丙", &[(3, 6), (2, 3)]);
    assert!(diff(b"abcd", Some(&before), Some(&short), 0, "m").is_empty());
}

#[test]
fn diff_merges_segments_the_selection_does_not_split() {
    let before = item("甲乙", &[(4, 6), (2, 3)]);
    let selected = item("丙丁", &[(4, 6)]);
    let events = diff(b"abcd", Some(&before), Some(&selected), 0, "m");
    assert_eq!(events.len(), 1);
    assert_eq!(events[0].code, "abcd");
    assert_eq!(events[0].text, "丙丁");
    assert_eq!(events[0].context, "");
    assert_eq!((events[0].raw_start, events[0].raw_end), (0, 4));
}

#[test]
fn summary_code_is_the_first_framed_part() {
    assert_eq!(summary_code(&key(&["abc", "sentence-v1"])), "abc");
    assert_eq!(summary_code(&key(&["", "m"])), "");
    assert_eq!(summary_code("not framed"), "");
}
