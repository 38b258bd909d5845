use hux_core::decode::{has_complete_candidate, CodeEntry};
use hux_core::key::KeyEvent;
use hux_core::learning::{diff, hash, hash_bytes, DiffItem, DiffPathNode};
use hux_core::interaction::{parse_committed_property, read_locks, save_locks, Lock};
use hux_core::learning::{frame, unframe};
use hux_core::lexicon::Lexicon;
use hux_core::options::{option_defaults, Options};
use hux_core::punct::PunctTable;
use hux_core::scheme::{SchemeConfig, Value};
use hux_core::session::{Candidate, Context, Segment};
use hux_core::settings::OptionKeys;

#[test]
fn pop_undoes_push_at_the_caret() {
    let mut context = Context::new();
    context.set_input(b"abc");
    context.set_caret(1);
    context.push_input(b"x");
    assert_eq!(context.input(), b"axbc");
    assert!(context.pop_input(1));
    assert_eq!(context.input(), b"abc");
    assert_eq!(context.caret(), 1);
}

#[test]
fn highlighting_twice_changes_nothing_the_second_time() {
    let mut context = Context::new();
    context.set_input(b"ab");
    let mut segment = Segment {
        start: 0,
        end: 2,
        tags: vec!["abc".to_string()],
        ..Segment::default()
    };
    for text in ["甲", "乙", "丙"] {
        segment.candidates.push(Candidate::new("sentence", 0, 2, text, ""));
    }
    context.composition.segments.push(segment);
    assert!(context.highlight(2));
    context.drain_events();
    assert!(!context.highlight(2));
    assert!(context.drain_events().is_empty());
    assert_eq!(context.composition.segments[0].selected_index, 2);
}

#[test]
fn caret_stays_within_input() {
    let mut context = Context::new();
    context.set_input(b"ab");
    context.set_caret(10);
    assert!(context.caret() <= 2);
    context.set_caret(1);
    assert_eq!(context.caret(), 1);
}

#[test]
fn locks_read_back_as_saved() {
    let mut context = Context::new();
    let locks = vec![
        Lock {
            raw: "ab".to_string(),
            text: "交".to_string(),
            boundaries: "2,3;".to_string(),
        },
        Lock {
            raw: "abcd".to_string(),
            text: "交:疒".to_string(),
            boundaries: String::new(),
        },
    ];
    save_locks(&mut context, &locks);
    assert_eq!(read_locks(&context), locks);
}

#[test]
fn committed_property_splits_back() {
    assert_eq!(
        parse_committed_property(&format!("{}\t{}", "abab", "交\t交")),
        ("abab".to_string(), "交\t交".to_string())
    );
    assert_eq!(
        parse_committed_property("no tab"),
        (String::new(), String::new())
    );
}

#[test]
fn frames_unframe_to_their_parts() {
    let parts = vec!["1:a".to_string(), "é".to_string(), String::new(), "甲乙".to_string()];
    assert_eq!(unframe(&frame(&parts)), Some(parts));
}

#[test]
fn pairs_alternate_per_key_and_shape() {
    let mut table = PunctTable::parse("punctuator:\n  half_shape:\n    \"\\\"\": { pair: [ \"“\", \"”\" ] }\n").expect("parse");
    assert_eq!(table.resolve('"', false), Some("“".to_string()));
    assert_eq!(table.resolve('"', false), Some("”".to_string()));
    assert_eq!(table.resolve('"', false), Some("“".to_string()));
    assert_eq!(table.resolve('"', true), None);
}

#[test]
fn scheme_config_set_then_read() {
    let mut config = SchemeConfig::new().with("a", Value::Count(1)).with("b", Value::Bool(true));
    config.set("a", Value::Count(7));
    assert_eq!(config.count("a"), Some(7));
    assert_eq!(config.bool("b"), Some(true));
    assert_eq!(config.roles(), vec!["a", "b"]);
}

#[test]
fn required_prefix_only_narrows_completions() {
    let mut lexicon = Lexicon::new();
    lexicon.insert(
        "ab",
        vec![
            CodeEntry { text: "交".to_string(), rank: 1 },
            CodeEntry { text: "疒".to_string(), rank: 2 },
        ],
    );
    assert!(has_complete_candidate(&lexicon, "abab", "交交", None, false, false, None));
    assert!(has_complete_candidate(&lexicon, "abab", "", None, false, false, None));
    assert!(!has_complete_candidate(&lexicon, "abab", "疒", None, false, false, None));
}

#[test]
fn options_set_value_twice_changes_once() {
    let mut options = Options::new(option_defaults(&OptionKeys::empty()));
    assert!(!options.set_value("anything", true));
    let mut defaults = hux_core::tables::FlagTable::new();
    defaults.insert("switch", true);
    let mut options = Options::new(defaults);
    assert!(options.set_value("switch", false));
    assert!(!options.set_value("switch", false));
    assert_eq!(options.revision, 1);
    assert!(options.covers("switch"));
    assert!(!options.covers("other"));
}

#[test]
fn printed_key_parses_back() {
    for (keycode, modifier) in [(0xff09, 1), (0xffff, 4 | 8), (0x61, 0), (0x41, 1), (0xff0d, 0), (0x20, 4)] {
        let key = KeyEvent::new(keycode, modifier);
        assert_eq!(KeyEvent::from_repr(&key.repr()), Some(key), "{}", key.repr());
    }
    assert_eq!(KeyEvent::new(0xff09, 1).repr(), "Shift+Tab");
}

#[test]
fn roles_come_in_first_assignment_order() {
    let mut config = SchemeConfig::new()
        .with("c", Value::Bool(true))
        .with("a", Value::Count(1))
        .with("c", Value::Bool(false));
    config.set("b", Value::Text("x".to_string()));
    config.set("a", Value::Count(2));
    assert_eq!(config.roles(), vec!["c", "a", "b"]);
}

#[test]
fn hashes_are_sixteen_lowercase_hex_digits() {
    for text in ["", "a", "虎句", "tiger_sentence", "\u{1f}\u{0}"] {
        let digest = hash(text);
        assert_eq!(digest.len(), 16);
        assert!(digest.bytes().all(|c| c.is_ascii_digit() || (b'a'..=b'f').contains(&c)));
        assert_eq!(digest, hash_bytes(text.as_bytes()));
    }
    assert_eq!(hash_bytes(&[0xff, 0xfe]).len(), 16);
}

fn diff_item(text: &str, path: &[(usize, usize)]) -> DiffItem {
    DiffItem {
        text: text.to_string(),
        path: path
            .iter()
            .map(|&(raw_length, text_length)| DiffPathNode { raw_length, text_length })
            .collect(),
    }
}

#[test]
fn diff_events_lie_in_order_within_the_input() {
    let before = diff_item("甲乙丙", &[(6, 9), (4, 6), (2, 3)]);
    let selected = diff_item("丁乙戊", &[(6, 9), (4, 6), (2, 3)]);
    let events = diff(b"abcdef", Some(&before), Some(&selected), 0, "m");
    assert_eq!(events.len(), 2);
    for pair in events.windows(2) {
        assert!(pair[0].raw_end <= pair[1].raw_start);
    }
    for event in &events {
        assert!(event.raw_start < event.raw_end && event.raw_end <= 6);
        assert_eq!(&"丁乙戊"[event.text_start..event.text_end], event.text);
    }
    assert_eq!((events[0].raw_start, events[0].raw_end, events[0].text.as_str()), (0, 2, "丁"));
    assert_eq!((events[1].raw_start, events[1].raw_end, events[1].text.as_str()), (4, 6, "戊"));
}

#[test]
fn input_without_letters_has_no_completion() {
    let mut lexicon = Lexicon::new();
    lexicon.insert("12", vec![CodeEntry { text: "甲".to_string(), rank: 1 }]);
    assert!(!has_complete_candidate(&lexicon, "12", "", None, false, false, None));
    assert!(!has_complete_candidate(&lexicon, " \t", "", None, false, false, None));
}

#[test]
fn default_scheme_config_is_the_empty_bag() {
    let config = SchemeConfig::default();
    assert_eq!(config, SchemeConfig::new());
    assert!(config.roles().is_empty());
    assert_eq!(config.count("a"), None);
}
