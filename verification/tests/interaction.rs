use hux_core::decode::{beam_limit_at, BEAM_WIDTH, LONG_INPUT_BEAM_WIDTH};
use hux_core::interaction::{
    auto_commit_matches_visible_top, common_text_prefix, cycle_candidate_highlight, input_caret, prefix_extends,
    restore_composition_input, set_allow_duplicate_single, K_BUFFERED, OPTION_ALLOW_DUPLICATE_SINGLE,
};
use hux_core::key::{modifier_name, K_CONTROL_MASK, K_RELEASE_MASK, K_SHIFT_MASK};
use hux_core::learning::{code_valid, context_valid, mode_valid, utf8_len_at};
use hux_core::session::{Candidate, Context, Segment};

fn with_menu(count: usize) -> Context {
    let mut context = Context::new();
    context.set_input(b"ab");
    let mut segment = Segment {
        start: 0,
        end: 2,
        translated: true,
        ..Segment::default()
    };
    for i in 0..count {
        segment.candidates.push(Candidate::new("sentence", 0, 2, &format!("候{i}"), ""));
    }
    context.composition.segments.push(segment);
    context
}

#[test]
fn common_prefix_and_prefix_relations() {
    assert_eq!(common_text_prefix("甲乙丙", "甲乙丁"), "甲乙");
    assert_eq!(common_text_prefix("", "甲"), "");
    assert_eq!(common_text_prefix("甲", "乙"), "");
    assert!(prefix_extends("abc", "ab"));
    assert!(prefix_extends("ab", "abc"));
    assert!(!prefix_extends("ab", "ac"));
    assert!(auto_commit_matches_visible_top(None, "甲"));
    assert!(auto_commit_matches_visible_top(Some("甲乙"), "甲"));
    assert!(!auto_commit_matches_visible_top(Some("甲乙"), "乙"));
}

#[test]
fn input_caret_and_restore_follow_the_buffer_marker() {
    let mut plain = Context::new();
    plain.set_input(b"ab");
    plain.set_caret(1);
    assert_eq!(input_caret(&plain), 1);
    restore_composition_input(&mut plain, b"xyz");
    assert_eq!(plain.input(), b"xyz");
    let mut buffered = Context::new();
    buffered.set_property(K_BUFFERED, "甲");
    buffered.set_input(b"~ab");
    assert_eq!(input_caret(&buffered), 2, "缓冲态下 caret 含标记，减一");
    restore_composition_input(&mut buffered, b"cd");
    assert_eq!(buffered.input(), b"~cd");
}

#[test]
fn duplicate_single_option_defaults_to_on() {
    let mut context = Context::new();
    assert!(set_allow_duplicate_single(&context));
    context.set_option(OPTION_ALLOW_DUPLICATE_SINGLE, false);
    assert!(!set_allow_duplicate_single(&context));
}

#[test]
fn highlight_cycles_around_the_menu() {
    let mut context = with_menu(3);
    assert!(cycle_candidate_highlight(&mut context, -1));
    assert_eq!(context.composition.segments[0].selected_index, 2);
    assert!(cycle_candidate_highlight(&mut context, 4));
    assert_eq!(context.composition.segments[0].selected_index, 0);
    let mut empty = Context::new();
    assert!(!cycle_candidate_highlight(&mut empty, 1));
}

#[test]
fn modifier_names_and_beam_widths() {
    assert_eq!(modifier_name(K_SHIFT_MASK | K_CONTROL_MASK), Some("Shift"));
    assert_eq!(modifier_name(K_CONTROL_MASK), Some("Control"));
    assert_eq!(modifier_name(K_RELEASE_MASK), Some("Release"));
    assert_eq!(modifier_name(1 << 20), None);
    assert_eq!(modifier_name(0), None);
    assert_eq!(beam_limit_at(24), BEAM_WIDTH);
    assert_eq!(beam_limit_at(25), LONG_INPUT_BEAM_WIDTH);
}

#[test]
fn record_field_checks() {
    assert!(mode_valid("sentence-v1"));
    assert!(!mode_valid(""));
    assert!(!mode_valid(&"m".repeat(513)));
    assert!(code_valid(&"a".repeat(128)));
    assert!(!code_valid(&"a".repeat(129)));
    assert!(context_valid(""));
    assert!(context_valid("甲乙"));
    assert!(!context_valid("甲乙丙"));
    assert_eq!(utf8_len_at("a甲".as_bytes(), 0), Some(1));
    assert_eq!(utf8_len_at("a甲".as_bytes(), 1), Some(3));
    assert_eq!(utf8_len_at("a甲".as_bytes(), 2), None, "续字节不是字符起点");
    assert_eq!(utf8_len_at(b"a", 1), None);
}
