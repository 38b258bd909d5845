use hux_core::session::{Candidate, Context, Event, Segment};

fn context_with_menu(texts: &[&str]) -> Context {
    let mut context = Context::new();
    context.set_input(b"ab");
    let mut segment = Segment {
        start: 0,
        end: 2,
        tags: vec!["abc".to_string()],
        prompt: String::new(),
        ..Segment::default()
    };
    for text in texts {
        segment
            .candidates
            .push(Candidate::new("sentence", 0, 2, text, ""));
    }
    context.composition.segments.push(segment);
    context.drain_events();
    context
}

#[test]
fn is_composing_includes_raw_input() {
    let mut context = Context::new();
    assert!(!context.is_composing());
    context.push_input(b"a");
    assert!(context.is_composing());
    assert!(context.commit());
    assert_eq!(context.last_commit_text(), "a");
    assert!(!context.is_composing());
}

#[test]
fn pop_input_rejects_out_of_range() {
    let mut context = Context::new();
    context.push_input(b"ab");
    context.set_caret(1);
    assert!(!context.pop_input(2));
    assert_eq!(context.input(), b"ab");
    assert!(context.pop_input(1));
    assert_eq!(context.input(), b"b");
}

#[test]
fn delete_input_rejects_out_of_range() {
    let mut context = Context::new();
    context.push_input(b"ab");
    context.set_caret(1);
    assert!(!context.delete_input(2));
    assert_eq!(context.input(), b"ab");
    context.drain_events();
    assert!(context.delete_input(0));
    assert_eq!(context.drain_events(), vec![Event::Update]);
}

#[test]
fn commit_text_uses_candidate_without_selected_flag() {
    let mut context = Context::new();
    context.set_input(b"abcd");
    context.composition.segments.push(Segment {
        start: 0,
        end: 2,
        candidates: vec![Candidate::new("sentence", 0, 2, "甲", "")],
        ..Segment::default()
    });
    assert_eq!(context.composition.commit_text(context.input()), "甲cd");
}

#[test]
fn commit_text_appends_uncovered_input() {
    let mut context = Context::new();
    context.set_input(b"abcd");
    context.composition.segments.push(Segment {
        start: 0,
        end: 2,
        ..Segment::default()
    });
    assert_eq!(context.composition.commit_text(context.input()), "abcd");
}

#[test]
fn empty_menu_highlight_resets_selection() {
    let mut context = Context::new();
    context.composition.segments.push(Segment::default());
    context.composition.segments[0].selected_index = 2;
    assert!(context.highlight(0));
    assert_eq!(context.composition.segments[0].selected_index, 0);
}

#[test]
fn edits_follow_byte_caret_semantics() {
    let mut context = Context::new();
    context.push_input(b"ab");
    context.set_caret(1);
    context.push_input(b"x");
    assert_eq!(context.input(), b"axb");
    assert_eq!(context.caret(), 2);
    assert!(context.pop_input(1));
    assert_eq!(context.input(), b"ab");
    assert_eq!(context.caret(), 1);
    assert!(context.delete_input(1));
    assert_eq!(context.input(), b"a");
    assert!(!context.delete_input(1));
    context.set_input(b"xyz");
    assert_eq!(context.caret(), 3);
    context.set_caret(99);
    assert_eq!(context.caret(), 3);
}

#[test]
fn highlight_clamps_and_reports_changes() {
    let mut context = context_with_menu(&["甲", "乙", "丙"]);
    assert!(context.highlight(1));
    assert_eq!(context.composition.back().unwrap().selected_index, 1);
    assert!(!context.highlight(1));
    assert!(context.highlight(99));
    assert_eq!(context.composition.back().unwrap().selected_index, 2);
}

#[test]
fn set_option_notifies_unconditionally() {
    let mut context = Context::new();
    context.set_option("t", true);
    assert_eq!(context.drain_events(), vec![Event::Option("t".to_string())]);
    context.set_option("t", true);
    assert_eq!(context.drain_events(), vec![Event::Option("t".to_string())]);
}

#[test]
fn empty_menu_highlight_fails() {
    let mut context = Context::new();
    assert!(!context.highlight(0));
    context.composition.segments.push(Segment::default());
    assert!(!context.highlight(0));
    assert!(!context.confirm_current_selection());
}

#[test]
fn buffered_marker_live_views() {
    let mut context = Context::new();
    context.set_buffered(true);
    context.set_input(b"~ab");
    assert_eq!(context.live_input(), b"ab");
    context.set_caret(2);
    assert_eq!(context.live_caret(), 1);
    context.set_buffered(false);
    assert_eq!(context.live_input(), b"~ab");
    assert_eq!(context.live_caret(), 2);
}

#[test]
fn commit_text_spans_selected_and_raw_segments() {
    let mut context = Context::new();
    context.set_input(b"abcd");
    context.composition.segments.push(Segment {
        start: 0,
        end: 2,
        selected: true,
        candidates: vec![Candidate::new("sentence", 0, 2, "甲", "")],
        selected_index: 0,
        tags: Vec::new(),
        prompt: String::new(),
        translated: true,
    });
    context.composition.segments.push(Segment {
        start: 2,
        end: 4,
        ..Segment::default()
    });
    assert_eq!(context.composition.commit_text(context.input()), "甲cd");
}

#[test]
fn refresh_pops_open_tail_only() {
    let mut context = context_with_menu(&["甲"]);
    context.composition.segments[0].selected = true;
    assert!(!context.refresh_non_confirmed_composition());
    context.composition.segments.push(Segment::default());
    assert!(context.refresh_non_confirmed_composition());
    assert_eq!(context.composition.segments.len(), 2);
    assert!(context.composition.segments[0].selected);
    assert_eq!(context.composition.segments[1].start, 2);
    assert_eq!(context.composition.segments[1].end, 2);
}

#[test]
fn confirm_current_selection_accepts_highlight() {
    let mut context = context_with_menu(&["甲", "乙"]);
    context.highlight(1);
    assert!(context.confirm_current_selection());
    let segment = context.composition.back().unwrap();
    assert_eq!(segment.selected_index, 1);
    assert!(segment.selected);
}

#[test]
fn commit_emits_text_and_clears() {
    let mut context = context_with_menu(&["甲", "乙"]);
    context.highlight(1);
    assert!(context.confirm_current_selection());
    let expected = context.composition.commit_text(context.input());
    context.drain_events();
    assert!(context.commit());
    assert_eq!(context.last_commit_text(), expected);
    assert!(!context.is_composing());
    assert!(context.input().is_empty());
    let events = context.drain_events();
    assert!(
        matches!(events.first(), Some(Event::Commit(text)) if *text == expected),
        "提交应先派发 Commit：{events:?}"
    );
    assert!(matches!(events.get(1), Some(Event::Update)));
}

#[test]
fn refresh_keeps_selected_segments() {
    let mut context = context_with_menu(&["甲"]);
    context.composition.segments[0].selected = true;
    context.composition.segments.push(Segment::default());
    assert!(context.refresh_non_confirmed_composition());
    assert_eq!(context.composition.segments.len(), 2);
    assert!(context.composition.segments[0].selected);
}

#[test]
fn back_mut_edits_the_last_segment_in_place() {
    let mut context = context_with_menu(&["甲", "乙"]);
    context.composition.segments.insert(
        0,
        Segment {
            start: 0,
            end: 0,
            ..Segment::default()
        },
    );
    if let Some(segment) = context.composition.back_mut() {
        segment.selected_index = 1;
        segment.selected = true;
    }
    let segments = &context.composition.segments;
    assert_eq!(segments.len(), 2);
    assert_eq!(segments[1].selected_index, 1);
    assert!(segments[1].selected);
    assert!(!segments[0].selected);
    let mut empty = Context::new();
    assert!(empty.composition.back_mut().is_none());
}

#[test]
fn punct_pairs_state_lives_with_the_context() {
    let mut first = Context::new();
    let second = Context::new();
    assert!(!first.punct_pairs().toggle('"', false));
    assert!(first.punct_pairs().toggle('"', false));
    assert!(!first.punct_pairs().toggle('"', false));
    let mut second = second;
    assert!(!second.punct_pairs().toggle('"', false), "每个上下文各自交替");
}

#[test]
fn composition_positions() {
    let mut context = Context::new();
    context.set_input(b"abcd");
    assert_eq!(context.composition.current_start_position(), 0);
    assert!(!context.composition.has_finished_segmentation(context.input()));
    assert_eq!(context.composition.confirmed_position(), 0);
    context.composition.segments.push(Segment {
        start: 0,
        end: 2,
        selected: true,
        ..Segment::default()
    });
    context.composition.segments.push(Segment {
        start: 2,
        end: 4,
        ..Segment::default()
    });
    assert_eq!(context.composition.current_start_position(), 2);
    assert!(context.composition.has_finished_segmentation(context.input()));
    assert_eq!(context.composition.confirmed_position(), 2, "末个已确认段的终点");
    assert!(!context.is_buffered());
    context.set_buffered(true);
    assert!(context.is_buffered());
}
