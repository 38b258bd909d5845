use hux_core::decode::CodeEntry;
use hux_core::early_commit::{
    advance_tracker, book_prefix, commit_mature_prefix, early_commit_gate, empty_code_commit_begin, evidence_round,
    tracker_after_gap, tracker_key, empty_code_commit_finish, empty_code_commit_step, mature_prefix_commit_finish,
    mature_retain, tracker_qualifies,
};
use hux_core::interaction::{EarlyCommitParams, EmptyCodePending, OPTION_EARLY_COMMIT, OPTION_EARLY_COMMIT_TO_PREEDIT};
use hux_core::lexicon::Lexicon;
use hux_core::session::Context;
use hux_core::state::{SentenceState, Tracker};
use hux_core::tables::TrackerTable;

fn entry(text: &str, rank: u32) -> CodeEntry {
    CodeEntry { text: text.to_string(), rank }
}

fn dictionary(codes: &[(&str, &[(&str, u32)])]) -> Lexicon {
    let mut lexicon = Lexicon::new();
    for (code, entries) in codes {
        lexicon.insert(code, entries.iter().map(|&(text, rank)| entry(text, rank)).collect());
    }
    lexicon
}

fn pending(candidate: &str, unique: bool) -> EmptyCodePending {
    EmptyCodePending {
        candidate_text: candidate.to_string(),
        requires_uniqueness_check: unique,
        committed_text: String::new(),
        base_raw_length: 2,
        last_segment_start: 0,
    }
}

fn params(min_retained: usize) -> EarlyCommitParams {
    EarlyCommitParams { allow_duplicate_single: true, generation: 0, min_retained }
}

fn typed(input: &[u8]) -> Context {
    let mut context = Context::new();
    context.set_option(OPTION_EARLY_COMMIT, true);
    context.set_input(input);
    context.set_caret(input.len());
    context
}

#[test]
fn proper_prefixes_are_those_of_the_codes() {
    let lexicon = dictionary(&[("abc", &[("甲", 1)]), ("x", &[("乙", 1)])]);
    assert!(lexicon.is_proper_code_prefix(b"a"));
    assert!(lexicon.is_proper_code_prefix(b"ab"));
    assert!(!lexicon.is_proper_code_prefix(b"abc"));
    assert!(!lexicon.is_proper_code_prefix(b"x"));
    assert!(!lexicon.is_proper_code_prefix(b""));
}

#[test]
fn empty_code_commit_needs_early_commit_on() {
    let mut context = Context::new();
    let mut state = SentenceState::fresh(0);
    state.empty_code_pending = Some(pending("交", false));
    assert!(!empty_code_commit_begin(&context, &mut state, 0));
    assert!(state.empty_code_pending.is_none());
    context.set_option(OPTION_EARLY_COMMIT, true);
    assert!(empty_code_commit_begin(&context, &mut state, 0));
    state.suspended = true;
    assert!(!empty_code_commit_begin(&context, &mut state, 0));
    state.suspended = false;
    assert!(!empty_code_commit_begin(&context, &mut state, 1));
    assert_eq!(state.model_generation, 1);
}

#[test]
fn empty_code_commits_the_candidate_and_keeps_the_new_letter() {
    let lexicon = dictionary(&[("ab", &[("交", 1)])]);
    let mut context = typed(b"abx");
    let mut state = SentenceState::fresh(0);
    let committed = empty_code_commit_step(
        &lexicon,
        &mut context,
        &mut state,
        b"ab",
        b"x",
        Some(pending("交", false)),
        params(0),
    )
    .expect("commit");
    assert_eq!(committed.commit, "交");
    assert_eq!(committed.submitted.as_deref(), Some("交"));
    assert_eq!(committed.retained_raw, b"x".to_vec());
    assert_eq!(committed.base_raw_length, 2);
    assert_eq!(state.committed_text, "交");
    assert_eq!(state.committed_raw, "ab");
    let mut kept = state.committed_raw.as_bytes().to_vec();
    kept.extend_from_slice(&committed.retained_raw);
    assert_eq!(kept, b"abx".to_vec());
    assert_eq!(state.last_auto_commit_raw_length, 2);
    assert!(state.continuation_after_auto_commit);
    assert!(state.empty_code_pending.is_none());
    assert!(!empty_code_commit_finish(&mut context, &mut state, &committed));
    assert_eq!(context.input(), b"x");
    assert_eq!(context.get_property("tiger_sentence_committed"), Some("ab\t交"));
}

#[test]
fn empty_code_commit_waits_while_the_input_may_still_grow_into_a_code() {
    let lexicon = dictionary(&[("ab", &[("交", 1)]), ("abxy", &[("疒", 1)])]);
    let mut context = typed(b"abx");
    let mut state = SentenceState::fresh(0);
    assert!(empty_code_commit_step(&lexicon, &mut context, &mut state, b"ab", b"x", Some(pending("交", false)), params(0))
        .is_none());
    assert_eq!(state.empty_code_pending.as_ref().map(|p| p.candidate_text.as_str()), Some("交"));
    assert_eq!(context.input(), b"abx");
    let mut context = typed(b"abx");
    let mut state = SentenceState::fresh(0);
    let lexicon = lexicon_plain();
    assert!(empty_code_commit_step(&lexicon, &mut context, &mut state, b"ab", b"x", Some(pending("交", false)), params(2))
        .is_none());
    assert!(state.empty_code_pending.is_some());
}

fn lexicon_plain() -> Lexicon {
    dictionary(&[("ab", &[("交", 1)])])
}

#[test]
fn empty_code_commit_drops_a_candidate_that_no_longer_applies() {
    let lexicon = dictionary(&[("ab", &[("交", 1)]), ("abx", &[("乙", 1)])]);
    let mut context = typed(b"abx");
    let mut state = SentenceState::fresh(0);
    assert!(empty_code_commit_step(&lexicon, &mut context, &mut state, b"ab", b"x", Some(pending("交", false)), params(0))
        .is_none());
    assert!(state.empty_code_pending.is_none());

    let lexicon = lexicon_plain();
    let mut context = typed(b"abx");
    let mut state = SentenceState::fresh(0);
    assert!(empty_code_commit_step(&lexicon, &mut context, &mut state, b"ab", b"y", Some(pending("交", false)), params(0))
        .is_none());
    assert!(state.empty_code_pending.is_none());

    let lexicon = dictionary(&[("ab", &[("交", 1), ("疒", 1)])]);
    let mut context = typed(b"abx");
    let mut state = SentenceState::fresh(0);
    assert!(empty_code_commit_step(&lexicon, &mut context, &mut state, b"ab", b"x", Some(pending("交", true)), params(0))
        .is_none());
    assert!(state.empty_code_pending.is_none());
}

#[test]
fn empty_code_commit_of_digits_arms_the_decimal_point() {
    let lexicon = dictionary(&[("ab", &[("12", 1)])]);
    let mut context = typed(b"abx");
    let mut state = SentenceState::fresh(0);
    let committed = empty_code_commit_step(&lexicon, &mut context, &mut state, b"ab", b"x", Some(pending("12", false)), params(0))
        .expect("commit");
    assert!(empty_code_commit_finish(&mut context, &mut state, &committed));
}

#[test]
fn empty_code_commit_into_the_preedit_buffers_the_text() {
    let lexicon = dictionary(&[("ab", &[("交", 1)])]);
    let mut context = typed(b"abx");
    context.set_option(OPTION_EARLY_COMMIT_TO_PREEDIT, true);
    let mut state = SentenceState::fresh(0);
    let committed = empty_code_commit_step(&lexicon, &mut context, &mut state, b"ab", b"x", Some(pending("交", false)), params(0))
        .expect("commit");
    assert!(committed.submitted.is_none());
    assert_eq!(state.buffered_text, "交");
    assert_eq!(state.locks.len(), 1);
    assert_eq!(state.locks[0].raw, "ab");
    assert_eq!(state.locks[0].text, "交");
    assert_eq!(state.locks[0].boundaries, "2,3;");
    assert_eq!(context.get_property("tiger_sentence_buffered"), Some("交"));
}

fn tracker(text: &str, raw_length: usize, evidence_count: usize, strong_count: usize) -> Tracker {
    Tracker {
        text: text.to_string(),
        text_char_count: text.chars().count(),
        raw_length,
        evidence_count,
        strong_count,
        gap_count: 0,
        last_share_bits: 0,
    }
}

#[test]
fn mature_prefix_retains_at_least_the_default() {
    assert_eq!(mature_retain(0), 3);
    assert_eq!(mature_retain(2), 3);
    assert_eq!(mature_retain(5), 5);
}

#[test]
fn trackers_qualify_with_complete_evidence_and_room_left() {
    let mut state = SentenceState::fresh(0);
    state.committed_text = "甲".to_string();
    state.committed_raw = "ab".to_string();
    assert!(tracker_qualifies(&state, &tracker("甲乙", 4, 3, 0), 8, 3, None));
    assert!(tracker_qualifies(&state, &tracker("甲乙", 4, 0, 2), 8, 3, Some("甲乙丙")));
    assert!(!tracker_qualifies(&state, &tracker("甲乙", 4, 2, 1), 8, 3, None));
    assert!(!tracker_qualifies(&state, &tracker("甲乙", 6, 3, 0), 8, 3, None));
    assert!(!tracker_qualifies(&state, &tracker("甲乙", 2, 3, 0), 8, 3, None));
    assert!(!tracker_qualifies(&state, &tracker("丙乙", 4, 3, 0), 8, 3, None));
    assert!(!tracker_qualifies(&state, &tracker("甲乙", 4, 3, 0), 8, 3, Some("甲丙")));
    assert!(!tracker_qualifies(&state, &tracker("甲", 4, 3, 0), 8, 3, None));
}

#[test]
fn mature_prefix_is_committed_and_the_rest_stays() {
    let mut context = typed(b"abcdefg");
    let mut state = SentenceState::fresh(0);
    state.last_seen_raw = "abcdefg".to_string();
    let committed = commit_mature_prefix(&mut context, &mut state, b"abcdefg", "甲乙", 4).expect("commit");
    assert_eq!(committed.commit, "甲乙");
    assert_eq!(committed.submitted.as_deref(), Some("甲乙"));
    assert_eq!(committed.retained_raw, b"efg".to_vec());
    assert_eq!(state.committed_text, "甲乙");
    assert_eq!(state.committed_raw, "abcd");
    assert_eq!(state.last_auto_commit_raw_length, 4);
    assert!(state.last_seen_raw.is_empty());
    assert_eq!(context.get_property("tiger_sentence_committed"), Some("abcd\t甲乙"));
    assert!(!mature_prefix_commit_finish(&mut context, &committed));
    assert_eq!(context.input(), b"efg");
}

#[test]
fn mature_prefix_waits_for_enough_new_input_and_new_text() {
    let mut context = typed(b"abcdefg");
    let mut state = SentenceState::fresh(0);
    state.last_auto_commit_raw_length = 5;
    assert!(commit_mature_prefix(&mut context, &mut state, b"abcdefg", "甲乙", 4).is_none());
    assert_eq!(state.last_auto_commit_raw_length, 5);
    let mut state = SentenceState::fresh(0);
    state.committed_text = "甲乙".to_string();
    assert!(commit_mature_prefix(&mut context, &mut state, b"abcdefg", "甲乙", 4).is_none());
    assert_eq!(state.committed_raw, "");
}

#[test]
fn early_commit_gate_needs_the_caret_at_the_end_and_enough_input() {
    let mut state = SentenceState::fresh(0);
    state.last_seen_raw = "abc".to_string();
    let context = typed(b"abcde");
    assert_eq!(early_commit_gate(&context, &mut state), Some(b"abcde".to_vec()));
    assert_eq!(state.last_seen_raw, "abc");
    let context = typed(b"abcd");
    assert_eq!(early_commit_gate(&context, &mut state), None);
    assert!(state.last_seen_raw.is_empty());
    state.committed_raw = "ab".to_string();
    assert_eq!(early_commit_gate(&context, &mut state), Some(b"ababcd".to_vec()));
    let mut context = typed(b"abcdef");
    context.set_caret(2);
    assert_eq!(early_commit_gate(&context, &mut state), None);
    let mut context = typed(b"abcdef");
    context.set_option(OPTION_EARLY_COMMIT, false);
    assert_eq!(early_commit_gate(&context, &mut state), None);
}

#[test]
fn evidence_rounds_keep_trackers_only_while_the_input_grows_by_one() {
    let mut state = SentenceState::fresh(0);
    assert!(!evidence_round(&mut state, "abcde", 5));
    assert_eq!(state.last_seen_raw, "abcde");
    assert!(evidence_round(&mut state, "abcde", 5));
    assert!(!evidence_round(&mut state, "abcdef", 6));
    assert_eq!(state.last_seen_raw, "abcdef");
    assert!(!evidence_round(&mut state, "abcdxyz", 7));
    assert_eq!(state.last_seen_raw, "abcdxyz");
}

#[test]
fn trackers_count_evidence_up_to_what_a_commit_needs() {
    let mut current = tracker("甲乙", 4, 0, 0);
    current.gap_count = 2;
    let next = advance_tracker(current.clone(), true, 7);
    assert_eq!((next.evidence_count, next.strong_count, next.gap_count, next.last_share_bits), (1, 1, 0, 7));
    let next = advance_tracker(advance_tracker(advance_tracker(next, true, 1), true, 2), false, 3);
    assert_eq!((next.evidence_count, next.strong_count), (3, 0));
    let kept = tracker_after_gap(current.clone(), 9).expect("kept");
    assert_eq!((kept.gap_count, kept.last_share_bits), (3, 9));
    assert!(tracker_after_gap(kept, 9).is_none());
}

#[test]
fn booked_prefixes_carry_their_evidence_into_the_next_round() {
    assert_eq!(tracker_key("甲乙", 4), "甲乙\u{1f}4");
    let previous = TrackerTable::new();
    let mut next = TrackerTable::new();
    book_prefix(&previous, &mut next, "甲乙", 2, 4, true, 5);
    let booked = next.get("甲乙\u{1f}4").expect("booked");
    assert_eq!((booked.text.as_str(), booked.text_char_count, booked.raw_length), ("甲乙", 2, 4));
    assert_eq!((booked.evidence_count, booked.strong_count, booked.gap_count, booked.last_share_bits), (1, 1, 0, 5));
    let mut third = TrackerTable::new();
    book_prefix(&next, &mut third, "甲乙", 2, 4, false, 6);
    let booked = third.get("甲乙\u{1f}4").expect("booked");
    assert_eq!((booked.evidence_count, booked.strong_count, booked.last_share_bits), (2, 0, 6));
    assert!(third.get("甲乙\u{1f}3").is_none());
}
