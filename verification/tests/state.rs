use hux_core::interaction::{
    implicit_rank_allowed, EmptyCodePending, Lock, K_BUFFERED, K_COMMITTED, K_LOCKS, OPTION_EARLY_COMMIT_TO_PREEDIT,
};
use hux_core::session::Context;
use hux_core::state::{
    invalidate_edit_state, reset_early_evidence, submit_early, SentenceState, K_COMMITTED_RAW_LEGACY, K_COMMITTED_TEXT_LEGACY, K_CONFIDENCE_LEGACY,
    K_EVIDENCE_RAW_LEGACY, K_PROPOSAL_LEGACY, K_STABLE_LEGACY,
};

fn lock(raw: &str, text: &str, boundaries: &str) -> Lock {
    Lock {
        raw: raw.to_string(),
        text: text.to_string(),
        boundaries: boundaries.to_string(),
    }
}

fn pending() -> EmptyCodePending {
    EmptyCodePending {
        candidate_text: "甲".to_string(),
        requires_uniqueness_check: true,
        committed_text: String::new(),
        base_raw_length: 2,
        last_segment_start: 0,
    }
}

#[test]
fn fresh_state_is_empty() {
    let state = SentenceState::fresh(7);
    assert!(state.committed_text.is_empty());
    assert!(state.committed_raw.is_empty());
    assert!(state.buffered_text.is_empty());
    assert!(state.locks.is_empty());
    assert!(state.empty_code_pending.is_none());
    assert!(state.last_seen_raw.is_empty());
    assert_eq!(state.last_auto_commit_raw_length, 0);
    assert!(!state.suspended && !state.continuation_after_auto_commit && !state.tab_pending);
    assert_eq!(state.model_generation, 7);
    assert!(!state.legacy_cleared);
    assert!(state.active_lock().is_none());
}

#[test]
fn active_lock_is_the_last_lock() {
    let mut state = SentenceState::fresh(0);
    state.locks.push(lock("ab", "甲", "2,1;"));
    state.locks.push(lock("abcd", "甲乙", "2,1;4,2;"));
    assert_eq!(state.active_lock(), Some(&lock("abcd", "甲乙", "2,1;4,2;")));
}

#[test]
fn new_model_generation_drops_transient_evidence() {
    let mut state = SentenceState::fresh(1);
    state.committed_raw = "ab".to_string();
    state.last_seen_raw = "abc".to_string();
    state.empty_code_pending = Some(pending());
    assert!(!state.synchronize_model_state(1));
    assert_eq!(state.last_seen_raw, "abc");
    assert!(state.empty_code_pending.is_some());
    assert!(state.synchronize_model_state(2));
    assert_eq!(state.model_generation, 2);
    assert!(state.last_seen_raw.is_empty());
    assert!(state.empty_code_pending.is_none());
    assert_eq!(state.committed_raw, "ab", "已确认字段不随模型代次清空");
}

#[test]
fn save_writes_properties_and_clears_former_ones_once() {
    let mut context = Context::new();
    context.set_property(K_CONFIDENCE_LEGACY, "0.5");
    context.set_property(K_PROPOSAL_LEGACY, "甲");
    context.set_property(K_STABLE_LEGACY, "1");
    context.set_property(K_EVIDENCE_RAW_LEGACY, "ab");
    let mut state = SentenceState::fresh(0);
    state.committed_raw = "ab".to_string();
    state.committed_text = "你好".to_string();
    state.buffered_text = "x".to_string();
    state.locks.push(lock("ab", "你好", "2,2;"));
    state.save(&mut context);
    assert_eq!(context.get_property(K_COMMITTED), Some("ab\t你好"));
    assert_eq!(context.get_property(K_BUFFERED), Some("x"));
    assert_eq!(context.get_property(K_LOCKS), Some("2:ab6:你好4:2,2;"));
    for key in [K_CONFIDENCE_LEGACY, K_PROPOSAL_LEGACY, K_STABLE_LEGACY, K_EVIDENCE_RAW_LEGACY] {
        assert_eq!(context.get_property(key), None);
    }
    assert!(state.legacy_cleared);
    context.set_property(K_STABLE_LEGACY, "1");
    state.save(&mut context);
    assert_eq!(context.get_property(K_STABLE_LEGACY), Some("1"), "旧属性只清理一次");
}

#[test]
fn load_reads_back_what_save_wrote() {
    let mut context = Context::new();
    let mut saved = SentenceState::fresh(3);
    saved.committed_raw = "abcd".to_string();
    saved.committed_text = "甲乙".to_string();
    saved.buffered_text = "甲".to_string();
    saved.locks.push(lock("ab", "甲", "2,1;"));
    saved.locks.push(lock("abcd", "甲乙", "2,1;4,2;"));
    saved.save(&mut context);
    let mut loaded = SentenceState::fresh(3);
    loaded.load(&mut context, 3);
    assert_eq!(loaded.committed_raw, "abcd");
    assert_eq!(loaded.committed_text, "甲乙");
    assert_eq!(loaded.buffered_text, "甲");
    assert_eq!(loaded.locks, saved.locks);
    assert_eq!(loaded.model_generation, 3);
}

#[test]
fn load_moves_the_former_committed_pair() {
    let mut context = Context::new();
    context.set_property(K_COMMITTED_RAW_LEGACY, "ab");
    context.set_property(K_COMMITTED_TEXT_LEGACY, "甲");
    let mut state = SentenceState::fresh(0);
    state.last_seen_raw = "a".to_string();
    state.load(&mut context, 4);
    assert_eq!(state.committed_raw, "ab");
    assert_eq!(state.committed_text, "甲");
    assert_eq!(context.get_property(K_COMMITTED), Some("ab\t甲"));
    assert_eq!(context.get_property(K_COMMITTED_RAW_LEGACY), None);
    assert_eq!(context.get_property(K_COMMITTED_TEXT_LEGACY), None);
    assert_eq!(state.model_generation, 4);
    assert!(state.last_seen_raw.is_empty());
    let mut plain = Context::new();
    plain.set_property(K_COMMITTED, "no tab");
    let mut other = SentenceState::fresh(0);
    other.load(&mut plain, 0);
    assert!(other.committed_raw.is_empty() && other.committed_text.is_empty(), "无制表符时为空对");
}

#[test]
fn reset_saves_a_fresh_state() {
    let mut context = Context::new();
    let mut state = SentenceState::fresh(9);
    state.committed_raw = "ab".to_string();
    state.committed_text = "甲".to_string();
    state.buffered_text = "甲".to_string();
    state.locks.push(lock("ab", "甲", "2,1;"));
    state.tab_pending = true;
    state.save(&mut context);
    state.reset(&mut context, true);
    assert!(state.committed_raw.is_empty() && state.committed_text.is_empty());
    assert!(state.locks.is_empty() && !state.tab_pending);
    assert!(state.continuation_after_auto_commit);
    assert_eq!(state.model_generation, 9);
    assert_eq!(context.get_property(K_COMMITTED), Some("\t"));
    assert_eq!(context.get_property(K_BUFFERED), None);
    assert_eq!(context.get_property(K_LOCKS), None);
}

#[test]
fn edit_invalidates_uncommitted_locks_from_the_end() {
    let mut context = Context::new();
    let mut state = SentenceState::fresh(0);
    state.committed_raw = "ab".to_string();
    state.locks.push(lock("ab", "甲", "2,1;"));
    state.locks.push(lock("abcd", "甲乙", "2,1;4,2;"));
    state.tab_pending = true;
    state.last_seen_raw = "abcde".to_string();
    state.empty_code_pending = Some(pending());
    invalidate_edit_state(&mut context, &mut state, 3, 5);
    assert_eq!(state.locks, vec![lock("ab", "甲", "2,1;")], "已提交部分的锁保留");
    assert!(!state.tab_pending && state.last_seen_raw.is_empty() && state.empty_code_pending.is_none());
    assert_eq!(context.get_property(K_LOCKS), Some("2:ab3:甲4:2,1;"));
    let mut untouched = SentenceState::fresh(0);
    untouched.locks.push(lock("abcd", "甲乙", "2,1;4,2;"));
    invalidate_edit_state(&mut context, &mut untouched, 4, 6);
    assert_eq!(untouched.locks.len(), 1, "编辑在锁之后且未截短时保留");
    invalidate_edit_state(&mut context, &mut untouched, 4, 4);
    assert!(untouched.locks.is_empty(), "删除到锁边界即解锁");
}

#[test]
fn reset_early_evidence_keeps_the_confirmed_state() {
    let mut state = SentenceState::fresh(0);
    state.committed_raw = "ab".to_string();
    state.last_seen_raw = "abc".to_string();
    state.tab_pending = true;
    reset_early_evidence(&mut state);
    assert!(state.last_seen_raw.is_empty());
    assert_eq!(state.committed_raw, "ab");
    assert!(state.tab_pending);
}

#[test]
fn submit_early_hands_back_the_text_without_preedit() {
    let mut context = Context::new();
    let mut state = SentenceState::fresh(0);
    state.committed_raw = "ab".to_string();
    state.committed_text = "甲".to_string();
    assert_eq!(submit_early(&mut context, &mut state, "甲"), Some("甲".to_string()));
    assert!(state.buffered_text.is_empty() && state.locks.is_empty());
    assert_eq!(context.get_property(K_COMMITTED), None, "未写回上下文");
}

#[test]
fn submit_early_buffers_into_the_preedit() {
    let mut context = Context::new();
    context.set_option(OPTION_EARLY_COMMIT_TO_PREEDIT, true);
    let mut state = SentenceState::fresh(0);
    state.committed_raw = "abcd".to_string();
    state.committed_text = "甲乙".to_string();
    state.locks.push(lock("ab", "甲", "2,1;"));
    assert_eq!(submit_early(&mut context, &mut state, "乙"), None);
    assert_eq!(state.buffered_text, "乙");
    assert_eq!(state.locks, vec![lock("abcd", "甲乙", "4,6;")]);
    assert_eq!(context.get_property(K_BUFFERED), Some("乙"));
    assert_eq!(context.get_property(K_COMMITTED), Some("abcd\t甲乙"));
    let mut plain = Context::new();
    let mut buffered = SentenceState::fresh(0);
    buffered.buffered_text = "甲".to_string();
    assert_eq!(submit_early(&mut plain, &mut buffered, "乙"), None, "已有缓冲时继续写入预编辑");
    assert_eq!(buffered.buffered_text, "甲乙");
}

#[test]
fn implicit_rank_is_restricted_only_after_an_auto_commit() {
    assert!(implicit_rank_allowed(None, 5, b"ab", false, false));
    assert!(!implicit_rank_allowed(None, 5, b"ab", true, true));
    assert!(implicit_rank_allowed(None, 5, b"ab;", true, false), "显式选重");
    assert!(implicit_rank_allowed(None, 1, b"ab", true, false));
    assert!(implicit_rank_allowed(Some("甲"), 5, b"ab", true, true));
    assert!(!implicit_rank_allowed(Some("甲"), 5, b"ab", true, false));
    assert!(!implicit_rank_allowed(Some(""), 5, b"ab", true, true));
}
