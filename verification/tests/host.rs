use hux_core::host::{paging_action, process_key, CommitObserver, HostOptions, HostResult, NoObserver, PagingDir};
use hux_core::key::{KeyEvent, K_CONTROL_MASK, K_SHIFT_MASK};
use hux_core::punct::PunctTable;
use hux_core::session::{Candidate, Context, Event, Segment};

#[derive(Default)]
struct Recorder {
    calls: usize,
}

impl CommitObserver for Recorder {
    fn on_commit(&mut self, _context: &Context, _commit_text: &str) {
        self.calls += 1;
    }
}

fn context_with_menu(texts: &[&str], highlight: usize) -> Context {
    let mut context = Context::new();
    context.set_input(b"ab");
    let mut segment = Segment {
        start: 0,
        end: 2,
        tags: vec!["abc".to_string()],
        translated: true,
        selected_index: highlight,
        ..Segment::default()
    };
    for text in texts {
        segment
            .candidates
            .push(Candidate::new("sentence", 0, 2, text, ""));
    }
    context.composition.segments.push(segment);
    context.drain_events();
    context
}

fn process(
    context: &mut Context,
    repr: &str,
    punct: Option<&PunctTable>,
    options: &HostOptions,
) -> HostResult {
    let key = KeyEvent::from_repr(repr).expect("key repr");
    process_key(&key, context, punct, options, &mut NoObserver::new())
}

fn press(context: &mut Context, repr: &str) -> HostResult {
    press_with(context, repr, &HostOptions::default())
}

fn press_with(context: &mut Context, repr: &str, options: &HostOptions) -> HostResult {
    process(context, repr, None, options)
}

fn selected(context: &Context) -> usize {
    context.composition.back().unwrap().selected_index
}

fn custom_page_options(page_size: usize) -> HostOptions {
    HostOptions {
        page_size,
        page_up_keys: vec![KeyEvent::from_repr("comma").expect("key")],
        page_down_keys: vec![KeyEvent::from_repr("period").expect("key")],
        page_cycle: false,
    }
}

fn key_of(repr: &str) -> KeyEvent {
    KeyEvent::from_repr(repr).expect("key repr")
}

#[test]
fn editor_commits_composition_on_uppercase_then_passes() {
    let mut context = context_with_menu(&["甲", "乙"], 0);
    assert_eq!(press(&mut context, "A"), HostResult::Forward);
    assert_eq!(context.last_commit_text(), "甲");
    assert!(context.input().is_empty());
}

#[test]
fn editor_passes_uppercase_when_idle() {
    let mut context = Context::new();
    assert_eq!(press(&mut context, "A"), HostResult::Forward);
    assert_eq!(context.last_commit_text(), "");
}

fn punct_table() -> PunctTable {
    PunctTable::parse(
        "punctuator:\n  half_shape:\n    \",\": { commit: ， }\n    \"'\": { pair: [ \"‘\", \"’\" ] }\n",
    )
    .expect("punct table")
}

#[test]
fn punctuator_commits_standalone_punct() {
    let table = punct_table();
    let mut context = Context::new();
    assert_eq!(
        process(&mut context, "comma", Some(&table), &HostOptions::default()),
        HostResult::Consumed
    );
    assert_eq!(context.last_commit_text(), "，");
}

#[test]
fn punctuator_appends_to_composition_text() {
    let table = punct_table();
    let mut context = context_with_menu(&["甲", "乙"], 0);
    assert_eq!(
        process(&mut context, "comma", Some(&table), &HostOptions::default()),
        HostResult::Consumed
    );
    assert_eq!(context.last_commit_text(), "甲，");
    assert!(context.input().is_empty());
}

#[test]
fn punctuator_pair_alternates() {
    let table = punct_table();
    let mut context = Context::new();
    for text in ["‘", "’"] {
        assert_eq!(
            process(
                &mut context,
                "apostrophe",
                Some(&table),
                &HostOptions::default()
            ),
            HostResult::Consumed
        );
        assert_eq!(context.last_commit_text(), text);
    }
}

#[test]
fn punctuator_passes_unmapped_key() {
    let table = punct_table();
    let mut context = Context::new();
    assert_eq!(
        process(&mut context, "space", Some(&table), &HostOptions::default()),
        HostResult::Forward
    );
}

#[test]
fn punctuator_without_table_passes() {
    let mut context = Context::new();
    assert_eq!(
        process(&mut context, "comma", None, &HostOptions::default()),
        HostResult::Forward
    );
}

#[test]
fn punctuator_at_mid_caret_commits_only_up_to_the_punctuation() {
    let table = punct_table();
    let mut context = Context::new();
    context.set_input(b"ab");
    context.set_caret(1);
    context.drain_events();
    assert_eq!(
        process(&mut context, "comma", Some(&table), &HostOptions::default()),
        HostResult::Consumed
    );
    assert_eq!(context.last_commit_text(), "a，", "只提交 caret 之前的前缀");
    assert!(context.input().is_empty());
    assert_eq!(context.caret(), 0);
}

#[test]
fn selector_moves_highlight_without_wrapping() {
    let mut context = context_with_menu(&["甲", "乙"], 0);
    assert_eq!(press(&mut context, "Up"), HostResult::Consumed);
    assert_eq!(selected(&context), 0);
    assert_eq!(press(&mut context, "Down"), HostResult::Consumed);
    assert_eq!(selected(&context), 1);
    assert_eq!(press(&mut context, "Down"), HostResult::Consumed);
    assert_eq!(selected(&context), 1);
}

#[test]
fn selector_end_at_tail_returns_to_first() {
    let mut context = context_with_menu(&["甲", "乙"], 1);
    assert_eq!(press(&mut context, "End"), HostResult::Consumed);
    assert_eq!(selected(&context), 0);
}

#[test]
fn selector_pages_by_default_page_size() {
    let mut context = context_with_menu(&["a", "b", "c", "d", "e", "f"], 0);
    assert_eq!(press(&mut context, "Page_Down"), HostResult::Consumed);
    assert_eq!(selected(&context), 5);
    assert_eq!(press(&mut context, "Page_Up"), HostResult::Consumed);
    assert_eq!(selected(&context), 0);
}

#[test]
fn selector_page_down_is_noop_on_single_page() {
    let mut small = context_with_menu(&["甲", "乙"], 0);
    assert_eq!(press(&mut small, "Page_Down"), HostResult::Consumed);
    assert_eq!(selected(&small), 0);
}

#[test]
fn selector_page_cycle_wraps_next_page_only() {
    let mut options = custom_page_options(2);
    options.page_cycle = true;
    let mut context = context_with_menu(&["a", "b", "c", "d", "e"], 0);
    assert_eq!(
        press_with(&mut context, "period", &options),
        HostResult::Consumed
    );
    assert_eq!(selected(&context), 2);
    assert_eq!(
        press_with(&mut context, "period", &options),
        HostResult::Consumed
    );
    assert_eq!(selected(&context), 4);
    assert_eq!(
        press_with(&mut context, "period", &options),
        HostResult::Consumed
    );
    assert_eq!(selected(&context), 0);
    assert_eq!(
        press_with(&mut context, "comma", &options),
        HostResult::Consumed
    );
    assert_eq!(selected(&context), 0, "上翻方向不循环");
}

#[test]
fn selector_page_up_home_resets_highlight_without_a_write_only_tag() {
    let options = custom_page_options(2);
    let mut context = context_with_menu(&["a", "b", "c", "d", "e"], 1);
    assert_eq!(
        press_with(&mut context, "Page_Up", &options),
        HostResult::Consumed
    );
    assert_eq!(
        selected(&context),
        0,
        "首页上翻归零高亮"
    );
    assert!(
        !context
            .composition
            .back()
            .is_some_and(|segment| segment.has_tag("paging")),
        "本仓不再写 `paging` 标签（唯一读取方已删除，见 `paging_action`）"
    );
}

#[test]
fn page_up_key_holds_at_the_first_page() {
    let options = HostOptions::default();
    let mut context = context_with_menu(&["a", "b", "c", "d", "e", "f"], 0);
    assert_eq!(
        paging_action(&context, &options, &key_of("minus")),
        Some(PagingDir::Up),
        "菜单可见即判上翻页（不要求 `paging` 标签）"
    );
    assert_eq!(press(&mut context, "Page_Up"), HostResult::Consumed);
    assert_eq!(
        paging_action(&context, &options, &key_of("minus")),
        Some(PagingDir::Up),
        "首页上翻后判据不变（高亮仍 0，菜单仍在）"
    );
    assert_eq!(press(&mut context, "minus"), HostResult::Consumed);
    assert_eq!(context.last_commit_text(), "");
    assert_eq!(context.input(), b"ab");
    assert_eq!(selected(&context), 0);
}

#[test]
fn selector_page_does_not_wrap_by_default() {
    let options = custom_page_options(2);
    let mut context = context_with_menu(&["a", "b", "c", "d", "e"], 0);
    for expected in [2, 4, 4] {
        assert_eq!(
            press_with(&mut context, "period", &options),
            HostResult::Consumed
        );
        assert_eq!(selected(&context), expected);
    }
    for expected in [2, 0, 0] {
        assert_eq!(
            press_with(&mut context, "comma", &options),
            HostResult::Consumed
        );
        assert_eq!(selected(&context), expected);
    }
}

#[test]
fn selector_uses_configured_page_keys() {
    let options = custom_page_options(2);
    let mut context = context_with_menu(&["a", "b", "c", "d", "e", "f"], 0);
    assert_eq!(
        press_with(&mut context, "period", &options),
        HostResult::Consumed
    );
    assert_eq!(selected(&context), 2);
    assert_eq!(
        press_with(&mut context, "comma", &options),
        HostResult::Consumed
    );
    assert_eq!(selected(&context), 0);
}

#[test]
fn selector_ignores_unconfigured_page_key() {
    let options = custom_page_options(2);
    let mut context = context_with_menu(&["a", "b", "c", "d", "e", "f"], 0);
    assert_eq!(
        press_with(&mut context, "equal", &options),
        HostResult::Forward
    );
}

#[test]
fn selector_uses_configured_page_size_for_navigation() {
    let mut context = context_with_menu(&["a", "b", "c", "d", "e", "f"], 0);
    assert_eq!(
        press_with(&mut context, "Page_Down", &custom_page_options(2)),
        HostResult::Consumed
    );
    assert_eq!(selected(&context), 2);
    let mut single = context_with_menu(&["a", "b", "c", "d", "e", "f"], 0);
    assert_eq!(
        press_with(&mut single, "Page_Down", &custom_page_options(1)),
        HostResult::Consumed
    );
    assert_eq!(selected(&single), 1);
}

#[test]
fn selector_page_up_requires_a_visible_menu() {
    let mut fresh = context_with_menu(&["a", "b", "c", "d", "e", "f"], 0);
    assert_eq!(
        press(&mut fresh, "minus"),
        HostResult::Consumed,
        "菜单可见时上翻页键生效（首屏亦然）"
    );
    assert_eq!(selected(&fresh), 0, "已在首页 ⇒ 归零高亮（不循环）");
    assert_eq!(fresh.last_commit_text(), "");
    assert_eq!(fresh.input(), b"ab", "翻页不改动输入");

    let mut idle = Context::new();
    assert_eq!(press(&mut idle, "minus"), HostResult::Forward);

    let options = HostOptions::default();
    let mut ascii = context_with_menu(&["甲", "乙"], 0);
    ascii.set_option("ascii_mode", true);
    assert_eq!(paging_action(&ascii, &options, &key_of("minus")), None);
    assert_eq!(paging_action(&ascii, &options, &key_of("equal")), None);
    assert_eq!(
        press(&mut ascii, "minus"),
        HostResult::Forward,
        "键交宿主的可打印字符路径（翻页会返回 Consumed）"
    );
    assert_eq!(
        ascii.last_commit_text(),
        "甲",
        "键落回后续处理器（editor 提交组合）；翻页路径不提交"
    );
    assert!(ascii.input().is_empty());
}

#[test]
fn paging_action_is_the_shared_key_binder_predicate() {
    let options = HostOptions::default();
    let mut menu = context_with_menu(&["a", "b", "c", "d", "e", "f"], 0);
    assert_eq!(
        paging_action(&menu, &options, &key_of("equal")),
        Some(PagingDir::Down)
    );
    assert_eq!(
        paging_action(&menu, &options, &key_of("minus")),
        Some(PagingDir::Up),
        "菜单可见即判上翻页（不要求先翻过页）"
    );
    assert_eq!(press(&mut menu, "equal"), HostResult::Consumed);
    assert_eq!(
        paging_action(&menu, &options, &key_of("minus")),
        Some(PagingDir::Up),
        "翻页后判据不变"
    );

    let idle = Context::new();
    assert_eq!(paging_action(&idle, &options, &key_of("equal")), None);
    assert_eq!(paging_action(&idle, &options, &key_of("minus")), None);
    let mut ascii = context_with_menu(&["a", "b"], 0);
    ascii.set_option("ascii_mode", true);
    assert_eq!(paging_action(&ascii, &options, &key_of("equal")), None);
    assert_eq!(paging_action(&ascii, &options, &key_of("minus")), None);
    ascii
        .composition
        .segments
        .last_mut()
        .expect("段")
        .tags
        .push("paging".to_string());
    assert_eq!(
        paging_action(&ascii, &options, &key_of("minus")),
        None,
        "`paging` 标签已不是判据（旧语义随用户决定退役）"
    );

    let custom = HostOptions {
        page_size: 2,
        page_up_keys: vec![key_of("bracketleft")],
        page_down_keys: vec![key_of("bracketright")],
        page_cycle: false,
    };
    let mut menu = context_with_menu(&["a", "b", "c", "d", "e", "f"], 0);
    assert_eq!(
        paging_action(&menu, &custom, &key_of("bracketright")),
        Some(PagingDir::Down)
    );
    assert_eq!(
        paging_action(&menu, &custom, &key_of("bracketleft")),
        Some(PagingDir::Up),
        "`[` 与 `-` 同前置（菜单可见即翻页）"
    );
    assert_eq!(
        paging_action(&menu, &custom, &key_of("equal")),
        None,
        "未绑定为翻页键的 `=` 不判翻页（该配置下落标点）"
    );
    assert_eq!(
        press_with(&mut menu, "bracketright", &custom),
        HostResult::Consumed
    );
    assert_eq!(
        paging_action(&menu, &custom, &key_of("bracketleft")),
        Some(PagingDir::Up)
    );
}

#[test]
fn ascii_mode_paging_keys_fall_through_to_punctuation() {
    let table = PunctTable::parse(
        "punctuator:\n  half_shape:\n    \"-\": { commit: － }\n    \"=\": { commit: ＝ }\n",
    )
    .expect("punct table");
    let options = HostOptions::default();
    let mut ascii = context_with_menu(&["甲", "乙"], 0);
    ascii.set_option("ascii_mode", true);
    assert_eq!(
        paging_action(&ascii, &options, &key_of("minus")),
        None,
        "`ascii_mode` 下上翻页键不拦截"
    );
    assert_eq!(
        process(&mut ascii, "minus", Some(&table), &options),
        HostResult::Consumed,
        "`-` 落标点分支"
    );
    assert_eq!(ascii.last_commit_text(), "甲－", "确认组合后落标点");
    assert!(ascii.input().is_empty());
    let mut menu = context_with_menu(&["甲", "乙"], 0);
    assert_eq!(
        process(&mut menu, "minus", Some(&table), &options),
        HostResult::Consumed
    );
    assert_eq!(menu.last_commit_text(), "", "翻页不提交");
    assert_eq!(menu.input(), b"ab", "翻页不改动输入");
}

#[test]
fn selector_accepts_multiple_page_keys() {
    let options = HostOptions {
        page_size: 2,
        page_up_keys: vec![
            KeyEvent::from_repr("comma").expect("key"),
            KeyEvent::from_repr("bracketleft").expect("key"),
        ],
        page_down_keys: vec![
            KeyEvent::from_repr("period").expect("key"),
            KeyEvent::from_repr("bracketright").expect("key"),
        ],
        page_cycle: false,
    };
    let mut context = context_with_menu(&["a", "b", "c", "d", "e", "f"], 0);
    assert_eq!(
        press_with(&mut context, "period", &options),
        HostResult::Consumed
    );
    assert_eq!(selected(&context), 2);
    assert_eq!(
        press_with(&mut context, "bracketright", &options),
        HostResult::Consumed
    );
    assert_eq!(selected(&context), 4);
    assert_eq!(
        press_with(&mut context, "bracketleft", &options),
        HostResult::Consumed
    );
    assert_eq!(selected(&context), 2);
}

#[test]
fn selector_requires_translated_segment() {
    let mut context = context_with_menu(&["甲"], 0);
    context.composition.segments[0].translated = false;
    assert_eq!(press(&mut context, "Down"), HostResult::Forward);
}

#[test]
fn selector_skips_raw_segment() {
    let mut raw = context_with_menu(&["甲"], 0);
    raw.composition.segments[0].tags = vec!["raw".to_string()];
    assert_eq!(press(&mut raw, "Down"), HostResult::Forward);
}

#[test]
fn navigator_moves_caret_by_char() {
    let mut context = context_with_menu(&["甲", "乙"], 0);
    assert_eq!(press(&mut context, "Left"), HostResult::Consumed);
    assert_eq!(context.caret(), 1);
    assert_eq!(press(&mut context, "Right"), HostResult::Consumed);
    assert_eq!(context.caret(), 2);
}

#[test]
fn navigator_home_end_move_to_edges() {
    let mut context = context_with_menu(&["甲", "乙"], 0);
    assert_eq!(press(&mut context, "Home"), HostResult::Consumed);
    assert_eq!(context.caret(), 0);
    assert_eq!(press(&mut context, "End"), HostResult::Consumed);
    assert_eq!(context.caret(), 2);
}

#[test]
fn navigator_ctrl_shift_arrows_jump_edges() {
    let mut context = context_with_menu(&["甲", "乙"], 0);
    assert_eq!(press(&mut context, "Control+Left"), HostResult::Consumed);
    assert_eq!(context.caret(), 0);
    assert_eq!(press(&mut context, "Shift+Right"), HostResult::Consumed);
    assert_eq!(context.caret(), 2);
}

#[test]
fn navigator_consumes_without_menu() {
    let mut context = Context::new();
    context.set_input(b"xx");
    context.composition.segments.push(Segment {
        start: 0,
        end: 2,
        tags: vec!["abc".to_string()],
        translated: true,
        ..Segment::default()
    });
    assert_eq!(press(&mut context, "Left"), HostResult::Consumed);
    assert_eq!(context.caret(), 1);
    assert_eq!(press(&mut context, "Home"), HostResult::Consumed);
    assert_eq!(context.caret(), 0);
}

#[test]
fn editor_backspace_removes_char_before_caret() {
    let mut context = context_with_menu(&["甲", "乙"], 0);
    assert_eq!(press(&mut context, "BackSpace"), HostResult::Consumed);
    assert_eq!(context.input(), b"a");
    assert_eq!(context.caret(), 1);
}

#[test]
fn editor_delete_removes_char_at_caret() {
    let mut context = context_with_menu(&["甲", "乙"], 0);
    assert_eq!(press(&mut context, "Delete"), HostResult::Consumed);
    assert_eq!(context.input(), b"ab");
    assert_eq!(press(&mut context, "Home"), HostResult::Consumed);
    assert_eq!(press(&mut context, "Delete"), HostResult::Consumed);
    assert_eq!(context.input(), b"b");
}

#[test]
fn editor_passes_idle_editing_keys() {
    let mut context = Context::new();
    assert_eq!(press(&mut context, "BackSpace"), HostResult::Forward);
    assert_eq!(press(&mut context, "Delete"), HostResult::Forward);
    assert_eq!(press(&mut context, "Left"), HostResult::Forward);
}

#[test]
fn key_binder_tab_navigates_candidates() {
    let mut context = context_with_menu(&["甲", "乙"], 0);
    assert_eq!(press(&mut context, "Tab"), HostResult::Consumed);
    assert_eq!(selected(&context), 1);
    assert_eq!(press(&mut context, "Shift+Tab"), HostResult::Consumed);
    assert_eq!(selected(&context), 0);
}

#[test]
fn key_binder_tab_passes_without_menu() {
    let mut empty = Context::new();
    empty.set_input(b"x");
    assert_eq!(press(&mut empty, "Tab"), HostResult::Forward);
}

fn press_raw(context: &mut Context, keycode: i32, modifier: i32) -> HostResult {
    process_key(
        &KeyEvent::new(keycode, modifier),
        context,
        None,
        &HostOptions::default(),
        &mut NoObserver::new(),
    )
}

#[test]
fn editor_confirm_cancel_and_bindings() {
    let mut context = context_with_menu(&["甲", "乙"], 0);
    assert_eq!(press(&mut context, "space"), HostResult::Consumed);
    assert!(
        context.composition.segments[0].selected,
        "空格应确认高亮段（ConfirmCurrentSelection）"
    );

    let mut context = context_with_menu(&["甲", "乙"], 0);
    assert_eq!(press(&mut context, "Escape"), HostResult::Consumed);
    assert_eq!(context.last_commit_text(), "", "取消不上屏");

    let mut raw_only = Context::new();
    raw_only.push_input(b"ab");
    assert!(raw_only.is_composing());
    assert_eq!(press(&mut raw_only, "Escape"), HostResult::Consumed);
    assert!(!raw_only.is_composing(), "无段时取消应整体清空");
}

#[test]
fn ctrl_backspace_and_ctrl_delete_match_their_plain_variants() {
    let build = || {
        let mut context = context_with_menu(&["甲乙", "甲"], 0);
        context.push_input(b"ab");
        context
    };

    let fingerprint = |context: &Context| -> String {
        let segments = context
            .composition
            .segments
            .iter()
            .map(|segment| {
                format!(
                    "{}..{}/sel={}/tr={}/idx={}/{:?}",
                    segment.start,
                    segment.end,
                    segment.selected,
                    segment.translated,
                    segment.selected_index,
                    segment.selected_candidate().map(|c| c.text.clone())
                )
            })
            .collect::<Vec<_>>()
            .join(",");
        format!(
            "input={:?} caret={} composing={} menu={} segs=[{}] commit={:?}",
            String::from_utf8_lossy(context.input()),
            context.caret(),
            context.is_composing(),
            context.has_menu(),
            segments,
            context.last_commit_text(),
        )
    };

    let mut plain_backspace = build();
    let mut ctrl_backspace = build();
    assert_eq!(
        press_raw(&mut plain_backspace, 0xff08, 0),
        HostResult::Consumed
    );
    assert_eq!(
        press_raw(&mut ctrl_backspace, 0xff08, K_CONTROL_MASK),
        HostResult::Consumed
    );
    assert_eq!(
        fingerprint(&plain_backspace),
        fingerprint(&ctrl_backspace),
        "Ctrl+BackSpace 必须与普通 BackSpace 完全同义（有意偏离）"
    );

    let mut plain_delete = build();
    let mut ctrl_delete = build();
    assert_eq!(
        press_raw(&mut plain_delete, 0xffff, 0),
        HostResult::Consumed
    );
    assert_eq!(
        press_raw(&mut ctrl_delete, 0xffff, K_CONTROL_MASK),
        HostResult::Consumed
    );
    assert_eq!(
        fingerprint(&plain_delete),
        fingerprint(&ctrl_delete),
        "Ctrl+Delete 必须与普通 Delete 完全同义（有意偏离）"
    );
}

#[test]
fn editor_ctrl_return_commits_script_text() {
    let mut context = context_with_menu(&["甲", "乙"], 0);
    assert_eq!(
        press_raw(&mut context, 0xff0d, K_CONTROL_MASK),
        HostResult::Consumed
    );
    assert_eq!(
        context.last_commit_text(),
        "ab",
        "候选无 preedit ⇒ 原始输入"
    );

    let mut context = context_with_menu(&["甲", "乙"], 0);
    assert_eq!(press_raw(&mut context, 0xff0d, 0), HostResult::Consumed);
    assert_eq!(
        context.last_commit_text(),
        "ab",
        "原始输入 = 未确认段的原文"
    );
}

#[test]
fn editor_ctrl_return_does_not_notify_commit() {
    let mut recorder = Recorder::default();
    let mut context = context_with_menu(&["甲", "乙"], 0);
    let key = KeyEvent::new(0xff0d, K_CONTROL_MASK);
    assert_eq!(
        process_key(
            &key,
            &mut context,
            None,
            &HostOptions::default(),
            &mut recorder
        ),
        HostResult::Consumed
    );
    assert_eq!(recorder.calls, 0, "`Clear()` 不触发提交通知");
    let mut context = context_with_menu(&["甲", "乙"], 0);
    assert_eq!(
        process_key(
            &KeyEvent::new(0xff0d, 0),
            &mut context,
            None,
            &HostOptions::default(),
            &mut recorder
        ),
        HostResult::Consumed
    );
    assert_eq!(recorder.calls, 1);
}

#[test]
fn editor_ctrl_return_prefers_candidate_preedit() {
    let mut context = Context::new();
    context.set_input(b"ab");
    let mut segment = Segment {
        start: 0,
        end: 2,
        tags: vec!["abc".to_string()],
        translated: true,
        ..Segment::default()
    };
    let mut candidate = Candidate::new("sentence", 0, 2, "先", "");
    candidate.preedit = "xi\tan".to_string();
    segment.candidates.push(candidate);
    context.composition.segments.push(segment);
    context.drain_events();
    assert_eq!(
        press_raw(&mut context, 0xff0d, K_CONTROL_MASK),
        HostResult::Consumed
    );
    assert_eq!(context.last_commit_text(), "xian");
}

#[test]
fn editor_ctrl_shift_return_keeps_composition_without_comment() {
    let mut context = context_with_menu(&["甲", "乙"], 0);
    assert_eq!(
        press_raw(&mut context, 0xff0d, K_CONTROL_MASK | K_SHIFT_MASK),
        HostResult::Consumed
    );
    assert_eq!(context.last_commit_text(), "", "空注释不提交空串");
    assert_eq!(context.input(), b"ab", "空注释不清组合");
    assert!(context.is_composing());
    let mut empty = Context::new();
    empty.set_input(b"xx");
    empty.composition.segments.push(Segment {
        start: 0,
        end: 2,
        tags: vec!["abc".to_string()],
        translated: true,
        ..Segment::default()
    });
    empty.drain_events();
    assert_eq!(
        press_raw(&mut empty, 0xff0d, K_CONTROL_MASK | K_SHIFT_MASK),
        HostResult::Consumed
    );
    assert_eq!(empty.input(), b"xx");
    assert_eq!(empty.last_commit_text(), "");
}

#[test]
fn editor_ctrl_shift_return_commits_candidate_comment() {
    let mut context = Context::new();
    context.set_input(b"ab");
    let mut segment = Segment {
        start: 0,
        end: 2,
        tags: vec!["abc".to_string()],
        translated: true,
        selected_index: 0,
        ..Segment::default()
    };
    segment
        .candidates
        .push(Candidate::new("sentence", 0, 2, "中", "d/dg/dgs"));
    context.composition.segments.push(segment);
    context.drain_events();
    assert_eq!(
        press_raw(&mut context, 0xff0d, K_CONTROL_MASK | K_SHIFT_MASK),
        HostResult::Consumed
    );
    let events = context.drain_events();
    assert!(
        events.iter().any(
            |event| matches!(event, Event::Commit(text) if text == "d/dg/dgs")
        ),
        "应提交候选注释：{events:?}"
    );
}

#[test]
fn editor_fallbacks_match_reference_keymap() {
    let mut context = context_with_menu(&["甲", "乙"], 0);
    assert_eq!(
        press_raw(&mut context, 0x20, K_SHIFT_MASK),
        HostResult::Consumed
    );

    let mut context = context_with_menu(&["甲", "乙"], 0);
    context.set_input(b"abc");
    assert_eq!(
        press_raw(&mut context, 0xff08, K_SHIFT_MASK),
        HostResult::Consumed
    );

    let mut context = context_with_menu(&["甲", "乙"], 0);
    context.set_input(b"abc");
    assert_eq!(
        press_raw(&mut context, 0xffff, K_SHIFT_MASK),
        HostResult::Consumed
    );
}


#[derive(Default)]
struct TextRecorder {
    texts: Vec<String>,
}

impl CommitObserver for TextRecorder {
    fn on_commit(&mut self, _context: &Context, commit_text: &str) {
        self.texts.push(commit_text.to_string());
    }
}

#[test]
fn commits_are_reported_with_their_text() {
    let mut recorder = TextRecorder::default();
    let mut context = context_with_menu(&["甲", "乙"], 0);
    let key = KeyEvent::new(0xff0d, 0);
    assert_eq!(process_key(&key, &mut context, None, &HostOptions::default(), &mut recorder), HostResult::Consumed);
    assert_eq!(recorder.texts, vec!["ab".to_string()]);
    let mut context = context_with_menu(&["甲", "乙"], 0);
    let key = KeyEvent::new(0xffff, 0);
    assert_eq!(process_key(&key, &mut context, None, &HostOptions::default(), &mut recorder), HostResult::Consumed);
    assert_eq!(recorder.texts.len(), 1);
}
