use hux_core::interaction::K_BUFFERED;
use hux_core::session::{Candidate, Context, Segment};
use hux_core::update::{host_update, OPTION_HIDE_CANDIDATE};

fn candidate(text: &str, preedit: &str) -> Candidate {
    let mut candidate = Candidate::new("sentence", 0, 8, text, "注");
    candidate.preedit = preedit.to_string();
    candidate
}

fn composing(input: &[u8], end: usize, candidates: Vec<Candidate>, prompt: &str) -> Context {
    let mut context = Context::new();
    context.set_input(input);
    context.composition.segments.push(Segment {
        start: 0,
        end,
        prompt: prompt.to_string(),
        candidates,
        ..Segment::default()
    });
    context
}

#[test]
fn highlighted_preedit_leads_and_raw_tail_follows() {
    let context = composing(b"zhongguox", 8, vec![candidate("中国", "zhong guo"), candidate("种果", "zhong guo")], "");
    let update = host_update(&context, false);
    assert_eq!(update.preedit, "zhong guox");
    assert_eq!(update.cursor, 9, "光标落在分码文本末尾、原始尾部之前");
    assert_eq!(update.texts, vec!["中国".to_string(), "种果".to_string()]);
    assert_eq!(update.comments, vec!["注".to_string(), "注".to_string()]);
    assert_eq!(update.selected, 0);
}

#[test]
fn segment_prompt_goes_after_the_highlighted_preedit() {
    let context = composing(b"`zhong", 6, vec![candidate("中", "`zhong")], "〔拼音〕");
    let update = host_update(&context, false);
    assert_eq!(update.preedit, "`zhong〔拼音〕");
    assert_eq!(update.cursor, 6);
}

#[test]
fn without_a_highlight_the_buffer_and_live_input_are_shown() {
    let mut context = composing(b"~ab", 3, Vec::new(), "");
    context.set_property(K_BUFFERED, "甲");
    context.set_buffered(true);
    context.set_caret(2);
    let update = host_update(&context, false);
    assert_eq!(update.preedit, "甲 ab");
    assert_eq!(update.cursor, 5, "缓冲 3 字节 + 空格 + 实况光标 1");
    assert!(update.texts.is_empty());
    let mut prompted = composing(b"ab", 2, Vec::new(), "〔拼音〕");
    prompted.set_caret(1);
    let update = host_update(&prompted, false);
    assert_eq!(update.preedit, "a〔拼音〕b", "提示插在光标处");
    assert_eq!(update.cursor, 1);
    let empty = Context::new();
    let update = host_update(&empty, false);
    assert_eq!((update.preedit.as_str(), update.cursor, update.selected), ("", 0, 0));
}

#[test]
fn character_lookup_and_hidden_menu() {
    let mut context = composing(b"ab", 2, vec![candidate("甲", "ab")], "");
    let update = host_update(&context, true);
    assert_eq!((update.preedit.as_str(), update.cursor), ("", 0), "字反查段不下发预编辑");
    assert_eq!(update.texts.len(), 1);
    context.set_option(OPTION_HIDE_CANDIDATE, true);
    let update = host_update(&context, false);
    assert!(update.texts.is_empty() && update.comments.is_empty());
    assert_eq!(update.preedit, "ab");
}

#[test]
fn malformed_live_input_shows_replacement_characters() {
    let mut context = Context::new();
    context.set_input(b"a\xffb");
    context.set_caret(3);
    let update = host_update(&context, false);
    assert_eq!(update.preedit, "a\u{fffd}b");
    assert_eq!(update.cursor, 3);
}
