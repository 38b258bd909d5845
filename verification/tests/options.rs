use hux_core::options::{option_defaults, Options};
use hux_core::scheme::OptionDecl;
use hux_core::session::Context;
use hux_core::settings::{
    OptionKeys, ROLE_ALLOW_DUPLICATE_SINGLE, ROLE_DIGIT_SELECT, ROLE_EARLY_COMMIT, ROLE_EARLY_COMMIT_TO_PREEDIT,
};

fn test_option_keys() -> OptionKeys {
    OptionKeys::resolve(&[
        OptionDecl {
            role: ROLE_EARLY_COMMIT,
            key: "tiger_sentence_early_commit",
        },
        OptionDecl {
            role: ROLE_EARLY_COMMIT_TO_PREEDIT,
            key: "tiger_sentence_early_commit_to_preedit",
        },
        OptionDecl {
            role: ROLE_ALLOW_DUPLICATE_SINGLE,
            key: "tiger_sentence_allow_duplicate_single",
        },
        OptionDecl {
            role: ROLE_DIGIT_SELECT,
            key: "tiger_sentence_digit_select",
        },
    ])
    .expect("测试声明应覆盖全部方案角色")
}

#[test]

fn options_sync_applies_defaults() {
    let mut context = Context::new();

    let mut options = Options::new(option_defaults(&test_option_keys()));

    options.sync(&mut context);

    assert!(context.get_option("tiger_sentence_early_commit"));

    assert!(context.get_option("tiger_sentence_allow_duplicate_single"));

    assert!(!context.get_option("tiger_sentence_early_commit_to_preedit"));
}

#[test]

fn options_sync_discards_own_option_events() {
    let mut context = Context::new();

    let mut options = Options::new(option_defaults(&test_option_keys()));

    options.sync(&mut context);

    assert!(
        !context
            .drain_events()
            .iter()
            .any(|event| matches!(event, hux_core::session::Event::Option(_))),
        "sync 自身的事件不应留在队列中"
    );
    assert_eq!(options.revision, 0);

    context.set_option("tiger_sentence_early_commit", false);
    assert!(options.observe(&context, "tiger_sentence_early_commit"));
    assert_eq!(options.revision, 1);
}

#[test]

fn options_observe_records_user_change_once() {
    let mut context = Context::new();

    let mut options = Options::new(option_defaults(&test_option_keys()));

    options.sync(&mut context);

    context.set_option("tiger_sentence_early_commit_to_preedit", true);

    assert!(options.observe(&context, "tiger_sentence_early_commit_to_preedit"));

    assert_eq!(options.revision, 1);

    assert!(!options.observe(&context, "tiger_sentence_early_commit_to_preedit"));

    assert!(!options.observe(&context, "other_option"));
}

#[test]

fn options_sync_prefers_persisted_values() {
    let mut context = Context::new();

    let mut options = Options::new(option_defaults(&test_option_keys()));

    options.sync(&mut context);

    options.values.insert("tiger_sentence_early_commit", false);

    context.set_option("tiger_sentence_early_commit", true);

    options.sync(&mut context);

    assert!(!context.get_option("tiger_sentence_early_commit"));
}
