use hux_core::host::{DEFAULT_PAGE_SIZE, MAX_PAGE_SIZE};
use hux_core::key::KeyEvent;
use hux_core::scheme::OptionDecl;
use hux_core::settings::{
    CandidateLayout, OptionKeys, PreeditMode, Settings, DEFAULT_HIGH_FREQ_LIMIT,
    MAX_MIN_RETAINED_INPUT_LENGTH, ROLE_ALLOW_DUPLICATE_SINGLE, ROLE_DIGIT_SELECT, ROLE_EARLY_COMMIT,
    ROLE_EARLY_COMMIT_TO_PREEDIT,
};

fn test_option_keys() -> OptionKeys {
    OptionKeys::resolve(&[
        OptionDecl {
            role: ROLE_EARLY_COMMIT,
            key: "tiger_sentence_early_commit",
        },
        OptionDecl {
            role: ROLE_EARLY_COMMIT_TO_PREEDIT,
            key: "tiger_sentence_early_commit_to_preedit",
        },
        OptionDecl {
            role: ROLE_ALLOW_DUPLICATE_SINGLE,
            key: "tiger_sentence_allow_duplicate_single",
        },
        OptionDecl {
            role: ROLE_DIGIT_SELECT,
            key: "tiger_sentence_digit_select",
        },
    ])
    .expect("测试声明应覆盖全部方案角色")
}

#[test]
fn defaults_match_builtin_semantics() {
    let settings = Settings::default();
    assert!(settings.early_commit);
    assert!(!settings.early_commit_to_preedit);
    assert!(settings.allow_duplicate_single);
    assert!(!settings.full_shape);
    assert!(!settings.ascii_punct);
    assert!(settings.learning_on_tab);
    assert_eq!(settings.high_freq_limit, DEFAULT_HIGH_FREQ_LIMIT);
    assert_eq!(settings.page_size, DEFAULT_PAGE_SIZE);
    assert_eq!(
        settings.page_up_keys,
        vec!["minus".to_string(), "bracketleft".to_string()]
    );
    assert_eq!(
        settings.page_down_keys,
        vec!["equal".to_string(), "bracketright".to_string()]
    );
    assert_eq!(
        settings.reverse_lookup_pronunciation_keys,
        vec!["grave".to_string()]
    );
    assert_eq!(
        settings.reverse_lookup_character_keys,
        vec!["asciitilde".to_string()]
    );
    assert!(settings.digit_select);
    assert_eq!(settings.candidate_layout, CandidateLayout::FollowGlobal);
    assert_eq!(settings.preedit_mode, PreeditMode::CandidateCode);
    assert!(!settings.page_cycle);
    assert_eq!(settings.min_retained_input_length, 0);
    assert_eq!(settings.min_retained(), 0);
}

#[test]
fn min_retained_clamps_upper_bound() {
    let settings = Settings {
        min_retained_input_length: 999,
        ..Default::default()
    };
    assert_eq!(settings.min_retained(), MAX_MIN_RETAINED_INPUT_LENGTH);
}

#[test]
fn host_options_clamp_page_size() {
    let low = Settings {
        page_size: 0,
        ..Default::default()
    }
    .host_options();
    assert_eq!(low.page_size, 1, "页大小下限为 1");
    let high = Settings {
        page_size: 999,
        ..Default::default()
    }
    .host_options();
    assert_eq!(high.page_size, MAX_PAGE_SIZE, "页大小上限为 10");
}

#[test]
fn host_options_parse_keys_ignores_invalid() {
    let options = Settings {
        page_up_keys: vec!["comma".to_string(), "not-a-key".to_string()],
        page_down_keys: Vec::new(),
        ..Default::default()
    }
    .host_options();
    assert_eq!(
        options.page_up_keys,
        vec![KeyEvent::from_repr("comma").unwrap()]
    );
    assert!(options.page_down_keys.is_empty(), "空列表 = 不绑定翻页键");
}

#[test]
fn option_defaults_follow_settings() {
    let settings = Settings {
        full_shape: true,
        ..Default::default()
    };
    let keys = test_option_keys();
    let defaults = settings.option_defaults(&keys);
    assert!(defaults.contains(&("full_shape", true)));
    assert!(defaults.contains(&(keys.key(ROLE_EARLY_COMMIT).unwrap(), true)));
    assert_eq!(
        defaults.iter().map(|(name, _)| *name).collect::<Vec<_>>(),
        vec![
            "tiger_sentence_early_commit",
            "tiger_sentence_early_commit_to_preedit",
            "tiger_sentence_allow_duplicate_single",
            "full_shape",
            "ascii_punct",
            "tiger_sentence_digit_select",
        ]
    );
}

#[test]
fn option_default_is_the_first_default_of_a_name() {
    let settings = Settings {
        full_shape: true,
        ..Default::default()
    };
    let keys = test_option_keys();
    assert_eq!(settings.option_default(&keys, "full_shape"), Some(true));
    assert_eq!(settings.option_default(&keys, "ascii_punct"), Some(false));
    assert_eq!(settings.option_default(&keys, "no_such_option"), None);
}

#[test]
fn store_defaults_cover_core_switches() {
    let keys = test_option_keys();
    let store_defaults = Settings::default().store_defaults(&keys);
    let key = |role| keys.key(role).expect("测试表应完整");
    assert_eq!(
        store_defaults.get(key(ROLE_EARLY_COMMIT_TO_PREEDIT)),
        Some(false)
    );
    assert_eq!(store_defaults.get("full_shape"), Some(false));
    assert_eq!(store_defaults.get(key(ROLE_DIGIT_SELECT)), Some(true));
    assert_eq!(store_defaults.len(), 5);
}

#[test]
fn option_keys_absent_roles_are_skipped_not_faked() {
    let empty = OptionKeys::empty();
    let defaults = Settings::default().option_defaults(&empty);
    assert_eq!(
        defaults.iter().map(|(name, _)| *name).collect::<Vec<_>>(),
        vec!["full_shape", "ascii_punct"],
        "仅宿主标准项保留"
    );
    assert_eq!(Settings::default().store_defaults(&empty).len(), 1);
}
