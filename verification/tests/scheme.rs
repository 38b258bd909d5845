use hux_core::scheme::{asset_paths, ConfigError, SchemeConfig, Value};
use std::path::PathBuf;

#[test]
fn scheme_config_is_a_role_keyed_bag() {
    let config = SchemeConfig::new()
        .with("switch", Value::Bool(true))
        .with("count", Value::Count(5));
    assert_eq!(config.roles(), vec!["switch", "count"]);
    assert_eq!(config.bool("switch"), Some(true));
    let replaced = config.clone().with("switch", Value::Bool(false));
    assert_eq!(replaced.bool("switch"), Some(false));
    assert_eq!(replaced.roles().len(), 2);
    let mut mutated = config.clone();
    mutated.set("count", Value::Count(9));
    assert_eq!(mutated.count("count"), Some(9));
    assert_eq!(mutated.roles().len(), 2);
}

#[test]
fn scheme_config_accessors_are_type_checked() {
    let config = SchemeConfig::new()
        .with("switch", Value::Bool(true))
        .with("count", Value::Count(3))
        .with("text", Value::Text("abc".to_string()))
        .with("texts", Value::Texts(vec!["k".to_string()]));
    assert_eq!(
        config.count("switch"),
        None,
        "类型不符即 None，不做隐式转换"
    );
    assert_eq!(config.bool("count"), None);
    assert_eq!(config.text("texts"), None);
    assert_eq!(config.text("text"), Some("abc"));
    assert_eq!(config.texts("texts"), Some(["k".to_string()].as_slice()));
    assert_eq!(config.text("missing"), None);
    assert_eq!(config.count("missing"), None);
    assert_eq!(config.texts("missing"), None);
    assert!(config.get("missing").is_none());
    assert_eq!(config.texts("switch"), None);
    let empty = SchemeConfig::new().with("empty", Value::Texts(Vec::new()));
    assert_eq!(empty.texts("empty"), Some([].as_slice()));
    assert!(SchemeConfig::default().roles().is_empty());
}

#[test]
fn scheme_config_require_reports_missing_and_mismatch() {
    let config = SchemeConfig::new()
        .with("switch", Value::Bool(true))
        .with("count", Value::Count(3))
        .with("text", Value::Text("abc".to_string()))
        .with("texts", Value::Texts(vec!["k".to_string()]));
    assert_eq!(config.require_bool("switch"), Ok(true));
    assert_eq!(config.require_count("count"), Ok(3));
    assert_eq!(config.require_text("text"), Ok("abc"));
    assert_eq!(
        config.require_texts("texts"),
        Ok(["k".to_string()].as_slice())
    );
    let missing = config.require_bool("absent").expect_err("缺角色");
    assert_eq!(missing, ConfigError::Missing { role: "absent" });
    assert_eq!(missing.role(), "absent");
    assert_eq!(missing.to_string(), "缺少角色 absent");
    let mismatch = config.require_bool("count").expect_err("类型不符");
    assert_eq!(
        mismatch,
        ConfigError::TypeMismatch {
            role: "count",
            expected: "开关",
            found: "计数",
        }
    );
    assert_eq!(mismatch.role(), "count");
    assert_eq!(
        mismatch.to_string(),
        "角色 count 类型不符（期望 开关，实际 计数）"
    );
    for (value, kind) in [
        (Value::Bool(true), "开关"),
        (Value::Count(1), "计数"),
        (Value::Text("x".to_string()), "文本"),
        (Value::Texts(vec!["x".to_string()]), "文本列表"),
    ] {
        assert_eq!(value.kind(), kind);
    }
}

#[test]
fn asset_paths_join_the_file_to_each_directory_in_order() {
    let dirs = vec![PathBuf::from("/usr/share/hux"), PathBuf::from("data")];
    let paths = asset_paths(&dirs, "punct.yaml");
    assert_eq!(
        paths,
        vec![PathBuf::from("/usr/share/hux/punct.yaml"), PathBuf::from("data/punct.yaml")]
    );
    assert!(asset_paths(&[], "punct.yaml").is_empty());
}
