use hux_core::options::Options;
use hux_core::punct::YamlNode;
use hux_core::session::Context;
use hux_core::store::{saved_document, saved_entries, saved_text, store_document, stored_values};
use hux_core::tables::FlagTable;

fn entries(node: &YamlNode) -> &Vec<(YamlNode, YamlNode)> {
    match node {
        YamlNode::Hash(entries) => entries,
        other => panic!("not a mapping: {other:?}"),
    }
}

fn key(node: &YamlNode) -> &str {
    match node {
        YamlNode::Text(text) => text,
        other => panic!("not a text key: {other:?}"),
    }
}

fn flag(node: &YamlNode) -> bool {
    match node {
        YamlNode::Boolean(value) => *value,
        other => panic!("not a boolean: {other:?}"),
    }
}

#[test]
fn load_applies_stored_options() {
    let document = store_document(Some(
        "options:\n  tiger_sentence_early_commit: false\n  some_other_option: true\ncustom: 1\n",
    ));
    let values = stored_values(&document, None);
    assert_eq!(values.get("tiger_sentence_early_commit"), Some(false));
    assert_eq!(values.get("some_other_option"), Some(true));
    assert_eq!(values.len(), 2);
    let mut defaults = FlagTable::new();
    defaults.insert("tiger_sentence_early_commit", true);
    let mut options = Options::new(defaults);
    options.values = values;
    let mut context = Context::new();
    options.sync(&mut context);
    assert!(!context.get_option("tiger_sentence_early_commit"));
}

#[test]
fn legacy_user_yaml_is_read_only_fallback() {
    let legacy = "var:\n  option:\n    tiger_sentence_allow_duplicate_single: false\n    tiger_sentence_early_commit: false\n";
    let empty = store_document(None);
    let values = stored_values(&empty, Some(legacy));
    assert_eq!(values.get("tiger_sentence_allow_duplicate_single"), Some(false));
    let document = store_document(Some("options:\n  tiger_sentence_early_commit: true\n"));
    let values = stored_values(&document, Some(legacy));
    assert_eq!(values.get("tiger_sentence_early_commit"), Some(true), "主文件优先，legacy 只补缺失项");
    assert_eq!(values.get("tiger_sentence_allow_duplicate_single"), Some(false));
    assert_eq!(stored_values(&empty, Some("var: 1\n")).len(), 0);
}

#[test]
fn unreadable_or_non_mapping_store_is_an_empty_document() {
    assert!(entries(&store_document(Some("\t\t: ["))).is_empty());
    assert!(entries(&store_document(Some("- 1\n- 2\n"))).is_empty());
    assert!(entries(&store_document(Some(""))).is_empty());
    assert!(entries(&store_document(None)).is_empty());
    let document = store_document(Some("options:\n  a: 1\n  b: yes\n"));
    assert_eq!(stored_values(&document, None).len(), 0, "非布尔值不读");
}

#[test]
fn provided_defaults_fill_missing_keys() {
    let mut defaults = FlagTable::new();
    defaults.insert("tiger_sentence_early_commit", false);
    let mut options = Options::new(defaults);
    options.values = stored_values(&store_document(None), None);
    assert_eq!(options.value("tiger_sentence_early_commit"), Some(false));
    options.values.insert("tiger_sentence_early_commit", true);
    assert_eq!(options.value("tiger_sentence_early_commit"), Some(true));
    assert_eq!(options.value("unknown"), None);
}

#[test]
fn saved_entries_are_sorted_by_name() {
    let mut values = FlagTable::new();
    values.insert("zeta", true);
    values.insert("alpha", false);
    values.insert("甲", true);
    values.insert("beta", true);
    let saved = saved_entries(&values);
    assert_eq!(
        saved,
        vec![
            ("alpha".to_string(), false),
            ("beta".to_string(), true),
            ("zeta".to_string(), true),
            ("甲".to_string(), true),
        ]
    );
}

#[test]
fn save_preserves_unknown_keys() {
    let document = store_document(Some("options:\n  some_other_option: true\n  b: false\ncustom: 1\n"));
    let saved = saved_document(document, vec![("a".to_string(), true), ("b".to_string(), true)]);
    let top = entries(&saved);
    assert_eq!(top.len(), 2);
    assert_eq!(key(&top[0].0), "options");
    assert_eq!(key(&top[1].0), "custom");
    assert!(matches!(top[1].1, YamlNode::Integer(1)));
    let options = entries(&top[0].1);
    let names: Vec<(&str, bool)> = options.iter().map(|(k, v)| (key(k), flag(v))).collect();
    assert_eq!(names, vec![("some_other_option", true), ("b", true), ("a", true)]);
    let fresh = saved_document(store_document(None), vec![("x".to_string(), false)]);
    let top = entries(&fresh);
    assert_eq!(top.len(), 1);
    assert_eq!(key(&top[0].0), "options");
    assert_eq!(entries(&top[0].1).len(), 1);
    let replaced = saved_document(store_document(Some("options: 3\nother: true\n")), vec![("x".to_string(), true)]);
    let top = entries(&replaced);
    assert_eq!(key(&top[0].0), "options", "非映射的 options 原位换成映射");
    assert_eq!(entries(&top[0].1).len(), 1);
}

#[test]
fn saved_text_reads_back_to_the_same_values() {
    let document = store_document(Some("options:\n  b: false\ncustom: 1\n"));
    let mut values = FlagTable::new();
    values.insert("b", true);
    values.insert("a", false);
    let (_, text) = saved_text(document, &values);
    assert_eq!(text, "---\noptions:\n  b: true\n  a: false\ncustom: 1");
    let reread = store_document(Some(&text));
    let stored = stored_values(&reread, None);
    assert_eq!(stored.get("a"), Some(false));
    assert_eq!(stored.get("b"), Some(true));
}
