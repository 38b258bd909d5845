use hux_core::punct::{PunctTable, YamlNode};

const SAMPLE: &str = r#"
punctuator:
  full_shape:
    ",": { commit: ， }
    "'": { pair: [ "‘", "’" ] }
    "\\": 、
  half_shape:
    ",": { commit: ， }
    "-": "-"
    "'": { pair: [ "‘", "’" ] }
"#;

#[test]
fn parses_shapes_and_definitions() {
    let table = PunctTable::parse(SAMPLE).expect("parse");
    assert!(!table.is_empty());
    let mut table = table;
    assert_eq!(table.resolve(',', false), Some("，".to_string()));
    assert_eq!(table.resolve('-', false), Some("-".to_string()));
    assert_eq!(table.resolve('-', true), None, "full_shape 未定义则无标点");
    assert_eq!(table.resolve('\\', true), Some("、".to_string()));
}

#[test]
fn pair_alternates_per_key() {
    let mut table = PunctTable::parse(SAMPLE).expect("parse");
    assert_eq!(table.resolve('\'', false), Some("‘".to_string()));
    assert_eq!(table.resolve('\'', false), Some("’".to_string()));
    assert_eq!(table.resolve('\'', false), Some("‘".to_string()));
    assert_eq!(table.resolve('\'', true), Some("‘".to_string()));
    assert_eq!(table.resolve('\'', true), Some("’".to_string()));
}

#[test]
fn rejects_malformed_documents() {
    assert!(PunctTable::parse("\t\t: [").is_err());
    let empty = PunctTable::parse("other: 1").expect("parse");
    assert!(empty.is_empty());
}

#[test]
fn table_from_read_documents() {
    let text = |s: &str| YamlNode::Text(s.to_string());
    let document = YamlNode::Hash(vec![(
        text("punctuator"),
        YamlNode::Hash(vec![
            (text("half_shape"), YamlNode::Hash(vec![(text(","), text("，"))])),
            (text("full_shape"), YamlNode::Hash(vec![(text("."), YamlNode::Integer(3))])),
        ]),
    )]);
    let mut table = PunctTable::from_documents(&[document]);
    assert_eq!(table.resolve(',', false), Some("，".to_string()));
    assert_eq!(table.resolve('.', true), None);
    let mut empty = PunctTable::from_documents(&[]);
    assert_eq!(empty.resolve(',', false), None);
}
