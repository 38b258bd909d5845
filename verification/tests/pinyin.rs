use hux_core::pinyin::{
    build_edges, matches_pattern, punct_candidate, punct_shape_comment, sort_edges, syllable_graph, IndexError,
    PinyinIndex,
};
use hux_core::punct::PunctTable;
use hux_core::syllables::{path_types, prune, SyllableEdge};

#[test]
fn pattern_matches_reference_recognizer() {
    assert!(matches_pattern(b"`", '`'));
    assert!(matches_pattern(b"`zhong", '`'));
    assert!(matches_pattern(b"`xi'", '`'));
    assert!(!matches_pattern(b"`xi'a", '`'));
    assert!(!matches_pattern(b"`Z", '`'));
    assert!(!matches_pattern(b"a`", '`'));
    assert!(!matches_pattern(b"``", '`'));
    assert!(!matches_pattern(b"`1", '`'));
}

#[test]
fn punct_shape_comments_match_reference() {
    assert_eq!(punct_shape_comment("`"), "〔半角〕");
    assert_eq!(punct_shape_comment("｀"), "〔全角〕");
    assert_eq!(punct_shape_comment(""), "");
    assert_eq!(punct_shape_comment("ab"), "");
}

fn push_bytes(out: &mut Vec<u8>, bytes: &[u8]) {
    out.extend_from_slice(&(bytes.len() as u16).to_le_bytes());
    out.extend_from_slice(bytes);
}

fn index_bytes(
    syllables: &[&str],
    spellings: &[(&str, &[(u32, u8)])],
    groups: &[(&[u16], u32)],
    entries: &[(u32, &str)],
) -> Vec<u8> {
    let mut out = b"TCSRV01\n".to_vec();
    for count in [syllables.len(), spellings.len(), groups.len(), entries.len()] {
        out.extend_from_slice(&(count as u32).to_le_bytes());
    }
    for syllable in syllables {
        push_bytes(&mut out, syllable.as_bytes());
    }
    for (key, alternatives) in spellings {
        push_bytes(&mut out, key.as_bytes());
        out.push(alternatives.len() as u8);
        for (syllable, mark) in alternatives.iter() {
            out.extend_from_slice(&syllable.to_le_bytes());
            out.push(*mark);
        }
    }
    for (code, count) in groups {
        out.push(code.len() as u8);
        for id in code.iter() {
            out.extend_from_slice(&id.to_le_bytes());
        }
        out.extend_from_slice(&count.to_le_bytes());
    }
    for (weight, text) in entries {
        out.extend_from_slice(&weight.to_le_bytes());
        push_bytes(&mut out, text.as_bytes());
    }
    out
}

fn edge(end: usize, syllable: u32, kind: u8, spelling: u8) -> SyllableEdge {
    SyllableEdge { end, syllable, kind, spelling }
}

#[test]
fn parsed_index_reports_counts_and_readings() {
    let data = index_bytes(
        &["zhong", "guo"],
        &[("zhong", &[(0, 0)]), ("guo", &[(1, 0)])],
        &[(&[0], 2), (&[0, 1], 1)],
        &[(5, "中"), (3, "钟"), (9, "中国")],
    );
    let index = PinyinIndex::from_bytes(&data).expect("index");
    assert_eq!(index.syllable_count(), 2);
    assert_eq!(index.group_count(), 2);
    assert_eq!(index.entry_count(), 3);
    assert_eq!(index.character_pinyin('中'), ["zhong".to_string()].as_slice());
    assert!(index.character_pinyin('国').is_empty());
}

#[test]
fn parse_rejects_bad_data() {
    assert!(matches!(PinyinIndex::from_bytes(b"TCSRV02\n"), Err(IndexError::BadMagic)));
    assert!(matches!(PinyinIndex::from_bytes(b"TCSRV01\n\x01"), Err(IndexError::Truncated)));
    let mismatch = index_bytes(&["a"], &[], &[(&[0], 2)], &[(1, "甲")]);
    assert!(matches!(PinyinIndex::from_bytes(&mismatch), Err(IndexError::EntryCountMismatch)));
    let unknown = index_bytes(&["a"], &[], &[(&[3], 1)], &[(1, "甲")]);
    assert!(matches!(PinyinIndex::from_bytes(&unknown), Err(IndexError::UnknownSyllable)));
}

#[test]
fn syllable_graph_prunes_abbreviations_when_full_spelling_reaches_the_end() {
    let data = index_bytes(
        &["zhong", "guo"],
        &[
            ("zhong", &[(0, 0)]),
            ("zh", &[(0, 1)]),
            ("guo", &[(1, 0)]),
            ("g", &[(1, 1)]),
        ],
        &[],
        &[],
    );
    let index = PinyinIndex::from_bytes(&data).expect("index");
    let built = build_edges(&index, b"zhongguo");
    assert_eq!(built[0], vec![edge(2, 0, 2, 1), edge(5, 0, 0, 0)]);
    assert_eq!(built[5], vec![edge(6, 1, 2, 1), edge(8, 1, 0, 0)]);
    let kinds = path_types(&built, 8);
    assert_eq!(kinds[0], Some(0));
    assert_eq!(kinds[2], Some(2));
    assert_eq!(kinds[6], Some(2));
    assert_eq!(kinds[8], Some(0));
    assert_eq!(kinds[3], None);
    let graph = syllable_graph(&index, b"zhongguo").expect("graph");
    assert_eq!(graph[0], vec![edge(5, 0, 0, 0)]);
    assert_eq!(graph[5], vec![edge(8, 1, 0, 0)]);
    assert!(graph[2].is_empty());
}

#[test]
fn syllable_graph_completes_an_unmatched_tail() {
    let data = index_bytes(
        &["zhong", "guo"],
        &[("zhong", &[(0, 0)]), ("guo", &[(1, 0)])],
        &[],
        &[],
    );
    let index = PinyinIndex::from_bytes(&data).expect("index");
    let graph = syllable_graph(&index, b"zhonggu").expect("graph");
    assert_eq!(graph[0], vec![edge(5, 0, 0, 0)]);
    assert_eq!(graph[5], vec![edge(7, 1, 3, 0)]);
    assert!(syllable_graph(&index, b"zhongx").is_none());
}

#[test]
fn prune_keeps_edges_to_surviving_positions() {
    let mut edges = vec![
        vec![edge(1, 0, 0, 0), edge(2, 1, 2, 1)],
        vec![edge(2, 2, 0, 0)],
        vec![],
    ];
    let kinds = path_types(&edges, 2);
    assert_eq!(kinds, vec![Some(0), Some(0), Some(0)]);
    prune(&mut edges, &kinds, 2, 1);
    assert_eq!(edges[0], vec![edge(1, 0, 0, 0)]);
    assert_eq!(edges[1], vec![edge(2, 2, 0, 0)]);
    assert_eq!(sort_edges(&vec![edge(3, 2, 0, 0), edge(1, 2, 0, 0), edge(9, 1, 0, 0), edge(1, 2, 1, 1)]),
        vec![edge(9, 1, 0, 0), edge(1, 2, 0, 0), edge(1, 2, 1, 1), edge(3, 2, 0, 0)]);
}

#[test]
fn bare_prefix_gives_the_punctuation_candidate() {
    let mut table = PunctTable::parse(
        "punctuator:\n  half_shape:\n    \"`\": \"`\"\n    \"'\": { pair: [ \"‘\", \"’\" ] }\n",
    )
    .expect("parse");
    let candidate = punct_candidate(Some(&mut table), '`', false, 3, 4).expect("candidate");
    assert_eq!(candidate.kind, "punct");
    assert_eq!((candidate.start, candidate.end), (3, 4));
    assert_eq!(candidate.text, "`");
    assert_eq!(candidate.comment, "〔半角〕");
    assert_eq!(candidate.preedit, "`", "单字节区间以标点为预编辑");
    let wide = punct_candidate(Some(&mut table), '`', false, 0, 2).expect("candidate");
    assert_eq!(wide.preedit, "");
    let first = punct_candidate(Some(&mut table), '\'', false, 0, 1).expect("candidate");
    let second = punct_candidate(Some(&mut table), '\'', false, 0, 1).expect("candidate");
    assert_eq!((first.text.as_str(), second.text.as_str()), ("‘", "’"));
    assert_eq!(first.comment, "", "不在宽度分类中的符号无注释");
    assert!(punct_candidate(Some(&mut table), '`', true, 0, 1).is_none(), "全角未定义");
    assert!(punct_candidate(None, '`', false, 0, 1).is_none());
}
