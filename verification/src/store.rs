//! What the option store file holds: the document of `tiger_sentence.options.yaml`, the
//! boolean values under its `options:` mapping, the `var/option` values of `user.yaml`
//! as a read-only fallback, and the entries a save writes back.

use vstd::prelude::*;
use crate::punct::{hash_child, load_yaml, spec_hash_child, yaml_load, yaml_value, YamlNode};
use crate::tables::{flag_table_contents, no_flags, FlagTable};

verus! {

/// The mapping of the store document that holds the option values.
pub const OPTIONS_KEY: &'static str = "options";
/// The mapping of `user.yaml` that holds its variables.
pub const LEGACY_ROOT: &'static str = "var";
/// The mapping under [`LEGACY_ROOT`] that holds the option values.
pub const LEGACY_OPTION: &'static str = "option";

/// The view of an optional text.
pub open spec fn text_of(text: Option<&str>) -> Option<Seq<char>> {
    match text {
        Some(t) => Some(t@),
        None => None,
    }
}

/// The first document of a text, when there is a text, it parses and it holds a document.
pub open spec fn first_document(text: Option<Seq<char>>) -> Option<YamlNode> {
    match text {
        Some(t) => match yaml_load(t) {
            Ok(documents) => if documents.len() > 0 {
                Some(documents[0])
            } else {
                None
            },
            Err(_) => None,
        },
        None => None,
    }
}

/// A mapping without entries.
pub open spec fn empty_mapping(node: YamlNode) -> bool {
    node matches YamlNode::Hash(entries) && entries@.len() == 0
}

/// `document` is the store document read from `text`: its first document when that is a
/// mapping, else an empty mapping.
pub open spec fn is_store_document(document: YamlNode, text: Option<Seq<char>>) -> bool {
    match first_document(text) {
        Some(first) => if first is Hash {
            document == first
        } else {
            empty_mapping(document)
        },
        None => empty_mapping(document),
    }
}

/// The values after reading boolean entries in order: each `name: true|false` entry is
/// stored (only where the name is missing, when `missing_only`); other entries are skipped.
pub open spec fn options_fold(
    entries: Seq<(YamlNode, YamlNode)>,
    values: Map<Seq<char>, bool>,
    missing_only: bool,
) -> Map<Seq<char>, bool>
    decreases entries.len(),
{
    if entries.len() == 0 {
        values
    } else {
        let before = options_fold(entries.drop_last(), values, missing_only);
        match entries.last() {
            (YamlNode::Text(name), YamlNode::Boolean(flag)) => if !missing_only || !before.contains_key(name@) {
                before.insert(name@, flag)
            } else {
                before
            },
            _ => before,
        }
    }
}

/// The values read from the mapping `node` under `key` (`values` unchanged when it is
/// absent or not a mapping).
pub open spec fn mapping_values(
    node: Option<YamlNode>,
    values: Map<Seq<char>, bool>,
    missing_only: bool,
) -> Map<Seq<char>, bool> {
    match node {
        Some(YamlNode::Hash(entries)) => options_fold(entries@, values, missing_only),
        _ => values,
    }
}

/// The stored option values: the `options:` booleans of the store document, then the
/// `var/option` booleans of the fallback document for the names still missing.
pub open spec fn spec_stored_values(document: YamlNode, legacy: Option<YamlNode>) -> Map<Seq<char>, bool> {
    let own = mapping_values(spec_hash_child(document, OPTIONS_KEY@), no_flags(), false);
    match legacy {
        Some(fallback) => match spec_hash_child(fallback, LEGACY_ROOT@) {
            Some(variables) => mapping_values(spec_hash_child(variables, LEGACY_OPTION@), own, true),
            None => own,
        },
        None => own,
    }
}

/// The first document of a text, when it parses and holds one.
fn first_of(text: Option<&str>) -> (first: Option<YamlNode>)
    ensures
        first == first_document(text_of(text)),
{
    match text {
        Some(t) => match load_yaml(t) {
            Ok(documents) => {
                let mut documents = documents;
                if documents.len() > 0 {
                    Some(documents.remove(0))
                } else {
                    None
                }
            },
            Err(_) => None,
        },
        None => None,
    }
}

/// The store document read from the store file's text (`None` when the file could not
/// be read): its first document when that is a mapping, else an empty mapping.
pub fn store_document(store_text: Option<&str>) -> (document: YamlNode)
    ensures
        is_store_document(document, text_of(store_text)),
{
    match first_of(store_text) {
        Some(YamlNode::Hash(entries)) => YamlNode::Hash(entries),
        _ => YamlNode::Hash(Vec::new()),
    }
}

/// Reads the boolean entries of a mapping into `values`.
fn read_options(entries: &Vec<(YamlNode, YamlNode)>, values: &mut FlagTable, missing_only: bool)
    ensures
        flag_table_contents(*final(values)) == options_fold(entries@, flag_table_contents(*old(values)), missing_only),
{
    let ghost start = flag_table_contents(*values);
    let mut i: usize = 0;
    while i < entries.len()
        invariant
            i <= entries@.len(),
            flag_table_contents(*values) == options_fold(entries@.take(i as int), start, missing_only),
        decreases entries.len() - i,
    {
        proof {
            assert(entries@.take(i + 1).drop_last() =~= entries@.take(i as int));
            assert(entries@.take(i + 1).last() == entries@[i as int]);
        }
        let (key, value) = &entries[i];
        if let YamlNode::Text(name) = key {
            if let YamlNode::Boolean(flag) = value {
                if !missing_only || values.get(name.as_str()).is_none() {
                    values.insert(name.as_str(), *flag);
                }
            }
        }
        i = i + 1;
    }
    assert(entries@.take(i as int) =~= entries@);
}

/// Reads the mapping `node`, when it is one, into `values`.
fn read_mapping(node: Option<&YamlNode>, values: &mut FlagTable, missing_only: bool)
    ensures
        flag_table_contents(*final(values)) == mapping_values(
            match node {
                Some(n) => Some(*n),
                None => None,
            },
            flag_table_contents(*old(values)),
            missing_only,
        ),
{
    if let Some(YamlNode::Hash(entries)) = node {
        read_options(entries, values, missing_only);
    }
}

/// The stored option values: the `options:` booleans of the store document, then, for the
/// names still missing, the `var/option` booleans of `user.yaml` (its text, `None` when
/// the file could not be read).
pub fn stored_values(document: &YamlNode, legacy_text: Option<&str>) -> (values: FlagTable)
    ensures
        flag_table_contents(values) == spec_stored_values(*document, first_document(text_of(legacy_text))),
{
    let mut values = FlagTable::new();
    read_mapping(hash_child(document, OPTIONS_KEY), &mut values, false);
    let legacy = first_of(legacy_text);
    if let Some(fallback) = &legacy {
        if let Some(variables) = hash_child(fallback, LEGACY_ROOT) {
            read_mapping(hash_child(variables, LEGACY_OPTION), &mut values, true);
        }
    }
    values
}

/// Text order: character by character by code point, a proper prefix first (the order of
/// `String`, whose UTF-8 bytes compare as their code points do).
pub open spec fn text_less(a: Seq<char>, b: Seq<char>) -> bool
    decreases a.len(),
{
    if a.len() == 0 {
        b.len() > 0
    } else if b.len() == 0 {
        false
    } else if a[0] != b[0] {
        (a[0] as u32) < (b[0] as u32)
    } else {
        text_less(a.drop_first(), b.drop_first())
    }
}

/// Two texts are equal or one comes before the other, never both.
proof fn lemma_text_order_total(a: Seq<char>, b: Seq<char>)
    ensures
        a == b || text_less(a, b) || text_less(b, a),
        !(text_less(a, b) && text_less(b, a)),
        !text_less(a, a),
    decreases a.len(),
{
    if a.len() > 0 {
        lemma_text_order_total(a.drop_first(), a.drop_first());
    }
    if a.len() == 0 && b.len() == 0 {
        assert(a =~= b);
    } else if a.len() > 0 && b.len() > 0 {
        lemma_text_order_total(a.drop_first(), b.drop_first());
        if a[0] == b[0] && a.drop_first() == b.drop_first() {
            assert(a =~= seq![a[0]] + a.drop_first());
            assert(b =~= seq![b[0]] + b.drop_first());
        }
        if a[0] != b[0] {
            vstd::utf8::char_u32_cast(a[0], a[0] as u32);
            vstd::utf8::char_u32_cast(b[0], b[0] as u32);
        }
    }
}

/// Text order is transitive.
proof fn lemma_text_less_transitive(a: Seq<char>, b: Seq<char>, c: Seq<char>)
    requires
        text_less(a, b),
        text_less(b, c),
    ensures
        text_less(a, c),
    decreases a.len(),
{
    if a.len() > 0 && b.len() > 0 && c.len() > 0 && a[0] == b[0] && b[0] == c[0] {
        lemma_text_less_transitive(a.drop_first(), b.drop_first(), c.drop_first());
    }
}

/// Whether `a` comes before `b` in text order.
fn text_before(a: &str, b: &str) -> (before: bool)
    ensures
        before == text_less(a@, b@),
{
    let x = crate::learning::char_vec(a);
    let y = crate::learning::char_vec(b);
    let mut i: usize = 0;
    assert(a@.skip(0) =~= a@);
    assert(b@.skip(0) =~= b@);
    while i < x.len() && i < y.len()
        invariant
            i <= x@.len(),
            i <= y@.len(),
            x@ == a@,
            y@ == b@,
            text_less(a@, b@) == text_less(a@.skip(i as int), b@.skip(i as int)),
        decreases x.len() - i,
    {
        if x[i] != y[i] {
            return (x[i] as u32) < (y[i] as u32);
        }
        proof {
            assert(a@.skip(i as int).drop_first() =~= a@.skip(i + 1));
            assert(b@.skip(i as int).drop_first() =~= b@.skip(i + 1));
        }
        i = i + 1;
    }
    i < y.len()
}

/// The names in strict text order.
pub open spec fn names_ascending(entries: Seq<(String, bool)>) -> bool {
    forall|i: int, j: int| 0 <= i < j < entries.len() ==> text_less(entries[i].0@, entries[j].0@)
}

/// `entries` are the stored values, each name once, sorted by name.
pub open spec fn entries_of(values: FlagTable, entries: Seq<(String, bool)>) -> bool {
    &&& names_ascending(entries)
    &&& forall|name: Seq<char>| flag_table_contents(values).contains_key(name) <==> exists|i: int|
        0 <= i < entries.len() && (#[trigger] entries[i]).0@ == name
    &&& forall|i: int| 0 <= i < entries.len() ==> flag_table_contents(values).contains_key((#[trigger] entries[i]).0@)
        && flag_table_contents(values)[entries[i].0@] == entries[i].1
}

/// The entries a save writes under `options:`: every stored value, once per name, the
/// names in text order.
pub fn saved_entries(values: &FlagTable) -> (entries: Vec<(String, bool)>)
    ensures
        entries_of(*values, entries@),
{
    let names = values.keys();
    let mut entries: Vec<(String, bool)> = Vec::new();
    let mut k: usize = 0;
    while k < names.len()
        invariant
            k <= names@.len(),
            names_ascending(entries@),
            forall|name: Seq<char>| #[trigger] crate::tables::text_views(names@).contains(name)
                <==> flag_table_contents(*values).contains_key(name),
            forall|i: int| 0 <= i < entries@.len() ==> flag_table_contents(*values).contains_key((#[trigger] entries@[i]).0@)
                && flag_table_contents(*values)[entries@[i].0@] == entries@[i].1,
            forall|j: int| 0 <= j < k ==> exists|i: int| 0 <= i < entries@.len() && (#[trigger] entries@[i]).0@ == (#[trigger] names@[j])@,
        decreases names.len() - k,
    {
        let name = &names[k];
        proof {
            assert(crate::tables::text_views(names@)[k as int] == names@[k as int]@);
            assert(crate::tables::text_views(names@).contains(names@[k as int]@));
        }
        let value = match values.get(name.as_str()) {
            Some(v) => v,
            None => false,
        };
        let mut p: usize = 0;
        while p < entries.len() && text_before(entries[p].0.as_str(), name.as_str())
            invariant
                p <= entries@.len(),
                forall|i: int| 0 <= i < p ==> text_less((#[trigger] entries@[i]).0@, name@),
            decreases entries.len() - p,
        {
            p = p + 1;
        }
        let present = p < entries.len() && crate::text::str_eq(entries[p].0.as_str(), name.as_str());
        let ghost before = entries@;
        if !present {
            proof {
                if p < before.len() {
                    lemma_text_order_total(before[p as int].0@, name@);
                }
                assert forall|i: int, j: int| 0 <= i < j < before.len() implies text_less(before[i].0@, before[j].0@) by {}
            }
            entries.insert(p, (crate::text::to_owned_string(name.as_str()), value));
            proof {
                assert forall|i: int, j: int| 0 <= i < j < entries@.len() implies text_less(
                    entries@[i].0@,
                    entries@[j].0@,
                ) by {
                    if j < p {
                        assert(entries@[i] == before[i] && entries@[j] == before[j]);
                    } else if j == p {
                        assert(entries@[i] == before[i]);
                    } else if i < p {
                        assert(entries@[i] == before[i] && entries@[j] == before[j - 1]);
                        assert(text_less(before[i].0@, name@));
                        if j - 1 > p {
                            lemma_text_less_transitive(name@, before[p as int].0@, before[j - 1].0@);
                        }
                        lemma_text_less_transitive(before[i].0@, name@, before[j - 1].0@);
                    } else if i == p {
                        assert(entries@[j] == before[j - 1]);
                        if j - 1 > p {
                            lemma_text_less_transitive(name@, before[p as int].0@, before[j - 1].0@);
                        }
                    } else {
                        assert(entries@[i] == before[i - 1] && entries@[j] == before[j - 1]);
                    }
                }
                assert forall|j: int| 0 <= j < k + 1 implies exists|i: int|
                    0 <= i < entries@.len() && (#[trigger] entries@[i]).0@ == (#[trigger] names@[j])@ by {
                    if j == k {
                        assert(entries@[p as int].0@ == names@[j]@);
                    } else {
                        let i0 = choose|i: int| 0 <= i < before.len() && (#[trigger] before[i]).0@ == names@[j]@;
                        if i0 < p {
                            assert(entries@[i0] == before[i0]);
                        } else {
                            assert(entries@[i0 + 1] == before[i0]);
                        }
                    }
                }
            }
        } else {
            proof {
                assert(exists|i: int| 0 <= i < entries@.len() && (#[trigger] entries@[i]).0@ == names@[k as int]@) by {
                    assert(entries@[p as int].0@ == names@[k as int]@);
                }
            }
        }
        k = k + 1;
    }
    proof {
        assert forall|name: Seq<char>| flag_table_contents(*values).contains_key(name) implies exists|i: int|
            0 <= i < entries@.len() && (#[trigger] entries@[i]).0@ == name by {
            assert(crate::tables::text_views(names@).contains(name));
            let j = choose|j: int| 0 <= j < names@.len() && crate::tables::text_views(names@)[j] == name;
            assert(crate::tables::text_views(names@)[j] == names@[j]@);
        }
    }
    entries
}

/// A text key `key`.
pub open spec fn is_text_key(node: YamlNode, key: Seq<char>) -> bool {
    node matches YamlNode::Text(name) && name@ == key
}

/// Index of the first entry keyed by the text `key` (the length when there is none).
pub open spec fn key_index(entries: Seq<(YamlNode, YamlNode)>, key: Seq<char>) -> int
    decreases entries.len(),
{
    if entries.len() == 0 {
        0
    } else if is_text_key(entries[0].0, key) {
        0
    } else {
        1 + key_index(entries.drop_first(), key)
    }
}

proof fn lemma_key_index_bound(entries: Seq<(YamlNode, YamlNode)>, key: Seq<char>)
    ensures
        0 <= key_index(entries, key) <= entries.len(),
    decreases entries.len(),
{
    if entries.len() > 0 {
        lemma_key_index_bound(entries.drop_first(), key);
    }
}

/// The entries of a mapping (none for another node).
pub open spec fn mapping_entries(node: YamlNode) -> Seq<(YamlNode, YamlNode)> {
    match node {
        YamlNode::Hash(entries) => entries@,
        _ => Seq::empty(),
    }
}

/// A mapping with `name` set to `value`: the entry keyed by `name` gets the value in
/// place, or a new entry is appended.
pub open spec fn set_entry(mapping: Seq<(YamlNode, YamlNode)>, name: String, value: bool) -> Seq<(YamlNode, YamlNode)> {
    let i = key_index(mapping, name@);
    if i < mapping.len() {
        mapping.update(i, (mapping[i].0, YamlNode::Boolean(value)))
    } else {
        mapping.push((YamlNode::Text(name), YamlNode::Boolean(value)))
    }
}

/// A mapping with each entry set in turn.
pub open spec fn set_entries(mapping: Seq<(YamlNode, YamlNode)>, entries: Seq<(String, bool)>) -> Seq<(YamlNode, YamlNode)>
    decreases entries.len(),
{
    if entries.len() == 0 {
        mapping
    } else {
        set_entry(set_entries(mapping, entries.drop_last()), entries.last().0, entries.last().1)
    }
}

/// `saved` is `document` with `entries` written under `options:`: the document's other
/// entries kept in place, the `options:` mapping (made a mapping, and appended when
/// missing) with each entry set in turn.
pub open spec fn is_saved_document(saved: YamlNode, document: YamlNode, entries: Seq<(String, bool)>) -> bool {
    let base = mapping_entries(document);
    let p = key_index(base, OPTIONS_KEY@);
    match saved {
        YamlNode::Hash(result) => if p < base.len() {
            &&& result@.len() == base.len()
            &&& forall|i: int| 0 <= i < base.len() && i != p ==> result@[i] == base[i]
            &&& result@[p].0 == base[p].0
            &&& result@[p].1 matches YamlNode::Hash(options) && options@ == set_entries(mapping_entries(base[p].1), entries)
        } else {
            &&& result@.len() == base.len() + 1
            &&& forall|i: int| 0 <= i < base.len() ==> result@[i] == base[i]
            &&& is_text_key(result@[p].0, OPTIONS_KEY@)
            &&& result@[p].1 matches YamlNode::Hash(options) && options@ == set_entries(Seq::empty(), entries)
        },
        _ => false,
    }
}

/// The index of the first entry keyed by the text `key`.
fn key_position(entries: &Vec<(YamlNode, YamlNode)>, key: &str) -> (position: usize)
    ensures
        position == key_index(entries@, key@),
{
    let mut i: usize = 0;
    assert(entries@.skip(0) =~= entries@);
    while i < entries.len()
        invariant
            i <= entries@.len(),
            key_index(entries@, key@) == i + key_index(entries@.skip(i as int), key@),
        decreases entries.len() - i,
    {
        proof {
            assert(entries@.skip(i as int).drop_first() =~= entries@.skip(i + 1));
            assert(entries@.skip(i as int)[0] == entries@[i as int]);
        }
        if let YamlNode::Text(name) = &entries[i].0 {
            if crate::text::str_eq(name.as_str(), key) {
                return i;
            }
        }
        i = i + 1;
    }
    assert(entries@.skip(i as int) =~= Seq::<(YamlNode, YamlNode)>::empty());
    i
}

/// Sets `name` to `value` in a mapping.
fn set_value_entry(mapping: &mut Vec<(YamlNode, YamlNode)>, name: String, value: bool)
    ensures
        final(mapping)@ == set_entry(old(mapping)@, name, value),
{
    let i = key_position(mapping, name.as_str());
    proof {
        lemma_key_index_bound(mapping@, name@);
    }
    if i < mapping.len() {
        let (key, _) = mapping.remove(i);
        mapping.insert(i, (key, YamlNode::Boolean(value)));
        assert(mapping@ =~= set_entry(old(mapping)@, name, value));
    } else {
        mapping.push((YamlNode::Text(name), YamlNode::Boolean(value)));
    }
}

/// Sets each entry in turn.
fn set_all(mapping: &mut Vec<(YamlNode, YamlNode)>, entries: Vec<(String, bool)>)
    ensures
        final(mapping)@ == set_entries(old(mapping)@, entries@),
{
    let ghost all = entries@;
    let ghost start = mapping@;
    let mut rest = entries;
    let ghost mut k: int = 0;
    assert(all.take(0) =~= Seq::<(String, bool)>::empty());
    assert(all.skip(0) =~= all);
    while rest.len() > 0
        invariant
            0 <= k <= all.len(),
            k + rest@.len() == all.len(),
            rest@ == all.skip(k),
            mapping@ == set_entries(start, all.take(k)),
        decreases rest@.len(),
    {
        let (name, value) = rest.remove(0);
        proof {
            assert(all.take(k + 1).drop_last() =~= all.take(k));
            assert(all.take(k + 1).last() == all[k]);
            assert(rest@ =~= all.skip(k + 1));
        }
        set_value_entry(mapping, name, value);
        proof {
            k = k + 1;
        }
    }
    assert(all.take(k) =~= all);
}

/// The document a save writes: `document` (made a mapping) with `entries` written under
/// its `options:` mapping (made a mapping, appended when missing), each in turn; every
/// other entry is kept in place.
pub fn saved_document(document: YamlNode, entries: Vec<(String, bool)>) -> (saved: YamlNode)
    ensures
        is_saved_document(saved, document, entries@),
{
    let ghost doc = document;
    let mut base: Vec<(YamlNode, YamlNode)> = match document {
        YamlNode::Hash(items) => items,
        _ => Vec::new(),
    };
    let ghost before = base@;
    assert(before == mapping_entries(doc));
    let p = key_position(&base, OPTIONS_KEY);
    proof {
        lemma_key_index_bound(before, OPTIONS_KEY@);
    }
    if p < base.len() {
        let (key, value) = base.remove(p);
        let mut mapping: Vec<(YamlNode, YamlNode)> = match value {
            YamlNode::Hash(items) => items,
            _ => Vec::new(),
        };
        assert(mapping@ == mapping_entries(before[p as int].1));
        set_all(&mut mapping, entries);
        base.insert(p, (key, YamlNode::Hash(mapping)));
        assert forall|i: int| 0 <= i < before.len() && i != p implies base@[i] == before[i] by {
            if i < p {
                assert(base@[i] == before.remove(p as int)[i]);
            } else {
                assert(base@[i] == before.remove(p as int)[i - 1]);
            }
        }
    } else {
        let mut mapping: Vec<(YamlNode, YamlNode)> = Vec::new();
        set_all(&mut mapping, entries);
        let key = crate::text::to_owned_string(OPTIONS_KEY);
        base.push((YamlNode::Text(key), YamlNode::Hash(mapping)));
    }
    YamlNode::Hash(base)
}

/// The text `yaml_rust2::YamlEmitter::dump` writes for a document.
pub uninterp spec fn yaml_dump(document: YamlNode) -> Seq<char>;

/// `yaml_rust2::YamlEmitter::dump` into a fresh `String`: its text is [`yaml_dump`] of the
/// document. The emitter's only error is one its writer reports (`EmitError::FmtError`),
/// and a `String` never reports one (std's `ToString` documentation: "`fmt::Write` for
/// `String` never returns an error itself"), so a text always comes back.
#[verifier::external_body]
fn dump_yaml(document: &YamlNode) -> (text: Option<String>)
    ensures
        text is Some,
        match text {
            Some(t) => t@ == yaml_dump(*document),
            None => true,
        },
{
    let mut text = String::new();
    let written = yaml_rust2::YamlEmitter::new(&mut text).dump(&yaml_value(document));
    match written {
        Ok(()) => Some(text),
        Err(_) => None,
    }
}

/// The saved store document and its text: the document with the stored values written
/// into its `options` mapping (see [`saved_document`]), and the text the emitter writes
/// for it.
pub fn saved_text(document: YamlNode, values: &FlagTable) -> (saved: (YamlNode, String))
    ensures
        exists|entries: Seq<(String, bool)>|
            entries_of(*values, entries) && #[trigger] is_saved_document(saved.0, document, entries),
        saved.1@ == yaml_dump(saved.0),
{
    let entries = saved_entries(values);
    let ghost listed = entries@;
    let node = saved_document(document, entries);
    let ghost saved_node = node;
    let text = match dump_yaml(&node) {
        Some(text) => text,
        None => String::new(),
    };
    let saved = (node, text);
    assert(saved.0 == saved_node);
    assert(entries_of(*values, listed) && is_saved_document(saved.0, document, listed));
    saved
}

} // verus!
