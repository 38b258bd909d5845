//! Punctuation tables (librime `punctuator` equivalent): half/full shape mappings of
//! `symbols.yaml`, with per-session alternation of paired symbols.

use vstd::prelude::*;

verus! {

/// A punctuation definition.
#[derive(Clone, Debug, PartialEq, Eq)]
pub enum PunctDef {
    /// A single text: a scalar string or `{ commit: X }`.
    Text(String),
    /// A pair `{ pair: [a, b] }` whose halves alternate key by key.
    Pair(String, String),
}

/// Alternation state of paired symbols, per key and shape (one per session).
#[derive(Clone, Debug, Default)]
pub struct PairState {
    entries: Vec<(char, bool, bool)>,
}

/// Index of the first entry for `(key, full_shape)` at or after `i` (`len` when none).
pub open spec fn pair_index_from(entries: Seq<(char, bool, bool)>, key: char, full_shape: bool, i: int) -> int
    decreases entries.len() - i,
{
    if i < 0 || i >= entries.len() {
        entries.len() as int
    } else if entries[i].0 == key && entries[i].1 == full_shape {
        i
    } else {
        pair_index_from(entries, key, full_shape, i + 1)
    }
}

pub proof fn lemma_pair_index_from(entries: Seq<(char, bool, bool)>, key: char, full_shape: bool, i: int)
    requires
        0 <= i <= entries.len(),
    ensures
        i <= pair_index_from(entries, key, full_shape, i) <= entries.len(),
        pair_index_from(entries, key, full_shape, i) < entries.len() ==> entries[pair_index_from(
            entries,
            key,
            full_shape,
            i,
        )].0 == key && entries[pair_index_from(entries, key, full_shape, i)].1 == full_shape,
        forall|j: int|
            i <= j < pair_index_from(entries, key, full_shape, i) ==> !(entries[j].0 == key
                && entries[j].1 == full_shape),
    decreases entries.len() - i,
{
    if i < entries.len() && !(entries[i].0 == key && entries[i].1 == full_shape) {
        lemma_pair_index_from(entries, key, full_shape, i + 1);
    }
}

pub proof fn lemma_pair_index_is(entries: Seq<(char, bool, bool)>, key: char, full_shape: bool, k: int)
    requires
        0 <= k <= entries.len(),
        k < entries.len() ==> entries[k].0 == key && entries[k].1 == full_shape,
        forall|j: int| 0 <= j < k ==> !(entries[j].0 == key && entries[j].1 == full_shape),
    ensures
        pair_index_from(entries, key, full_shape, 0) == k,
{
    lemma_pair_index_from(entries, key, full_shape, 0);
    let found = pair_index_from(entries, key, full_shape, 0);
    if found < k {
        assert(!(entries[found].0 == key && entries[found].1 == full_shape));
    }
    if k < found {
        assert(!(entries[k].0 == key && entries[k].1 == full_shape));
    }
}

/// Whether the next paired symbol of `(key, full_shape)` is the second half.
pub open spec fn pair_oddness(entries: Seq<(char, bool, bool)>, key: char, full_shape: bool) -> bool {
    let i = pair_index_from(entries, key, full_shape, 0);
    i < entries.len() && entries[i].2
}

impl PairState {
    /// The state's entries.
    pub closed spec fn entries(&self) -> Seq<(char, bool, bool)> {
        self.entries@
    }

    /// A state where every pair starts with its first half.
    pub fn new() -> (state: Self)
        ensures
            forall|key: char, full_shape: bool| !pair_oddness(state.entries(), key, full_shape),
    {
        PairState { entries: Vec::new() }
    }

    /// Whether the next symbol of `(key, full_shape)` is the second half.
    pub open spec fn oddness(&self, key: char, full_shape: bool) -> bool {
        pair_oddness(self.entries(), key, full_shape)
    }

    /// Returns the current oddness of `(key, full_shape)` and flips it; other pairs keep theirs.
    pub fn toggle(&mut self, key: char, full_shape: bool) -> (odd: bool)
        ensures
            odd == old(self).oddness(key, full_shape),
            final(self).oddness(key, full_shape) == !odd,
            forall|other: char, shape: bool|
                !(other == key && shape == full_shape) ==> final(self).oddness(other, shape)
                    == old(self).oddness(other, shape),
    {
        let mut i: usize = 0;
        while i < self.entries.len()
            invariant
                i <= self.entries.len(),
                self.entries@ == old(self).entries@,
                forall|j: int|
                    0 <= j < i ==> !(self.entries@[j].0 == key && self.entries@[j].1 == full_shape),
            decreases self.entries.len() - i,
        {
            let entry = self.entries[i];
            if entry.0 == key && entry.1 == full_shape {
                let ghost before = self.entries@;
                proof {
                    lemma_pair_index_is(before, key, full_shape, i as int);
                }
                self.entries.set(i, (key, full_shape, !entry.2));
                proof {
                    lemma_pair_index_is(self.entries@, key, full_shape, i as int);
                    assert forall|other: char, shape: bool|
                        !(other == key && shape == full_shape) implies pair_oddness(
                        self.entries@,
                        other,
                        shape,
                    ) == pair_oddness(before, other, shape) by {
                        lemma_pair_index_from(before, other, shape, 0);
                        let k = pair_index_from(before, other, shape, 0);
                        lemma_pair_index_is(self.entries@, other, shape, k);
                    }
                }
                return entry.2;
            }
            i = i + 1;
        }
        let ghost before = self.entries@;
        proof {
            lemma_pair_index_is(before, key, full_shape, i as int);
        }
        self.entries.push((key, full_shape, true));
        proof {
            lemma_pair_index_is(self.entries@, key, full_shape, i as int);
            assert forall|other: char, shape: bool|
                !(other == key && shape == full_shape) implies pair_oddness(
                self.entries@,
                other,
                shape,
            ) == pair_oddness(before, other, shape) by {
                lemma_pair_index_from(before, other, shape, 0);
                let k = pair_index_from(before, other, shape, 0);
                if k < before.len() {
                    lemma_pair_index_is(self.entries@, other, shape, k);
                } else {
                    lemma_pair_index_is(self.entries@, other, shape, self.entries@.len() as int);
                }
            }
        }
        false
    }
}

/// A char-keyed table of punctuation definitions.
#[verifier::external_body]
pub struct SymbolMap {
    entries: hashbrown::HashMap<char, PunctDef>,
}

/// What a symbol table holds: key character → definition.
pub uninterp spec fn symbol_map_contents(map: SymbolMap) -> Map<char, PunctDef>;

/// The table with no definition.
pub open spec fn no_symbols() -> Map<char, PunctDef> {
    Map::empty()
}

impl SymbolMap {
    /// An empty table (`hashbrown::HashMap::new`).
    #[verifier::external_body]
    pub(crate) fn new() -> (created: SymbolMap)
        ensures
            symbol_map_contents(created) == no_symbols(),
    {
        SymbolMap { entries: hashbrown::HashMap::new() }
    }

    /// The definition of `key` (`hashbrown::HashMap::get`).
    #[verifier::external_body]
    pub(crate) fn get(&self, key: char) -> (definition: Option<&PunctDef>)
        ensures
            match definition {
                Some(d) => symbol_map_contents(*self).contains_key(key) && *d == symbol_map_contents(*self)[key],
                None => !symbol_map_contents(*self).contains_key(key),
            },
    {
        self.entries.get(&key)
    }

    /// Defines `key`, replacing an earlier definition (`hashbrown::HashMap::insert`).
    #[verifier::external_body]
    pub(crate) fn insert(&mut self, key: char, definition: PunctDef)
        ensures
            symbol_map_contents(*final(self)) == symbol_map_contents(*old(self)).insert(key, definition),
    {
        self.entries.insert(key, definition);
    }

    /// Whether the table holds no definition (`hashbrown::HashMap::is_empty`).
    #[verifier::external_body]
    pub(crate) fn is_empty(&self) -> (empty: bool)
        ensures
            empty == symbol_map_contents(*self).dom().is_empty(),
    {
        self.entries.is_empty()
    }
}

/// The text that a definition commits, given the pair's current oddness.
pub open spec fn definition_text(definition: PunctDef, odd: bool) -> Seq<char> {
    match definition {
        PunctDef::Text(text) => text@,
        PunctDef::Pair(first, second) => if odd { second@ } else { first@ },
    }
}

/// Punctuation table: half- and full-shape mappings, with the alternation state of its
/// own pairs.
pub struct PunctTable {
    half: SymbolMap,
    full: SymbolMap,
    pairs: PairState,
}

/// What a definition commits, by views: the text, and the second half of a pair.
pub open spec fn definition_view(definition: PunctDef) -> (Seq<char>, Option<Seq<char>>) {
    match definition {
        PunctDef::Text(text) => (text@, None),
        PunctDef::Pair(first, second) => (first@, Some(second@)),
    }
}

/// Two definition maps agree key by key, up to the texts' views.
pub open spec fn same_definitions(a: Map<char, PunctDef>, b: Map<char, PunctDef>) -> bool {
    &&& a.dom() == b.dom()
    &&& forall|key: char| a.contains_key(key) ==> definition_view(#[trigger] a[key]) == definition_view(b[key])
}

impl PunctTable {
    /// Definitions used when full-shape punctuation is off.
    pub closed spec fn half_shape(&self) -> Map<char, PunctDef> {
        symbol_map_contents(self.half)
    }

    /// Definitions used when full-shape punctuation is on.
    pub closed spec fn full_shape(&self) -> Map<char, PunctDef> {
        symbol_map_contents(self.full)
    }

    /// The table's own pair alternation (used by [`PunctTable::resolve`]).
    pub closed spec fn pair_state(&self) -> PairState {
        self.pairs
    }

    /// The mapping in force for a shape.
    pub open spec fn shape(&self, full_shape: bool) -> Map<char, PunctDef> {
        if full_shape {
            self.full_shape()
        } else {
            self.half_shape()
        }
    }

    /// A table without definitions.
    pub fn new() -> (table: PunctTable)
        ensures
            table.half_shape() == no_symbols(),
            table.full_shape() == no_symbols(),
            forall|key: char, full_shape: bool| !table.pair_state().oddness(key, full_shape),
    {
        PunctTable { half: SymbolMap::new(), full: SymbolMap::new(), pairs: PairState::new() }
    }

    /// Adds a definition to one shape (later definitions of a key replace earlier ones).
    pub fn define(&mut self, full_shape: bool, key: char, definition: PunctDef)
        ensures
            final(self).shape(full_shape) == old(self).shape(full_shape).insert(key, definition),
            final(self).shape(!full_shape) == old(self).shape(!full_shape),
            final(self).pair_state() == old(self).pair_state(),
    {
        if full_shape {
            self.full.insert(key, definition);
        } else {
            self.half.insert(key, definition);
        }
    }

    /// Whether neither shape defines anything.
    pub fn is_empty(&self) -> (empty: bool)
        ensures
            empty == (self.half_shape().dom().is_empty() && self.full_shape().dom().is_empty()),
    {
        self.half.is_empty() && self.full.is_empty()
    }

    /// The text `key` commits in the given shape, with the pair alternation kept in
    /// `pairs` (the session's); a pair gives its halves in turn.
    pub fn resolve_with(&self, key: char, full_shape: bool, pairs: &mut PairState) -> (text: Option<String>)
        ensures
            resolved(*self, key, full_shape, *old(pairs), *final(pairs), match text {
                Some(t) => Some(t@),
                None => None,
            }),
    {
        let table = if full_shape { &self.full } else { &self.half };
        match table.get(key) {
            None => None,
            Some(PunctDef::Text(text)) => Some(text.clone()),
            Some(PunctDef::Pair(first, second)) => {
                let odd = pairs.toggle(key, full_shape);
                if odd {
                    Some(second.clone())
                } else {
                    Some(first.clone())
                }
            },
        }
    }

    /// The text `key` commits in the given shape; a pair gives its halves in turn, each
    /// pair and shape alternating on its own.
    pub fn resolve(&mut self, key: char, full_shape: bool) -> (text: Option<String>)
        ensures
            final(self).shape(true) == old(self).shape(true),
            final(self).shape(false) == old(self).shape(false),
            match text {
                None => !old(self).shape(full_shape).contains_key(key)
                    && final(self).pair_state() == old(self).pair_state(),
                Some(t) => old(self).shape(full_shape).contains_key(key) && t@ == definition_text(
                    old(self).shape(full_shape)[key],
                    old(self).pair_state().oddness(key, full_shape),
                ),
            },
            old(self).shape(full_shape).contains_key(key) && old(self).shape(full_shape)[key] is Pair ==> (
                final(self).pair_state().oddness(key, full_shape) == !old(self).pair_state().oddness(key, full_shape)
                && forall|other: char, shape: bool|
                    !(other == key && shape == full_shape) ==> final(self).pair_state().oddness(other, shape)
                        == old(self).pair_state().oddness(other, shape)),
            !(old(self).shape(full_shape).contains_key(key) && old(self).shape(full_shape)[key] is Pair)
                ==> final(self).pair_state() == old(self).pair_state(),
    {
        let table = if full_shape { &self.full } else { &self.half };
        match table.get(key) {
            None => None,
            Some(PunctDef::Text(text)) => Some(text.clone()),
            Some(PunctDef::Pair(first, second)) => {
                let odd = self.pairs.toggle(key, full_shape);
                if odd {
                    Some(second.clone())
                } else {
                    Some(first.clone())
                }
            },
        }
    }

    /// Reads a `symbols.yaml` document: the `punctuator` section's `half_shape` and
    /// `full_shape` maps; malformed entries are skipped, an unreadable document is an error.
    pub fn parse(content: &str) -> (parsed: Result<PunctTable, String>)
        ensures
            match parsed {
                Ok(table) => yaml_load(content@) matches Ok(documents) && ({
                    let shapes = spec_symbol_shapes(documents);
                    &&& same_definitions(table.half_shape(), shapes.0)
                    &&& same_definitions(table.full_shape(), shapes.1)
                    &&& forall|key: char, full_shape: bool| !table.pair_state().oddness(key, full_shape)
                }),
                Err(message) => yaml_load(content@) == Err::<Seq<YamlNode>, Seq<char>>(message@),
            },
    {
        let documents = match load_yaml(content) {
            Err(message) => {
                return Err(message);
            },
            Ok(documents) => documents,
        };
        Ok(PunctTable::from_documents(documents.as_slice()))
    }

    /// The table of read `symbols.yaml` documents: the first document's `punctuator`
    /// section, its `half_shape` and `full_shape` maps; malformed entries are skipped, and
    /// no pair has been used yet.
    pub fn from_documents(documents: &[YamlNode]) -> (table: PunctTable)
        ensures
            ({
                let shapes = spec_symbol_shapes(documents@);
                &&& same_definitions(table.half_shape(), shapes.0)
                &&& same_definitions(table.full_shape(), shapes.1)
                &&& forall|key: char, full_shape: bool| !table.pair_state().oddness(key, full_shape)
            }),
    {
        let mut table = PunctTable::new();
        if documents.len() == 0 {
            return table;
        }
        proof {
            reveal_strlit("punctuator");
            reveal_strlit("half_shape");
            reveal_strlit("full_shape");
        }
        let punctuator = hash_child(&documents[0], "punctuator");
        match punctuator {
            Some(node) => {
                table.define_shape(false, hash_child(node, "half_shape"));
                table.define_shape(true, hash_child(node, "full_shape"));
            },
            None => {},
        }
        table
    }

    fn define_shape(&mut self, full_shape: bool, node: Option<&YamlNode>)
        requires
            old(self).shape(full_shape) == no_symbols(),
        ensures
            same_definitions(final(self).shape(full_shape), spec_shape_definitions(match node {
                Some(n) => Some(*n),
                None => None,
            })),
            final(self).shape(!full_shape) == old(self).shape(!full_shape),
            final(self).pair_state() == old(self).pair_state(),
    {
        let entries = match node {
            Some(YamlNode::Hash(entries)) => entries,
            _ => {
                return;
            },
        };
        let mut i: usize = 0;
        assert(entries@.take(0) =~= Seq::<(YamlNode, YamlNode)>::empty());
        while i < entries.len()
            invariant
                i <= entries@.len(),
                same_definitions(self.shape(full_shape), shape_fold(entries@.take(i as int))),
                self.shape(!full_shape) == old(self).shape(!full_shape),
                self.pair_state() == old(self).pair_state(),
            decreases entries.len() - i,
        {
            proof {
                assert(entries@.take(i + 1).drop_last() =~= entries@.take(i as int));
                assert(entries@.take(i + 1).last() == entries@[i as int]);
            }
            let (key, value) = &entries[i];
            if let YamlNode::Text(name) = key {
                if let Some(ch) = single_char(name.as_str()) {
                    if let Some(definition) = parse_definition(value) {
                        let ghost before = self.shape(full_shape);
                        self.define(full_shape, ch, definition);
                        proof {
                            let folded = shape_fold(entries@.take(i as int));
                            assert(self.shape(full_shape) == before.insert(ch, definition));
                            assert(shape_fold(entries@.take(i + 1)).dom() =~= folded.dom().insert(ch));
                            assert(self.shape(full_shape).dom() =~= before.dom().insert(ch));
                        }
                    }
                }
            }
            i = i + 1;
        }
        assert(entries@.take(i as int) =~= entries@);
    }
}

/// A YAML node as `yaml_rust2` reads it: scalars, sequences and mappings (entries in
/// document order).
#[derive(Debug)]
pub enum YamlNode {
    Real(String),
    Integer(i64),
    Text(String),
    Boolean(bool),
    Array(Vec<YamlNode>),
    Hash(Vec<(YamlNode, YamlNode)>),
    Alias(usize),
    Null,
    BadValue,
}

/// The documents `yaml_rust2` reads from a text, or its error message.
pub uninterp spec fn yaml_load(content: Seq<char>) -> Result<Seq<YamlNode>, Seq<char>>;

/// `yaml_rust2::YamlLoader::load_from_str`, with each node converted variant by variant;
/// the documents (or the scanner's message) are named by [`yaml_load`].
#[verifier::external_body]
pub(crate) fn load_yaml(content: &str) -> (documents: Result<Vec<YamlNode>, String>)
    ensures
        match documents {
            Ok(list) => yaml_load(content@) == Ok::<Seq<YamlNode>, Seq<char>>(list@),
            Err(message) => yaml_load(content@) == Err::<Seq<YamlNode>, Seq<char>>(message@),
        },
{
    match yaml_rust2::YamlLoader::load_from_str(content) {
        Ok(list) => Ok(list.iter().map(yaml_node).collect()),
        Err(error) => Err(error.to_string()),
    }
}

/// A node of `yaml_rust2` (opaque here; converted into [`YamlNode`]).
#[verifier::external_type_specification]
#[verifier::external_body]
pub struct ExYaml(yaml_rust2::Yaml);

/// Converts a `yaml_rust2::Yaml` node into a [`YamlNode`], variant by variant.
#[verifier::external_body]
fn yaml_node(node: &yaml_rust2::Yaml) -> YamlNode {
    match node {
        yaml_rust2::Yaml::Real(v) => YamlNode::Real(v.clone()),
        yaml_rust2::Yaml::Integer(v) => YamlNode::Integer(*v),
        yaml_rust2::Yaml::String(v) => YamlNode::Text(v.clone()),
        yaml_rust2::Yaml::Boolean(v) => YamlNode::Boolean(*v),
        yaml_rust2::Yaml::Array(v) => YamlNode::Array(v.iter().map(yaml_node).collect()),
        yaml_rust2::Yaml::Hash(v) => YamlNode::Hash(v.iter().map(|(k, x)| (yaml_node(k), yaml_node(x))).collect()),
        yaml_rust2::Yaml::Alias(v) => YamlNode::Alias(*v),
        yaml_rust2::Yaml::Null => YamlNode::Null,
        yaml_rust2::Yaml::BadValue => YamlNode::BadValue,
    }
}

/// Converts a [`YamlNode`] into a `yaml_rust2::Yaml` node, variant by variant.
#[verifier::external_body]
pub(crate) fn yaml_value(node: &YamlNode) -> yaml_rust2::Yaml {
    match node {
        YamlNode::Real(v) => yaml_rust2::Yaml::Real(v.clone()),
        YamlNode::Integer(v) => yaml_rust2::Yaml::Integer(*v),
        YamlNode::Text(v) => yaml_rust2::Yaml::String(v.clone()),
        YamlNode::Boolean(v) => yaml_rust2::Yaml::Boolean(*v),
        YamlNode::Array(v) => yaml_rust2::Yaml::Array(v.iter().map(yaml_value).collect()),
        YamlNode::Hash(v) => yaml_rust2::Yaml::Hash(v.iter().map(|(k, x)| (yaml_value(k), yaml_value(x))).collect()),
        YamlNode::Alias(v) => yaml_rust2::Yaml::Alias(*v),
        YamlNode::Null => yaml_rust2::Yaml::Null,
        YamlNode::BadValue => yaml_rust2::Yaml::BadValue,
    }
}

/// The value of the first mapping entry whose key is the text `key`.
pub open spec fn first_entry(entries: Seq<(YamlNode, YamlNode)>, key: Seq<char>) -> Option<YamlNode>
    decreases entries.len(),
{
    if entries.len() == 0 {
        None
    } else if entries[0].0 matches YamlNode::Text(name) && name@ == key {
        Some(entries[0].1)
    } else {
        first_entry(entries.drop_first(), key)
    }
}

/// The child `key` of a mapping node.
pub open spec fn spec_hash_child(node: YamlNode, key: Seq<char>) -> Option<YamlNode> {
    match node {
        YamlNode::Hash(entries) => first_entry(entries@, key),
        _ => None,
    }
}

pub(crate) fn hash_child<'a>(node: &'a YamlNode, key: &str) -> (child: Option<&'a YamlNode>)
    ensures
        match child {
            Some(c) => spec_hash_child(*node, key@) == Some(*c),
            None => spec_hash_child(*node, key@) is None,
        },
{
    let entries = match node {
        YamlNode::Hash(entries) => entries,
        _ => {
            return None;
        },
    };
    let mut i: usize = 0;
    assert(entries@.skip(0) =~= entries@);
    while i < entries.len()
        invariant
            i <= entries@.len(),
            spec_hash_child(*node, key@) == first_entry(entries@.skip(i as int), key@),
            *node == YamlNode::Hash(*entries),
        decreases entries.len() - i,
    {
        proof {
            assert(entries@.skip(i as int).drop_first() =~= entries@.skip(i + 1));
            assert(entries@.skip(i as int)[0] == entries@[i as int]);
        }
        if let YamlNode::Text(name) = &entries[i].0 {
            if crate::text::str_eq(name.as_str(), key) {
                return Some(&entries[i].1);
            }
        }
        i = i + 1;
    }
    assert(entries@.skip(i as int) =~= Seq::<(YamlNode, YamlNode)>::empty());
    None
}

/// The definition a mapping value gives: a text, `{ commit: text }`, or
/// `{ pair: [first, second] }`.
pub open spec fn spec_definition(value: YamlNode) -> Option<PunctDef> {
    match value {
        YamlNode::Text(text) => Some(PunctDef::Text(text)),
        YamlNode::Hash(entries) => match first_entry(entries@, "commit"@) {
            Some(YamlNode::Text(commit)) => Some(PunctDef::Text(commit)),
            _ => match first_entry(entries@, "pair"@) {
                Some(YamlNode::Array(items)) => if items@.len() == 2 && items@[0] is Text && items@[1] is Text {
                    Some(PunctDef::Pair(items@[0]->Text_0, items@[1]->Text_0))
                } else {
                    None
                },
                _ => None,
            },
        },
        _ => None,
    }
}

/// Two optional definitions agree up to the texts' views.
pub open spec fn same_definition(a: Option<PunctDef>, b: Option<PunctDef>) -> bool {
    match (a, b) {
        (Some(x), Some(y)) => definition_view(x) == definition_view(y),
        (None, None) => true,
        _ => false,
    }
}

fn parse_definition(value: &YamlNode) -> (definition: Option<PunctDef>)
    ensures
        same_definition(definition, spec_definition(*value)),
{
    proof {
        reveal_strlit("commit");
        reveal_strlit("pair");
    }
    match value {
        YamlNode::Text(text) => Some(PunctDef::Text(text.clone())),
        YamlNode::Hash(_) => {
            if let Some(YamlNode::Text(commit)) = hash_child(value, "commit") {
                return Some(PunctDef::Text(commit.clone()));
            }
            if let Some(YamlNode::Array(items)) = hash_child(value, "pair") {
                if items.len() == 2 {
                    if let (YamlNode::Text(first), YamlNode::Text(second)) = (&items[0], &items[1]) {
                        return Some(PunctDef::Pair(first.clone(), second.clone()));
                    }
                }
            }
            None
        },
        _ => None,
    }
}

/// The definitions of a shape mapping's entries, later keys replacing earlier ones;
/// entries whose key is not one character or whose value is no definition are skipped.
pub open spec fn shape_fold(entries: Seq<(YamlNode, YamlNode)>) -> Map<char, PunctDef>
    decreases entries.len(),
{
    if entries.len() == 0 {
        no_symbols()
    } else {
        let before = shape_fold(entries.drop_last());
        let (key, value) = entries.last();
        match key {
            YamlNode::Text(name) => if name@.len() == 1 {
                match spec_definition(value) {
                    Some(definition) => before.insert(name@[0], definition),
                    None => before,
                }
            } else {
                before
            },
            _ => before,
        }
    }
}

/// The definitions of a shape node (none unless it is a mapping).
pub open spec fn spec_shape_definitions(node: Option<YamlNode>) -> Map<char, PunctDef> {
    match node {
        Some(YamlNode::Hash(entries)) => shape_fold(entries@),
        _ => no_symbols(),
    }
}

/// The half- and full-shape definitions of a `symbols.yaml` document list.
pub open spec fn spec_symbol_shapes(documents: Seq<YamlNode>) -> (Map<char, PunctDef>, Map<char, PunctDef>) {
    if documents.len() == 0 {
        (no_symbols(), no_symbols())
    } else {
        match spec_hash_child(documents[0], "punctuator"@) {
            Some(punctuator) => (
                spec_shape_definitions(spec_hash_child(punctuator, "half_shape"@)),
                spec_shape_definitions(spec_hash_child(punctuator, "full_shape"@)),
            ),
            None => (no_symbols(), no_symbols()),
        }
    }
}

/// A punctuation key: the text when it is exactly one character.
pub fn single_char(text: &str) -> (found: Option<char>)
    ensures
        found == if text@.len() == 1 { Some(text@[0]) } else { None::<char> },
{
    let list = crate::learning::char_vec(text);
    if list.len() == 1 {
        Some(list[0])
    } else {
        None
    }
}

/// `text` is what resolving `key` in `table` gives with the alternation `pre`, which
/// becomes `post`: a text definition gives its text, a pair its half by the current
/// oddness and flips that oddness alone, and an undefined key gives nothing.
pub open spec fn resolved(
    table: PunctTable,
    key: char,
    full_shape: bool,
    pre: PairState,
    post: PairState,
    text: Option<Seq<char>>,
) -> bool {
    let shape = table.shape(full_shape);
    &&& match text {
        None => !shape.contains_key(key) && post == pre,
        Some(t) => shape.contains_key(key) && t == definition_text(shape[key], pre.oddness(key, full_shape)),
    }
    &&& shape.contains_key(key) && shape[key] is Pair ==> {
        &&& post.oddness(key, full_shape) == !pre.oddness(key, full_shape)
        &&& forall|other: char, s: bool|
            !(other == key && s == full_shape) ==> post.oddness(other, s) == pre.oddness(other, s)
    }
    &&& !(shape.contains_key(key) && shape[key] is Pair) ==> post == pre
}

/// Law: a paired symbol alternates: two resolutions of its key give its two halves in
/// turn and leave the alternation as it was; other pairs are not affected.
pub proof fn law_pairs_alternate(
    table: PunctTable,
    key: char,
    full_shape: bool,
    s0: PairState,
    s1: PairState,
    s2: PairState,
    first: Option<Seq<char>>,
    second: Option<Seq<char>>,
)
    requires
        table.shape(full_shape).contains_key(key),
        table.shape(full_shape)[key] is Pair,
        resolved(table, key, full_shape, s0, s1, first),
        resolved(table, key, full_shape, s1, s2, second),
    ensures
        first is Some && second is Some,
        s0.oddness(key, full_shape) ==> first->0 == table.shape(full_shape)[key]->Pair_1@ && second->0
            == table.shape(full_shape)[key]->Pair_0@,
        !s0.oddness(key, full_shape) ==> first->0 == table.shape(full_shape)[key]->Pair_0@ && second->0
            == table.shape(full_shape)[key]->Pair_1@,
        forall|other: char, s: bool| s2.oddness(other, s) == s0.oddness(other, s),
{
}

} // verus!
