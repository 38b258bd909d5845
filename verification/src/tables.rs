//! Hash tables of the session state, held in `hashbrown` maps.

use vstd::prelude::*;
use crate::decode::{entry_views, CodeEntry};
use crate::state::Tracker;

verus! {

/// The table with no switch.
pub open spec fn no_flags() -> Map<Seq<char>, bool> {
    Map::empty()
}

/// The table with no text.
pub open spec fn no_texts() -> Map<Seq<char>, Seq<char>> {
    Map::empty()
}

/// A string-keyed table of switches (session options).
#[verifier::external_body]
#[derive(Debug)]
pub struct FlagTable {
    entries: hashbrown::HashMap<String, bool>,
}

/// What a switch table holds: option name → value.
pub uninterp spec fn flag_table_contents(table: FlagTable) -> Map<Seq<char>, bool>;

impl View for FlagTable {
    type V = Map<Seq<char>, bool>;

    open spec fn view(&self) -> Map<Seq<char>, bool> {
        flag_table_contents(*self)
    }
}

impl FlagTable {
    /// An empty table (`hashbrown::HashMap::new`).
    #[verifier::external_body]
    pub fn new() -> (created: FlagTable)
        ensures
            flag_table_contents(created) == no_flags(),
    {
        FlagTable { entries: hashbrown::HashMap::new() }
    }

    /// The value stored under `name` (`hashbrown::HashMap::get`).
    #[verifier::external_body]
    pub fn get(&self, name: &str) -> (value: Option<bool>)
        ensures
            value == (if flag_table_contents(*self).contains_key(name@) {
                Some(flag_table_contents(*self)[name@])
            } else {
                None
            }),
    {
        self.entries.get(name).copied()
    }

    /// Stores `value` under `name`, replacing any earlier value (`hashbrown::HashMap::insert`).
    #[verifier::external_body]
    pub fn insert(&mut self, name: &str, value: bool)
        ensures
            flag_table_contents(*final(self)) == flag_table_contents(*old(self)).insert(name@, value),
    {
        self.entries.insert(name.to_string(), value);
    }

    /// The names in the table, each once, in the table's walking order
    /// (`hashbrown::HashMap::keys`).
    #[verifier::external_body]
    pub fn keys(&self) -> (names: Vec<String>)
        ensures
            forall|name: Seq<char>| #[trigger] text_views(names@).contains(name) <==> flag_table_contents(*self).contains_key(name),
    {
        self.entries.keys().cloned().collect()
    }

    /// How many switches the table holds (`hashbrown::HashMap::len`).
    #[verifier::external_body]
    pub fn len(&self) -> (count: usize)
        ensures
            count == flag_table_contents(*self).len(),
    {
        self.entries.len()
    }
}

/// A string-keyed table of texts (session properties).
#[verifier::external_body]
pub struct TextTable {
    entries: hashbrown::HashMap<String, String>,
}

/// What a text table holds: key → text.
pub uninterp spec fn text_table_contents(table: TextTable) -> Map<Seq<char>, Seq<char>>;

impl View for TextTable {
    type V = Map<Seq<char>, Seq<char>>;

    open spec fn view(&self) -> Map<Seq<char>, Seq<char>> {
        text_table_contents(*self)
    }
}

impl TextTable {
    /// An empty table (`hashbrown::HashMap::new`).
    #[verifier::external_body]
    pub fn new() -> (created: TextTable)
        ensures
            text_table_contents(created) == no_texts(),
    {
        TextTable { entries: hashbrown::HashMap::new() }
    }

    /// The text stored under `key` (`hashbrown::HashMap::get`).
    #[verifier::external_body]
    pub fn get(&self, key: &str) -> (value: Option<&str>)
        ensures
            match value {
                Some(text) => text_table_contents(*self).contains_key(key@) && text@
                    == text_table_contents(*self)[key@],
                None => !text_table_contents(*self).contains_key(key@),
            },
    {
        self.entries.get(key).map(|text| text.as_str())
    }

    /// Stores `text` under `key`, replacing any earlier text (`hashbrown::HashMap::insert`).
    #[verifier::external_body]
    pub fn insert(&mut self, key: &str, text: &str)
        ensures
            text_table_contents(*final(self)) == text_table_contents(*old(self)).insert(key@, text@),
    {
        self.entries.insert(key.to_string(), text.to_string());
    }

    /// Removes `key` (`hashbrown::HashMap::remove`).
    #[verifier::external_body]
    pub fn remove(&mut self, key: &str)
        ensures
            text_table_contents(*final(self)) == text_table_contents(*old(self)).remove(key@),
    {
        self.entries.remove(key);
    }
}

/// A table from option roles to option keys.
#[verifier::external_body]
#[derive(Debug, PartialEq, Eq)]
pub struct RoleTable {
    entries: hashbrown::HashMap<&'static str, &'static str>,
}

/// What a role table holds: role → key.
pub uninterp spec fn role_table_contents(table: RoleTable) -> Map<Seq<char>, Seq<char>>;

impl RoleTable {
    /// An empty table (`hashbrown::HashMap::new`).
    #[verifier::external_body]
    pub(crate) fn new() -> (created: RoleTable)
        ensures
            role_table_contents(created) == no_texts(),
    {
        RoleTable { entries: hashbrown::HashMap::new() }
    }

    /// Whether `role` has a key (`hashbrown::HashMap::contains_key`).
    #[verifier::external_body]
    pub(crate) fn contains_key(&self, role: &str) -> (found: bool)
        ensures
            found == role_table_contents(*self).contains_key(role@),
    {
        self.entries.contains_key(role)
    }

    /// The key of `role` (`hashbrown::HashMap::get`).
    #[verifier::external_body]
    pub(crate) fn get(&self, role: &str) -> (key: Option<&'static str>)
        ensures
            match key {
                Some(k) => role_table_contents(*self).contains_key(role@) && k@ == role_table_contents(*self)[role@],
                None => !role_table_contents(*self).contains_key(role@),
            },
    {
        self.entries.get(role).copied()
    }

    /// Stores `key` under `role` and tells whether a key was there before
    /// (`hashbrown::HashMap::insert`, which returns the replaced value).
    #[verifier::external_body]
    pub(crate) fn insert(&mut self, role: &'static str, key: &'static str) -> (replaced: bool)
        ensures
            replaced == role_table_contents(*old(self)).contains_key(role@),
            role_table_contents(*final(self)) == role_table_contents(*old(self)).insert(role@, key@),
    {
        self.entries.insert(role, key).is_some()
    }
}

/// The text views of a list of strings.
pub open spec fn text_views(list: Seq<String>) -> Seq<Seq<char>> {
    list.map_values(|text: String| text@)
}

/// A table from characters to lists of texts (readings or codes of a character).
#[verifier::external_body]
pub struct ReadingTable {
    entries: hashbrown::HashMap<char, Vec<String>>,
}

/// What a reading table holds: character → texts, in order.
pub uninterp spec fn reading_table_contents(table: ReadingTable) -> Map<char, Seq<Seq<char>>>;

/// The table with no character.
pub open spec fn no_readings() -> Map<char, Seq<Seq<char>>> {
    Map::empty()
}

impl ReadingTable {
    /// An empty table (`hashbrown::HashMap::new`).
    #[verifier::external_body]
    pub(crate) fn new() -> (created: ReadingTable)
        ensures
            reading_table_contents(created) == no_readings(),
    {
        ReadingTable { entries: hashbrown::HashMap::new() }
    }

    /// The texts of `key` (`hashbrown::HashMap::get`).
    #[verifier::external_body]
    pub(crate) fn get(&self, key: char) -> (texts: Option<&Vec<String>>)
        ensures
            match texts {
                Some(list) => reading_table_contents(*self).contains_key(key) && text_views(list@)
                    == reading_table_contents(*self)[key],
                None => !reading_table_contents(*self).contains_key(key),
            },
    {
        self.entries.get(&key)
    }

    /// Stores `texts` under `key`, replacing earlier texts (`hashbrown::HashMap::insert`).
    #[verifier::external_body]
    pub(crate) fn insert(&mut self, key: char, texts: Vec<String>)
        ensures
            reading_table_contents(*final(self)) == reading_table_contents(*old(self)).insert(key, text_views(texts@)),
    {
        self.entries.insert(key, texts);
    }
}

/// The table with no code.
pub open spec fn no_codes() -> Map<Seq<u8>, Seq<(Seq<char>, u32)>> {
    Map::empty()
}

/// The set with no state.
pub open spec fn no_states() -> Set<(usize, usize)> {
    Set::empty()
}

/// A table from codes (their bytes) to the dictionary entries of each code.
#[verifier::external_body]
pub struct CodeTable {
    entries: hashbrown::HashMap<Vec<u8>, Vec<CodeEntry>>,
}

/// What a code table holds: code bytes → entries (text and rank), in order.
pub uninterp spec fn code_table_contents(table: CodeTable) -> Map<Seq<u8>, Seq<(Seq<char>, u32)>>;

impl CodeTable {
    /// An empty table (`hashbrown::HashMap::new`).
    #[verifier::external_body]
    pub(crate) fn new() -> (created: CodeTable)
        ensures
            code_table_contents(created) == no_codes(),
    {
        CodeTable { entries: hashbrown::HashMap::new() }
    }

    /// The entries of `code` (`hashbrown::HashMap::get`).
    #[verifier::external_body]
    pub(crate) fn get(&self, code: &[u8]) -> (found: Option<&Vec<CodeEntry>>)
        ensures
            match found {
                Some(list) => code_table_contents(*self).contains_key(code@) && entry_views(list@)
                    == code_table_contents(*self)[code@],
                None => !code_table_contents(*self).contains_key(code@),
            },
    {
        self.entries.get(code)
    }

    /// Stores `entries` under `code`, replacing earlier entries (`hashbrown::HashMap::insert`).
    #[verifier::external_body]
    pub(crate) fn insert(&mut self, code: &[u8], entries: Vec<CodeEntry>)
        ensures
            code_table_contents(*final(self)) == code_table_contents(*old(self)).insert(code@, entry_views(entries@)),
    {
        self.entries.insert(code.to_vec(), entries);
    }
}

/// A set of byte strings.
#[verifier::external_body]
pub struct ByteStringSet {
    entries: hashbrown::HashSet<Vec<u8>>,
}

/// What a byte-string set holds.
pub uninterp spec fn byte_string_set_contents(set: ByteStringSet) -> Set<Seq<u8>>;

impl ByteStringSet {
    /// An empty set (`hashbrown::HashSet::new`).
    #[verifier::external_body]
    pub(crate) fn new() -> (created: ByteStringSet)
        ensures
            byte_string_set_contents(created) == Set::<Seq<u8>>::empty(),
    {
        ByteStringSet { entries: hashbrown::HashSet::new() }
    }

    /// Adds a copy of `bytes` (`hashbrown::HashSet::insert`).
    #[verifier::external_body]
    pub(crate) fn insert(&mut self, bytes: &[u8])
        ensures
            byte_string_set_contents(*final(self)) == byte_string_set_contents(*old(self)).insert(bytes@),
    {
        self.entries.insert(bytes.to_vec());
    }

    /// Whether `bytes` is in the set (`hashbrown::HashSet::contains`).
    #[verifier::external_body]
    pub(crate) fn contains(&self, bytes: &[u8]) -> (found: bool)
        ensures
            found == byte_string_set_contents(*self).contains(bytes@),
    {
        self.entries.contains(bytes)
    }
}

/// A set of search states, each a pair of integers.
#[verifier::external_body]
pub struct StateSet {
    entries: hashbrown::HashSet<(usize, usize)>,
}

/// What a state set holds.
pub uninterp spec fn state_set_contents(set: StateSet) -> Set<(usize, usize)>;

impl StateSet {
    /// An empty set (`hashbrown::HashSet::new`).
    #[verifier::external_body]
    pub(crate) fn new() -> (created: StateSet)
        ensures
            state_set_contents(created) == no_states(),
    {
        StateSet { entries: hashbrown::HashSet::new() }
    }

    /// Adds `state` (`hashbrown::HashSet::insert`).
    #[verifier::external_body]
    pub(crate) fn insert(&mut self, state: (usize, usize))
        ensures
            state_set_contents(*final(self)) == state_set_contents(*old(self)).insert(state),
    {
        self.entries.insert(state);
    }

    /// Whether the set is empty (`hashbrown::HashSet::is_empty`).
    #[verifier::external_body]
    pub(crate) fn is_empty(&self) -> (empty: bool)
        ensures
            empty == (state_set_contents(*self) == no_states()),
    {
        self.entries.is_empty()
    }

    /// The states, each once, in the set's walking order (`hashbrown::HashSet::iter`).
    #[verifier::external_body]
    pub(crate) fn to_vec(&self) -> (states: Vec<(usize, usize)>)
        ensures
            forall|state: (usize, usize)| #[trigger] states@.contains(state) <==> state_set_contents(*self).contains(state),
    {
        self.entries.iter().copied().collect()
    }
}

/// A table from input positions to text positions.
#[verifier::external_body]
pub struct PositionTable {
    entries: hashbrown::HashMap<usize, usize>,
}

/// What a position table holds.
pub uninterp spec fn position_table_contents(table: PositionTable) -> Map<usize, usize>;

/// The table with no position.
pub open spec fn no_positions() -> Map<usize, usize> {
    Map::empty()
}

impl PositionTable {
    /// An empty table (`hashbrown::HashMap::new`).
    #[verifier::external_body]
    pub(crate) fn new() -> (created: PositionTable)
        ensures
            position_table_contents(created) == no_positions(),
    {
        PositionTable { entries: hashbrown::HashMap::new() }
    }

    /// The position stored under `key` (`hashbrown::HashMap::get`).
    #[verifier::external_body]
    pub(crate) fn get(&self, key: usize) -> (value: Option<usize>)
        ensures
            value == (if position_table_contents(*self).contains_key(key) {
                Some(position_table_contents(*self)[key])
            } else {
                None
            }),
    {
        self.entries.get(&key).copied()
    }

    /// Stores `value` under `key`, replacing an earlier value (`hashbrown::HashMap::insert`).
    #[verifier::external_body]
    pub(crate) fn insert(&mut self, key: usize, value: usize)
        ensures
            position_table_contents(*final(self)) == position_table_contents(*old(self)).insert(key, value),
    {
        self.entries.insert(key, value);
    }
}

/// The table with no tracker.
pub open spec fn no_trackers() -> Map<Seq<char>, Tracker> {
    Map::empty()
}

/// The evidence trackers of a sentence, keyed by text.
#[verifier::external_body]
#[derive(Debug)]
pub struct TrackerTable {
    entries: hashbrown::HashMap<String, Tracker>,
}

/// What a tracker table holds: key → tracker.
pub uninterp spec fn tracker_table_contents(table: TrackerTable) -> Map<Seq<char>, Tracker>;

impl TrackerTable {
    /// An empty table (`hashbrown::HashMap::new`).
    #[verifier::external_body]
    pub fn new() -> (created: TrackerTable)
        ensures
            tracker_table_contents(created) == no_trackers(),
    {
        TrackerTable { entries: hashbrown::HashMap::new() }
    }

    /// The tracker stored under `key` (`hashbrown::HashMap::get`).
    #[verifier::external_body]
    pub fn get(&self, key: &str) -> (found: Option<&Tracker>)
        ensures
            match found {
                Some(tracker) => tracker_table_contents(*self).contains_key(key@) && *tracker == tracker_table_contents(
                    *self,
                )[key@],
                None => !tracker_table_contents(*self).contains_key(key@),
            },
    {
        self.entries.get(key)
    }

    /// Stores `tracker` under `key`, replacing an earlier one (`hashbrown::HashMap::insert`).
    #[verifier::external_body]
    pub fn insert(&mut self, key: String, tracker: Tracker)
        ensures
            tracker_table_contents(*final(self)) == tracker_table_contents(*old(self)).insert(key@, tracker),
    {
        self.entries.insert(key, tracker);
    }

    /// Removes every tracker (`hashbrown::HashMap::clear`).
    #[verifier::external_body]
    pub fn clear(&mut self)
        ensures
            tracker_table_contents(*final(self)) == no_trackers(),
    {
        self.entries.clear();
    }
}

} // verus!
