//! The scheme contract's data side: option declarations, and the role-keyed
//! configuration bag with type-checked and diagnosing accessors.

use vstd::prelude::*;
use crate::text::{push_str, str_eq};

verus! {

/// Kind of a read-only data asset.
#[derive(Clone, Copy, Debug, PartialEq, Eq)]
pub enum AssetKind {
    /// The n-gram model (may be missing).
    Model,
    /// Run-time data (code tables, priors, lookup indexes, punctuation).
    Data,
}

/// A data asset: a file name relative to the data directory.
#[derive(Clone, Copy, Debug)]
pub struct Asset {
    pub kind: AssetKind,
    pub file: &'static str,
}

/// std's owned path type (opaque here: paths are only joined and handed on).
#[verifier::external_type_specification]
#[verifier::external_body]
pub struct ExPathBuf(std::path::PathBuf);

/// The path that `Path::join` makes of a directory and a relative file name.
pub uninterp spec fn joined_path(dir: std::path::PathBuf, file: Seq<char>) -> std::path::PathBuf;

/// `std::path::Path::join`: a pure function of the directory and the file name (it reads
/// no file system); its result is named by [`joined_path`].
#[verifier::external_body]
fn path_join(dir: &std::path::PathBuf, file: &str) -> (joined: std::path::PathBuf)
    ensures
        joined == joined_path(*dir, file@),
{
    dir.join(file)
}

/// The candidate paths of an asset in the data directories, in order of priority:
/// the file name joined to each directory (nothing is read from disk).
pub fn asset_paths(dirs: &[std::path::PathBuf], file: &str) -> (paths: Vec<std::path::PathBuf>)
    ensures
        paths.len() == dirs.len(),
        forall|i: int| 0 <= i < dirs.len() ==> paths[i] == joined_path(dirs[i], file@),
{
    let mut paths: Vec<std::path::PathBuf> = Vec::new();
    let mut i: usize = 0;
    while i < dirs.len()
        invariant
            i <= dirs.len(),
            paths.len() == i,
            forall|j: int| 0 <= j < i ==> paths[j] == joined_path(dirs[j], file@),
        decreases dirs.len() - i,
    {
        let path = path_join(&dirs[i], file);
        paths.push(path);
        i += 1;
    }
    paths
}

/// A scheme's option declaration: the option key that serves a configuration role.
#[derive(Clone, Copy, Debug, PartialEq, Eq)]
pub struct OptionDecl {
    pub role: &'static str,
    pub key: &'static str,
}

/// A value in the configuration bag.
#[derive(Clone, Debug, PartialEq, Eq)]
pub enum Value {
    Bool(bool),
    Count(usize),
    Text(String),
    Texts(Vec<String>),
}

/// Display name of each value kind (used in diagnostics).
pub open spec fn spec_kind(value: Value) -> Seq<char> {
    match value {
        Value::Bool(_) => "开关"@,
        Value::Count(_) => "计数"@,
        Value::Text(_) => "文本"@,
        Value::Texts(_) => "文本列表"@,
    }
}

impl Value {
    /// Display name of the value's kind.
    pub fn kind(&self) -> (name: &'static str)
        ensures
            name@ == spec_kind(*self),
    {
        match self {
            Value::Bool(_) => "开关",
            Value::Count(_) => "计数",
            Value::Text(_) => "文本",
            Value::Texts(_) => "文本列表",
        }
    }
}

/// Diagnosis of a bag read: the role is missing, or holds a value of another kind.
#[derive(Clone, Debug, PartialEq, Eq)]
pub enum ConfigError {
    Missing { role: &'static str },
    TypeMismatch { role: &'static str, expected: &'static str, found: &'static str },
}

/// The role a diagnosis is about.
pub open spec fn spec_error_role(error: ConfigError) -> &'static str {
    match error {
        ConfigError::Missing { role } => role,
        ConfigError::TypeMismatch { role, .. } => role,
    }
}

/// The diagnosis as text.
pub open spec fn spec_error_message(error: ConfigError) -> Seq<char> {
    match error {
        ConfigError::Missing { role } => "缺少角色 "@ + role@,
        ConfigError::TypeMismatch { role, expected, found } => "角色 "@ + role@ + " 类型不符（期望 "@
            + expected@ + "，实际 "@ + found@ + "）"@,
    }
}

impl ConfigError {
    /// The role the diagnosis is about.
    pub fn role(&self) -> (role: &'static str)
        ensures
            role == spec_error_role(*self),
    {
        match self {
            ConfigError::Missing { role } => role,
            ConfigError::TypeMismatch { role, .. } => role,
        }
    }

    /// The diagnosis as text.
    pub fn to_string(&self) -> (message: String)
        ensures
            message@ == spec_error_message(*self),
    {
        let mut out = String::new();
        match self {
            ConfigError::Missing { role } => {
                push_str(&mut out, "缺少角色 ");
                push_str(&mut out, role);
            },
            ConfigError::TypeMismatch { role, expected, found } => {
                push_str(&mut out, "角色 ");
                push_str(&mut out, role);
                push_str(&mut out, " 类型不符（期望 ");
                push_str(&mut out, expected);
                push_str(&mut out, "，实际 ");
                push_str(&mut out, found);
                push_str(&mut out, "）");
            },
        }
        assert(out@ =~= spec_error_message(*self));
        out
    }
}

/// The configuration bag: role → value, in the order roles were first set.
#[derive(Clone, Debug, PartialEq, Eq)]
pub struct SchemeConfig {
    entries: Vec<(&'static str, Value)>,
}

/// Index of the first entry at or after `i` whose role is `role` (`entries.len()` when none).
pub open spec fn role_index_from(entries: Seq<(&'static str, Value)>, role: Seq<char>, i: int) -> int
    decreases entries.len() - i,
{
    if i < 0 || i >= entries.len() {
        entries.len() as int
    } else if entries[i].0@ == role {
        i
    } else {
        role_index_from(entries, role, i + 1)
    }
}

/// Index of the entry for `role` (`entries.len()` when the role is not set).
pub open spec fn role_index(entries: Seq<(&'static str, Value)>, role: Seq<char>) -> int {
    role_index_from(entries, role, 0)
}

/// The value set for `role`, if any.
pub open spec fn lookup(entries: Seq<(&'static str, Value)>, role: Seq<char>) -> Option<Value> {
    let i = role_index(entries, role);
    if i < entries.len() {
        Some(entries[i].1)
    } else {
        None
    }
}

pub proof fn lemma_role_index_from(entries: Seq<(&'static str, Value)>, role: Seq<char>, i: int)
    requires
        0 <= i <= entries.len(),
    ensures
        i <= role_index_from(entries, role, i) <= entries.len(),
        role_index_from(entries, role, i) < entries.len() ==> entries[role_index_from(entries, role, i)].0@ == role,
        forall|j: int| i <= j < role_index_from(entries, role, i) ==> entries[j].0@ != role,
    decreases entries.len() - i,
{
    if i < entries.len() && entries[i].0@ != role {
        lemma_role_index_from(entries, role, i + 1);
    }
}

/// The first index with role `role` is `k` when `k` holds it and no earlier entry does.
pub proof fn lemma_role_index_is(entries: Seq<(&'static str, Value)>, role: Seq<char>, k: int)
    requires
        0 <= k <= entries.len(),
        k < entries.len() ==> entries[k].0@ == role,
        forall|j: int| 0 <= j < k ==> entries[j].0@ != role,
    ensures
        role_index(entries, role) == k,
{
    lemma_role_index_from(entries, role, 0);
    let found = role_index(entries, role);
    if found < k {
        assert(entries[found].0@ != role);
    }
    if k < found {
        assert(entries[k].0@ != role);
    }
}

/// The entries after `set(role, value)`: the first entry for the role takes the new value,
/// or the role is appended when it was not set.
pub open spec fn entries_after_set(entries: Seq<(&'static str, Value)>, role: &'static str, value: Value) -> Seq<(&'static str, Value)> {
    let i = role_index(entries, role@);
    if i < entries.len() {
        entries.update(i, (entries[i].0, value))
    } else {
        entries.push((role, value))
    }
}

impl Default for SchemeConfig {
    /// An empty bag, as [`SchemeConfig::new`] makes.
    fn default() -> (config: Self)
        ensures
            config.entries() == Seq::<(&'static str, Value)>::empty(),
    {
        SchemeConfig::new()
    }
}

impl SchemeConfig {
    /// The bag's entries, in order.
    pub closed spec fn entries(&self) -> Seq<(&'static str, Value)> {
        self.entries@
    }

    /// An empty bag.
    pub fn new() -> (config: Self)
        ensures
            config.entries() == Seq::<(&'static str, Value)>::empty(),
    {
        SchemeConfig { entries: Vec::new() }
    }

    fn position(&self, role: &str) -> (index: usize)
        ensures
            index == role_index(self.entries(), role@),
    {
        let mut i: usize = 0;
        while i < self.entries.len()
            invariant
                i <= self.entries.len(),
                forall|j: int| 0 <= j < i ==> self.entries@[j].0@ != role@,
            decreases self.entries.len() - i,
        {
            if str_eq(self.entries[i].0, role) {
                proof {
                    lemma_role_index_is(self.entries@, role@, i as int);
                }
                return i;
            }
            i = i + 1;
        }
        proof {
            lemma_role_index_is(self.entries@, role@, i as int);
        }
        i
    }

    /// Sets a role (a later write replaces an earlier one in place).
    pub fn set(&mut self, role: &'static str, value: Value)
        ensures
            final(self).entries() == entries_after_set(old(self).entries(), role, value),
    {
        let index = self.position(role);
        if index < self.entries.len() {
            let name = self.entries[index].0;
            self.entries.set(index, (name, value));
        } else {
            self.entries.push((role, value));
        }
    }

    /// Sets a role and returns the bag (for one-role-per-line assembly).
    pub fn with(self, role: &'static str, value: Value) -> (config: Self)
        ensures
            config.entries() == entries_after_set(self.entries(), role, value),
    {
        let mut config = self;
        config.set(role, value);
        config
    }

    /// The value of a role (`None` when the role is not set).
    pub fn get(&self, role: &str) -> (value: Option<&Value>)
        ensures
            value matches Some(v) ==> lookup(self.entries(), role@) == Some(*v),
            value is None ==> lookup(self.entries(), role@) is None,
    {
        let index = self.position(role);
        if index < self.entries.len() {
            Some(&self.entries[index].1)
        } else {
            None
        }
    }

    /// The switch value of a role (`None` when missing or of another kind).
    pub fn bool(&self, role: &str) -> (value: Option<bool>)
        ensures
            value == (match lookup(self.entries(), role@) {
                Some(Value::Bool(b)) => Some(b),
                _ => None,
            }),
    {
        match self.get(role) {
            Some(Value::Bool(value)) => Some(*value),
            _ => None,
        }
    }

    /// The count value of a role (`None` when missing or of another kind).
    pub fn count(&self, role: &str) -> (value: Option<usize>)
        ensures
            value == (match lookup(self.entries(), role@) {
                Some(Value::Count(n)) => Some(n),
                _ => None,
            }),
    {
        match self.get(role) {
            Some(Value::Count(value)) => Some(*value),
            _ => None,
        }
    }

    /// The text value of a role (`None` when missing or of another kind).
    pub fn text(&self, role: &str) -> (value: Option<&str>)
        ensures
            match lookup(self.entries(), role@) {
                Some(Value::Text(t)) => value matches Some(s) && s@ == t@,
                _ => value is None,
            },
    {
        match self.get(role) {
            Some(Value::Text(value)) => Some(value.as_str()),
            _ => None,
        }
    }

    /// The text-list value of a role (`None` when missing or of another kind;
    /// an empty list stays distinguishable from a mismatch).
    pub fn texts(&self, role: &str) -> (value: Option<&[String]>)
        ensures
            match lookup(self.entries(), role@) {
                Some(Value::Texts(list)) => value matches Some(s) && s@ == list@,
                _ => value is None,
            },
    {
        match self.get(role) {
            Some(Value::Texts(value)) => Some(value.as_slice()),
            _ => None,
        }
    }

    /// The switch value of a role, or the diagnosis.
    pub fn require_bool(&self, role: &'static str) -> (value: Result<bool, ConfigError>)
        ensures
            value == (match lookup(self.entries(), role@) {
                Some(Value::Bool(b)) => Ok(b),
                Some(other) => Err(ConfigError::TypeMismatch { role, expected: "开关", found: value_kind_name(other) }),
                None => Err(ConfigError::Missing { role }),
            }),
    {
        match self.get(role) {
            Some(Value::Bool(value)) => Ok(*value),
            Some(value) => Err(ConfigError::TypeMismatch { role, expected: "开关", found: kind_name(value) }),
            None => Err(ConfigError::Missing { role }),
        }
    }

    /// The count value of a role, or the diagnosis.
    pub fn require_count(&self, role: &'static str) -> (value: Result<usize, ConfigError>)
        ensures
            value == (match lookup(self.entries(), role@) {
                Some(Value::Count(n)) => Ok(n),
                Some(other) => Err(ConfigError::TypeMismatch { role, expected: "计数", found: value_kind_name(other) }),
                None => Err(ConfigError::Missing { role }),
            }),
    {
        match self.get(role) {
            Some(Value::Count(value)) => Ok(*value),
            Some(value) => Err(ConfigError::TypeMismatch { role, expected: "计数", found: kind_name(value) }),
            None => Err(ConfigError::Missing { role }),
        }
    }

    /// The text value of a role, or the diagnosis.
    pub fn require_text(&self, role: &'static str) -> (value: Result<&str, ConfigError>)
        ensures
            match lookup(self.entries(), role@) {
                Some(Value::Text(t)) => value matches Ok(s) && s@ == t@,
                Some(other) => value == Err::<&str, ConfigError>(ConfigError::TypeMismatch { role, expected: "文本", found: value_kind_name(other) }),
                None => value == Err::<&str, ConfigError>(ConfigError::Missing { role }),
            },
    {
        match self.get(role) {
            Some(Value::Text(value)) => Ok(value.as_str()),
            Some(value) => Err(ConfigError::TypeMismatch { role, expected: "文本", found: kind_name(value) }),
            None => Err(ConfigError::Missing { role }),
        }
    }

    /// The text-list value of a role, or the diagnosis.
    pub fn require_texts(&self, role: &'static str) -> (value: Result<&[String], ConfigError>)
        ensures
            match lookup(self.entries(), role@) {
                Some(Value::Texts(list)) => value matches Ok(s) && s@ == list@,
                Some(other) => value == Err::<&[String], ConfigError>(ConfigError::TypeMismatch { role, expected: "文本列表", found: value_kind_name(other) }),
                None => value == Err::<&[String], ConfigError>(ConfigError::Missing { role }),
            },
    {
        match self.get(role) {
            Some(Value::Texts(value)) => Ok(value.as_slice()),
            Some(value) => Err(ConfigError::TypeMismatch { role, expected: "文本列表", found: kind_name(value) }),
            None => Err(ConfigError::Missing { role }),
        }
    }

    /// The roles that are set, in assembly order.
    pub fn roles(&self) -> (roles: Vec<&'static str>)
        ensures
            roles@ == self.entries().map_values(|e: (&'static str, Value)| e.0),
    {
        let mut roles: Vec<&'static str> = Vec::new();
        let mut i: usize = 0;
        while i < self.entries.len()
            invariant
                i <= self.entries.len(),
                roles@ == self.entries@.take(i as int).map_values(|e: (&'static str, Value)| e.0),
            decreases self.entries.len() - i,
        {
            roles.push(self.entries[i].0);
            i = i + 1;
            assert(roles@ =~= self.entries@.take(i as int).map_values(|e: (&'static str, Value)| e.0));
        }
        assert(self.entries@.take(i as int) =~= self.entries@);
        roles
    }
}

/// The kind name of a value, as the static string a diagnosis carries.
pub open spec fn value_kind_name(value: Value) -> &'static str {
    match value {
        Value::Bool(_) => "开关",
        Value::Count(_) => "计数",
        Value::Text(_) => "文本",
        Value::Texts(_) => "文本列表",
    }
}

fn kind_name(value: &Value) -> (name: &'static str)
    ensures
        name == value_kind_name(*value),
{
    match value {
        Value::Bool(_) => "开关",
        Value::Count(_) => "计数",
        Value::Text(_) => "文本",
        Value::Texts(_) => "文本列表",
    }
}

/// Reading a role back after setting it gives the value just set (a later write
/// replaces an earlier one).
pub proof fn law_set_then_lookup(entries: Seq<(&'static str, Value)>, role: &'static str, value: Value)
    ensures
        lookup(entries_after_set(entries, role, value), role@) == Some(value),
{
    lemma_role_index_from(entries, role@, 0);
    let i = role_index(entries, role@);
    let after = entries_after_set(entries, role, value);
    if i < entries.len() {
        lemma_role_index_is(after, role@, i);
    } else {
        lemma_role_index_is(after, role@, entries.len() as int);
    }
}

/// Setting a role leaves every other role's value unchanged.
pub proof fn law_set_keeps_other_roles(entries: Seq<(&'static str, Value)>, role: &'static str, value: Value, other: Seq<char>)
    requires
        other != role@,
    ensures
        lookup(entries_after_set(entries, role, value), other) == lookup(entries, other),
{
    lemma_role_index_from(entries, role@, 0);
    lemma_role_index_from(entries, other, 0);
    let k = role_index(entries, other);
    let after = entries_after_set(entries, role, value);
    if k < entries.len() {
        lemma_role_index_is(after, other, k);
    } else {
        lemma_role_index_is(after, other, after.len() as int);
    }
}

/// Setting a role that is already set keeps the roles and their order; a new role is
/// appended at the end.
pub proof fn law_set_keeps_role_order(entries: Seq<(&'static str, Value)>, role: &'static str, value: Value)
    ensures
        lookup(entries, role@) is Some ==> entries_after_set(entries, role, value).map_values(|e: (&'static str, Value)| e.0@) == entries.map_values(|e: (&'static str, Value)| e.0@),
        lookup(entries, role@) is None ==> entries_after_set(entries, role, value).map_values(|e: (&'static str, Value)| e.0@) == entries.map_values(|e: (&'static str, Value)| e.0@).push(role@),
{
    lemma_role_index_from(entries, role@, 0);
    let after = entries_after_set(entries, role, value);
    assert(after.map_values(|e: (&'static str, Value)| e.0@) =~= if lookup(entries, role@) is Some {
        entries.map_values(|e: (&'static str, Value)| e.0@)
    } else {
        entries.map_values(|e: (&'static str, Value)| e.0@).push(role@)
    });
}

/// The entries after setting each `(role, value)` in turn, starting from `entries`.
pub open spec fn entries_after_sets(
    entries: Seq<(&'static str, Value)>,
    sets: Seq<(&'static str, Value)>,
) -> Seq<(&'static str, Value)>
    decreases sets.len(),
{
    if sets.len() == 0 {
        entries
    } else {
        let last = sets.last();
        entries_after_set(entries_after_sets(entries, sets.drop_last()), last.0, last.1)
    }
}

/// The roles of `sets`, each once, in the order of their first assignment.
pub open spec fn first_assigned_roles(sets: Seq<(&'static str, Value)>) -> Seq<Seq<char>>
    decreases sets.len(),
{
    if sets.len() == 0 {
        Seq::empty()
    } else {
        let before = first_assigned_roles(sets.drop_last());
        if before.contains(sets.last().0@) {
            before
        } else {
            before.push(sets.last().0@)
        }
    }
}

/// The roles of entries, in order.
pub open spec fn role_views(entries: Seq<(&'static str, Value)>) -> Seq<Seq<char>> {
    entries.map_values(|e: (&'static str, Value)| e.0@)
}

/// A role is set exactly when it is among the entries' roles.
proof fn lemma_lookup_some(entries: Seq<(&'static str, Value)>, role: Seq<char>)
    ensures
        lookup(entries, role) is Some <==> role_views(entries).contains(role),
{
    lemma_role_index_from(entries, role, 0);
    let i = role_index(entries, role);
    if i < entries.len() {
        assert(role_views(entries)[i] == role);
    } else if role_views(entries).contains(role) {
        let j = choose|j: int| 0 <= j < role_views(entries).len() && role_views(entries)[j] == role;
        assert(entries[j].0@ == role);
    }
}

/// Law: a bag assembled from an empty one by any sequence of `set`/`with` calls lists its
/// roles once each, in the order of their first assignment.
pub proof fn law_roles_in_first_assignment_order(sets: Seq<(&'static str, Value)>)
    ensures
        role_views(entries_after_sets(Seq::empty(), sets)) == first_assigned_roles(sets),
        forall|i: int, j: int|
            0 <= i < j < first_assigned_roles(sets).len() ==> first_assigned_roles(sets)[i]
                != first_assigned_roles(sets)[j],
    decreases sets.len(),
{
    if sets.len() > 0 {
        let rest = sets.drop_last();
        let last = sets.last();
        law_roles_in_first_assignment_order(rest);
        let before = entries_after_sets(Seq::empty(), rest);
        lemma_lookup_some(before, last.0@);
        law_set_keeps_role_order(before, last.0, last.1);
        assert(role_views(entries_after_set(before, last.0, last.1)) =~= entries_after_set(before, last.0, last.1).map_values(
            |e: (&'static str, Value)| e.0@,
        ));
        assert(role_views(before) =~= before.map_values(|e: (&'static str, Value)| e.0@));
        let roles = first_assigned_roles(rest);
        if !roles.contains(last.0@) {
            assert forall|i: int, j: int|
                0 <= i < j < roles.push(last.0@).len() implies roles.push(last.0@)[i] != roles.push(last.0@)[j] by {
                if j == roles.len() {
                    assert(roles.push(last.0@)[i] == roles[i]);
                }
            }
        }
    }
}

/// A session handle, one per input context (allocated and read by the scheme; the platform
/// only passes it on).
#[derive(Clone, Copy, Debug, PartialEq, Eq, Hash)]
pub struct SessionId(pub u64);

} // verus!
