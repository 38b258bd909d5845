//! Option state kept across sessions: the declared defaults, the persisted values and a
//! counter of persisted changes.

use vstd::prelude::*;
use crate::session::{option_value, Context};
use crate::settings::{OptionKeys, ROLE_ALLOW_DUPLICATE_SINGLE, ROLE_EARLY_COMMIT, ROLE_EARLY_COMMIT_TO_PREEDIT};
use crate::tables::{flag_table_contents, no_flags, text_views, FlagTable};

verus! {

/// `defaults` with the key of `role` (when declared) set to `value`.
pub open spec fn with_role_default(
    defaults: Map<Seq<char>, bool>,
    keys: Map<Seq<char>, Seq<char>>,
    role: Seq<char>,
    value: bool,
) -> Map<Seq<char>, bool> {
    if keys.contains_key(role) {
        defaults.insert(keys[role], value)
    } else {
        defaults
    }
}

/// The built-in defaults: early commit on, duplicate single characters allowed, early
/// commit to the preedit off; each under the key its role is declared with.
pub open spec fn builtin_defaults(keys: Map<Seq<char>, Seq<char>>) -> Map<Seq<char>, bool> {
    with_role_default(
        with_role_default(with_role_default(no_flags(), keys, ROLE_EARLY_COMMIT@, true), keys, ROLE_ALLOW_DUPLICATE_SINGLE@, true),
        keys,
        ROLE_EARLY_COMMIT_TO_PREEDIT@,
        false,
    )
}

/// The built-in option defaults, keyed by the declared option keys.
pub fn option_defaults(keys: &OptionKeys) -> (defaults: FlagTable)
    ensures
        flag_table_contents(defaults) == builtin_defaults(keys@),
{
    let mut defaults = FlagTable::new();
    if let Some(key) = keys.key(ROLE_EARLY_COMMIT) {
        defaults.insert(key, true);
    }
    if let Some(key) = keys.key(ROLE_ALLOW_DUPLICATE_SINGLE) {
        defaults.insert(key, true);
    }
    if let Some(key) = keys.key(ROLE_EARLY_COMMIT_TO_PREEDIT) {
        defaults.insert(key, false);
    }
    defaults
}

/// The value an option takes: the persisted value, else its default.
pub open spec fn effective_value(defaults: Map<Seq<char>, bool>, values: Map<Seq<char>, bool>, name: Seq<char>) -> bool {
    if values.contains_key(name) {
        values[name]
    } else {
        defaults[name]
    }
}

/// Writing `value` under `name` changes the persisted state: the option has a default
/// and its persisted value differs.
pub open spec fn persists_change(defaults: Map<Seq<char>, bool>, values: Map<Seq<char>, bool>, name: Seq<char>, value: bool) -> bool {
    defaults.contains_key(name) && !(values.contains_key(name) && values[name] == value)
}

/// Option state: defaults (which options are managed), persisted values and the number
/// of persisted changes.
#[derive(Debug)]
pub struct Options {
    pub defaults: FlagTable,
    pub values: FlagTable,
    pub revision: u64,
}

impl Default for Options {
    fn default() -> (options: Self)
        ensures
            options.defaults@ == no_flags(),
            options.values@ == no_flags(),
            options.revision == 0,
    {
        Options { defaults: FlagTable::new(), values: FlagTable::new(), revision: 0 }
    }
}

impl Options {
    /// State with the given defaults and nothing persisted.
    pub fn new(defaults: FlagTable) -> (options: Self)
        ensures
            options.defaults@ == defaults@,
            options.values@ == no_flags(),
            options.revision == 0,
    {
        Options { defaults, values: FlagTable::new(), revision: 0 }
    }

    /// Records a value directly (a switch flipped with no session); returns whether the
    /// persisted state changed.
    pub fn set_value(&mut self, name: &str, value: bool) -> (changed: bool)
        requires
            persists_change(old(self).defaults@, old(self).values@, name@, value) ==> old(self).revision < u64::MAX,
        ensures
            changed == persists_change(old(self).defaults@, old(self).values@, name@, value),
            final(self).defaults@ == old(self).defaults@,
            changed ==> final(self).values@ == old(self).values@.insert(name@, value) && final(self).revision
                == old(self).revision + 1,
            !changed ==> final(self).values@ == old(self).values@ && final(self).revision == old(self).revision,
    {
        if self.defaults.get(name).is_none() {
            return false;
        }
        if let Some(current) = self.values.get(name) {
            if current == value {
                return false;
            }
        }
        self.values.insert(name, value);
        self.revision = self.revision + 1;
        true
    }

    /// Whether the option has a default (and so is persisted).
    pub fn covers(&self, name: &str) -> (covered: bool)
        ensures
            covered == self.defaults@.contains_key(name@),
    {
        self.defaults.get(name).is_some()
    }

    /// The value in force for an option: the persisted value, else its default; `None`
    /// when it has neither.
    pub fn value(&self, name: &str) -> (found: Option<bool>)
        ensures
            found == if self.values@.contains_key(name@) {
                Some(self.values@[name@])
            } else if self.defaults@.contains_key(name@) {
                Some(self.defaults@[name@])
            } else {
                None
            },
            self.defaults@.contains_key(name@) ==> found == Some(effective_value(self.defaults@, self.values@, name@)),
    {
        match self.values.get(name) {
            Some(value) => Some(value),
            None => self.defaults.get(name),
        }
    }

    /// Writes every managed option into the context (persisted value, else default),
    /// leaving no option notification of its own behind.
    pub fn sync(&mut self, context: &mut Context)
        requires
            old(context).wf(),
        ensures
            final(self).defaults@ == old(self).defaults@,
            final(self).values@ == old(self).values@,
            final(self).revision == old(self).revision,
            final(context).wf(),
            forall|name: Seq<char>|
                #[trigger] old(self).defaults@.contains_key(name) ==> option_value(final(context).options@, name, false)
                    == effective_value(old(self).defaults@, old(self).values@, name),
            forall|name: Seq<char>|
                !old(self).defaults@.contains_key(name) ==> (#[trigger] final(context).options@.contains_key(name)
                    == old(context).options@.contains_key(name) && (old(context).options@.contains_key(name)
                    ==> final(context).options@[name] == old(context).options@[name])),
            final(context).events@ == old(context).events@,
            final(context).input == old(context).input,
            final(context).caret == old(context).caret,
            final(context).composition == old(context).composition,
            final(context).properties@ == old(context).properties@,
            final(context).buffered == old(context).buffered,
            final(context).punct_pairs == old(context).punct_pairs,
            final(context).last_commit == old(context).last_commit,
    {
        let names = self.defaults.keys();
        let ghost defaults = self.defaults@;
        let ghost values = self.values@;
        let mut i: usize = 0;
        while i < names.len()
            invariant
                i <= names.len(),
                self.defaults@ == defaults,
                self.values@ == values,
                self.revision == old(self).revision,
                forall|name: Seq<char>| #[trigger] text_views(names@).contains(name) <==> defaults.contains_key(name),
                context.wf(),
                forall|j: int|
                    0 <= j < i ==> option_value(context.options@, #[trigger] names@[j]@, false) == effective_value(
                        defaults,
                        values,
                        names@[j]@,
                    ),
                forall|name: Seq<char>|
                    !text_views(names@).take(i as int).contains(name) ==> (#[trigger] context.options@.contains_key(name)
                        == old(context).options@.contains_key(name) && (old(context).options@.contains_key(name)
                        ==> context.options@[name] == old(context).options@[name])),
                context.events@ == old(context).events@,
                context.input == old(context).input,
                context.caret == old(context).caret,
                context.composition == old(context).composition,
                context.properties@ == old(context).properties@,
                context.buffered == old(context).buffered,
                context.punct_pairs == old(context).punct_pairs,
                context.last_commit == old(context).last_commit,
            decreases names.len() - i,
        {
            let name = names[i].as_str();
            proof {
                assert(text_views(names@)[i as int] == name@);
                assert(text_views(names@).contains(name@));
            }
            let fallback = match self.defaults.get(name) {
                Some(value) => value,
                None => false,
            };
            let value = match self.values.get(name) {
                Some(persisted) => persisted,
                None => fallback,
            };
            let ghost before = context.options@;
            if context.get_option(name) != value {
                context.set_option(name, value);
                context.events.pop();
            }
            proof {
                assert forall|j: int| 0 <= j < i + 1 implies option_value(context.options@, #[trigger] names@[j]@, false)
                    == effective_value(defaults, values, names@[j]@) by {
                    if j < i && names@[j]@ != name@ {
                        assert(option_value(before, names@[j]@, false) == effective_value(defaults, values, names@[j]@));
                    }
                }
                assert forall|other: Seq<char>| !text_views(names@).take(i + 1).contains(other) implies (
                    #[trigger] context.options@.contains_key(other) == old(context).options@.contains_key(other)
                        && (old(context).options@.contains_key(other) ==> context.options@[other]
                        == old(context).options@[other])) by {
                    assert(text_views(names@).take(i + 1)[i as int] == name@);
                    assert(other != name@);
                    if text_views(names@).take(i as int).contains(other) {
                        let k = choose|k: int| 0 <= k < i && #[trigger] text_views(names@).take(i as int)[k] == other;
                        assert(text_views(names@).take(i + 1)[k] == other);
                    }
                    assert(before.contains_key(other) == old(context).options@.contains_key(other));
                    assert(context.options@.contains_key(other) == before.contains_key(other));
                    assert(before.contains_key(other) ==> context.options@[other] == before[other]);
                }
            }
            i = i + 1;
        }
        proof {
            assert(text_views(names@).take(names@.len() as int) =~= text_views(names@));
            assert forall|name: Seq<char>| #[trigger] defaults.contains_key(name) implies option_value(context.options@, name, false)
                == effective_value(defaults, values, name) by {
                assert(text_views(names@).contains(name));
                let k = choose|k: int| 0 <= k < text_views(names@).len() && #[trigger] text_views(names@)[k] == name;
                assert(names@[k]@ == name);
            }
        }
    }

    /// Records the context's value of a managed option; returns whether the persisted state
    /// changed (and so needs saving).
    pub fn observe(&mut self, context: &Context, name: &str) -> (changed: bool)
        requires
            persists_change(old(self).defaults@, old(self).values@, name@, option_value(context.options@, name@, false))
                ==> old(self).revision < u64::MAX,
        ensures
            changed == persists_change(old(self).defaults@, old(self).values@, name@, option_value(context.options@, name@, false)),
            final(self).defaults@ == old(self).defaults@,
            changed ==> final(self).values@ == old(self).values@.insert(name@, option_value(context.options@, name@, false))
                && final(self).revision == old(self).revision + 1,
            !changed ==> final(self).values@ == old(self).values@ && final(self).revision == old(self).revision,
    {
        if self.defaults.get(name).is_none() {
            return false;
        }
        let value = context.get_option(name);
        if let Some(current) = self.values.get(name) {
            if current == value {
                return false;
            }
        }
        self.values.insert(name, value);
        self.revision = self.revision + 1;
        true
    }
}

} // verus!
