//! Engine settings and the option roles: roles belong to the configuration layer, the
//! option keys they map to are declared by the scheme.

use vstd::prelude::*;
use crate::host::{HostOptions, DEFAULT_PAGE_SIZE, MAX_PAGE_SIZE};
use crate::key::{key_from_repr, KeyEvent};
use crate::scheme::OptionDecl;
use crate::tables::{flag_table_contents, no_flags, no_texts, role_table_contents, FlagTable, RoleTable};
use crate::text::{push_str, to_owned_string};

verus! {

/// Early commit master switch (runtime option; key declared by the scheme).
pub const ROLE_EARLY_COMMIT: &'static str = "early_commit";
/// Early commit into the preedit (runtime option; key declared by the scheme).
pub const ROLE_EARLY_COMMIT_TO_PREEDIT: &'static str = "early_commit_to_preedit";
/// Duplicate single characters take part in sentences (runtime option; key declared by the scheme).
pub const ROLE_ALLOW_DUPLICATE_SINGLE: &'static str = "allow_duplicate_single";
/// Digit selection (runtime option; key declared by the scheme).
pub const ROLE_DIGIT_SELECT: &'static str = "digit_select";
/// Full-shape punctuation (host option: its key is the role name).
pub const ROLE_FULL_SHAPE: &'static str = "full_shape";
/// ASCII punctuation (host option: its key is the role name).
pub const ROLE_ASCII_PUNCT: &'static str = "ascii_punct";
/// High-frequency filter limit (scheme configuration role).
pub const ROLE_HIGH_FREQ_LIMIT: &'static str = "high_freq_limit";
/// Shortest input kept in the composition by early commits (scheme configuration role).
pub const ROLE_MIN_RETAINED_INPUT_LENGTH: &'static str = "min_retained_raw_length";
/// Candidates per page (scheme configuration role).
pub const ROLE_PAGE_SIZE: &'static str = "page_size";
/// Page cycling (scheme configuration role).
pub const ROLE_PAGE_CYCLE: &'static str = "page_cycle";
/// Page-up keys (scheme configuration role).
pub const ROLE_PAGE_UP_KEYS: &'static str = "page_up_keys";
/// Page-down keys (scheme configuration role).
pub const ROLE_PAGE_DOWN_KEYS: &'static str = "page_down_keys";
/// Keys that open the lookup by pronunciation (scheme configuration role).
pub const ROLE_REVERSE_LOOKUP_PRONUNCIATION_KEYS: &'static str = "sound_to_char_shape_keys";
/// Keys that open the lookup by character (scheme configuration role).
pub const ROLE_REVERSE_LOOKUP_CHARACTER_KEYS: &'static str = "char_to_sound_shape_keys";
/// Tab confirmation writes to the learning store (scheme configuration role).
pub const ROLE_LEARNING_ON_TAB: &'static str = "tab_learning";

/// Default high-frequency filter limit (`0`: no limit).
pub const DEFAULT_HIGH_FREQ_LIMIT: usize = 1500;
/// Upper bound of the retained input length.
pub const MAX_MIN_RETAINED_INPUT_LENGTH: usize = 20;

/// The runtime option roles a scheme must declare.
pub open spec fn scheme_role_list() -> Seq<&'static str> {
    seq![ROLE_EARLY_COMMIT, ROLE_EARLY_COMMIT_TO_PREEDIT, ROLE_ALLOW_DUPLICATE_SINGLE, ROLE_DIGIT_SELECT]
}

/// The runtime option roles a scheme must declare (a missing one fails the resolution).
pub fn scheme_option_roles() -> (roles: Vec<&'static str>)
    ensures
        roles@ == scheme_role_list(),
{
    let roles = vec![ROLE_EARLY_COMMIT, ROLE_EARLY_COMMIT_TO_PREEDIT, ROLE_ALLOW_DUPLICATE_SINGLE, ROLE_DIGIT_SELECT];
    assert(roles@ =~= scheme_role_list());
    roles
}

/// Host option roles: their keys are the role names.
pub fn host_option_roles() -> (roles: Vec<&'static str>)
    ensures
        roles@ == seq![ROLE_FULL_SHAPE, ROLE_ASCII_PUNCT],
{
    let roles = vec![ROLE_FULL_SHAPE, ROLE_ASCII_PUNCT];
    assert(roles@ =~= seq![ROLE_FULL_SHAPE, ROLE_ASCII_PUNCT]);
    roles
}

/// Runtime switches in menu order.
pub fn runtime_option_roles() -> (roles: Vec<&'static str>)
    ensures
        roles@ == seq![ROLE_EARLY_COMMIT, ROLE_EARLY_COMMIT_TO_PREEDIT, ROLE_ALLOW_DUPLICATE_SINGLE, ROLE_FULL_SHAPE, ROLE_DIGIT_SELECT],
{
    let roles = vec![ROLE_EARLY_COMMIT, ROLE_EARLY_COMMIT_TO_PREEDIT, ROLE_ALLOW_DUPLICATE_SINGLE, ROLE_FULL_SHAPE, ROLE_DIGIT_SELECT];
    assert(roles@ =~= seq![ROLE_EARLY_COMMIT, ROLE_EARLY_COMMIT_TO_PREEDIT, ROLE_ALLOW_DUPLICATE_SINGLE, ROLE_FULL_SHAPE, ROLE_DIGIT_SELECT]);
    roles
}

/// Roles of the scheme configuration bag that the settings fill.
pub fn scheme_config_roles() -> (roles: Vec<&'static str>)
    ensures
        roles@ == seq![
            ROLE_HIGH_FREQ_LIMIT,
            ROLE_MIN_RETAINED_INPUT_LENGTH,
            ROLE_PAGE_SIZE,
            ROLE_PAGE_CYCLE,
            ROLE_PAGE_UP_KEYS,
            ROLE_PAGE_DOWN_KEYS,
            ROLE_REVERSE_LOOKUP_PRONUNCIATION_KEYS,
            ROLE_REVERSE_LOOKUP_CHARACTER_KEYS,
            ROLE_LEARNING_ON_TAB
        ],
{
    let roles = vec![
        ROLE_HIGH_FREQ_LIMIT,
        ROLE_MIN_RETAINED_INPUT_LENGTH,
        ROLE_PAGE_SIZE,
        ROLE_PAGE_CYCLE,
        ROLE_PAGE_UP_KEYS,
        ROLE_PAGE_DOWN_KEYS,
        ROLE_REVERSE_LOOKUP_PRONUNCIATION_KEYS,
        ROLE_REVERSE_LOOKUP_CHARACTER_KEYS,
        ROLE_LEARNING_ON_TAB,
    ];
    assert(roles@ =~= seq![
        ROLE_HIGH_FREQ_LIMIT,
        ROLE_MIN_RETAINED_INPUT_LENGTH,
        ROLE_PAGE_SIZE,
        ROLE_PAGE_CYCLE,
        ROLE_PAGE_UP_KEYS,
        ROLE_PAGE_DOWN_KEYS,
        ROLE_REVERSE_LOOKUP_PRONUNCIATION_KEYS,
        ROLE_REVERSE_LOOKUP_CHARACTER_KEYS,
        ROLE_LEARNING_ON_TAB
    ]);
    roles
}

/// Why option declarations could not be resolved.
#[derive(Clone, Debug, PartialEq, Eq)]
pub enum DeclError {
    /// Required roles the scheme did not declare.
    Missing(Vec<&'static str>),
    /// A role declared twice (or a host role redeclared).
    Duplicate(&'static str),
    /// An empty role or key.
    Empty,
}

/// `items` joined with `", "`.
pub open spec fn joined(items: Seq<&'static str>) -> Seq<char>
    decreases items.len(),
{
    if items.len() == 0 {
        Seq::empty()
    } else if items.len() == 1 {
        items[0]@
    } else {
        joined(items.drop_last()) + ", "@ + items.last()@
    }
}

/// The diagnostic text of a declaration error.
pub open spec fn decl_error_message(error: DeclError) -> Seq<char> {
    match error {
        DeclError::Missing(roles) => "方案未声明角色："@ + joined(roles@),
        DeclError::Duplicate(role) => "角色重复声明："@ + role@,
        DeclError::Empty => "选项声明含空角色名或空键"@,
    }
}

impl DeclError {
    /// The diagnostic text shown in the platform status.
    pub fn to_string(&self) -> (message: String)
        ensures
            message@ == decl_error_message(*self),
    {
        match self {
            DeclError::Missing(roles) => {
                let mut message = to_owned_string("方案未声明角色：");
                let ghost prefix = message@;
                let mut i: usize = 0;
                while i < roles.len()
                    invariant
                        i <= roles.len(),
                        message@ == prefix + joined(roles@.take(i as int)),
                    decreases roles.len() - i,
                {
                    proof {
                        assert(roles@.take(i + 1).drop_last() =~= roles@.take(i as int));
                        reveal_strlit(", ");
                    }
                    if i > 0 {
                        push_str(&mut message, ", ");
                    }
                    push_str(&mut message, roles[i]);
                    proof {
                        if i == 0 {
                            assert(roles@.take(0) =~= Seq::<&'static str>::empty());
                        }
                        assert(message@ =~= prefix + joined(roles@.take(i + 1)));
                    }
                    i = i + 1;
                }
                assert(roles@.take(i as int) =~= roles@);
                message
            },
            DeclError::Duplicate(role) => {
                let mut message = to_owned_string("角色重复声明：");
                push_str(&mut message, role);
                message
            },
            DeclError::Empty => to_owned_string("选项声明含空角色名或空键"),
        }
    }
}

/// The host keys every resolution starts from.
pub open spec fn host_keys() -> Map<Seq<char>, Seq<char>> {
    no_texts().insert(ROLE_FULL_SHAPE@, ROLE_FULL_SHAPE@).insert(ROLE_ASCII_PUNCT@, ROLE_ASCII_PUNCT@)
}

/// The keys after taking in `decls` one by one; an error names the first declaration
/// that fails (`None`: an empty role or key, `Some(role)`: a role already present).
pub open spec fn declared_keys(decls: Seq<OptionDecl>) -> Result<Map<Seq<char>, Seq<char>>, Option<&'static str>>
    decreases decls.len(),
{
    if decls.len() == 0 {
        Ok(host_keys())
    } else {
        match declared_keys(decls.drop_last()) {
            Err(e) => Err(e),
            Ok(keys) => {
                let decl = decls.last();
                if decl.role@.len() == 0 || decl.key@.len() == 0 {
                    Err(None)
                } else if keys.contains_key(decl.role@) {
                    Err(Some(decl.role))
                } else {
                    Ok(keys.insert(decl.role@, decl.key@))
                }
            },
        }
    }
}

/// The roles of `roles` that `keys` lacks, in order.
pub open spec fn missing_roles(roles: Seq<&'static str>, keys: Map<Seq<char>, Seq<char>>) -> Seq<&'static str>
    decreases roles.len(),
{
    if roles.len() == 0 {
        Seq::empty()
    } else if keys.contains_key(roles.last()@) {
        missing_roles(roles.drop_last(), keys)
    } else {
        missing_roles(roles.drop_last(), keys).push(roles.last())
    }
}

/// Resolved option keys: the host keys plus the scheme's declarations.
#[derive(Debug, PartialEq, Eq)]
pub struct OptionKeys {
    keys: RoleTable,
}

impl View for OptionKeys {
    type V = Map<Seq<char>, Seq<char>>;

    closed spec fn view(&self) -> Map<Seq<char>, Seq<char>> {
        role_table_contents(self.keys)
    }
}

impl OptionKeys {
    /// Keys without any declaration (no role resolves).
    pub fn empty() -> (keys: Self)
        ensures
            keys@ == no_texts(),
    {
        OptionKeys { keys: RoleTable::new() }
    }

    /// Resolves the scheme's declarations: host keys first, then each declaration; an
    /// empty or repeated role fails at once, and every scheme role must be declared.
    pub fn resolve(declarations: &[OptionDecl]) -> (resolved: Result<Self, DeclError>)
        ensures
            match resolved {
                Ok(keys) => declared_keys(declarations@) == Ok::<Map<Seq<char>, Seq<char>>, Option<&'static str>>(keys@)
                    && missing_roles(scheme_role_list(), keys@).len() == 0,
                Err(DeclError::Empty) => declared_keys(declarations@) == Err::<Map<Seq<char>, Seq<char>>, Option<&'static str>>(None),
                Err(DeclError::Duplicate(role)) => declared_keys(declarations@) == Err::<Map<Seq<char>, Seq<char>>, Option<&'static str>>(Some(role)),
                Err(DeclError::Missing(roles)) => declared_keys(declarations@) is Ok
                    && roles@ == missing_roles(scheme_role_list(), declared_keys(declarations@)->Ok_0)
                    && roles@.len() > 0,
            },
    {
        let mut keys = RoleTable::new();
        keys.insert(ROLE_FULL_SHAPE, ROLE_FULL_SHAPE);
        keys.insert(ROLE_ASCII_PUNCT, ROLE_ASCII_PUNCT);
        assert(declarations@.take(0) =~= Seq::<OptionDecl>::empty());
        let mut i: usize = 0;
        while i < declarations.len()
            invariant
                i <= declarations.len(),
                declared_keys(declarations@.take(i as int)) == Ok::<Map<Seq<char>, Seq<char>>, Option<&'static str>>(
                    role_table_contents(keys),
                ),
            decreases declarations.len() - i,
        {
            proof {
                assert(declarations@.take(i + 1).drop_last() =~= declarations@.take(i as int));
                assert(declarations@.take(i + 1).last() == declarations@[i as int]);
            }
            let decl = declarations[i];
            if decl.role.is_empty() || decl.key.is_empty() {
                proof {
                    lemma_declared_keys_error_stays(declarations@, i as int + 1);
                }
                return Err(DeclError::Empty);
            }
            if keys.insert(decl.role, decl.key) {
                proof {
                    lemma_declared_keys_error_stays(declarations@, i as int + 1);
                }
                return Err(DeclError::Duplicate(decl.role));
            }
            i = i + 1;
        }
        assert(declarations@.take(i as int) =~= declarations@);
        let roles = scheme_option_roles();
        let mut missing: Vec<&'static str> = Vec::new();
        let mut j: usize = 0;
        assert(roles@.take(0) =~= Seq::<&'static str>::empty());
        while j < roles.len()
            invariant
                j <= roles.len(),
                roles@ == scheme_role_list(),
                missing@ == missing_roles(roles@.take(j as int), role_table_contents(keys)),
            decreases roles.len() - j,
        {
            proof {
                assert(roles@.take(j + 1).drop_last() =~= roles@.take(j as int));
                assert(roles@.take(j + 1).last() == roles@[j as int]);
            }
            if !keys.contains_key(roles[j]) {
                missing.push(roles[j]);
            }
            j = j + 1;
        }
        assert(roles@.take(j as int) =~= roles@);
        if missing.len() == 0 {
            Ok(OptionKeys { keys })
        } else {
            Err(DeclError::Missing(missing))
        }
    }

    /// The option key of a role (`None` for an undeclared or unknown role).
    pub fn key(&self, role: &str) -> (key: Option<&'static str>)
        ensures
            match key {
                Some(k) => self@.contains_key(role@) && k@ == self@[role@],
                None => !self@.contains_key(role@),
            },
    {
        self.keys.get(role)
    }
}

/// Once a prefix of the declarations fails, every longer prefix fails the same way.
pub proof fn lemma_declared_keys_error_stays(decls: Seq<OptionDecl>, n: int)
    requires
        0 <= n <= decls.len(),
        declared_keys(decls.take(n)) is Err,
    ensures
        declared_keys(decls) == declared_keys(decls.take(n)),
    decreases decls.len() - n,
{
    if n < decls.len() {
        assert(decls.take(n + 1).drop_last() =~= decls.take(n));
        lemma_declared_keys_error_stays(decls, n + 1);
    } else {
        assert(decls.take(n) =~= decls);
    }
}

/// Candidate layout.
#[derive(Clone, Copy, Debug, PartialEq, Eq)]
pub enum CandidateLayout {
    /// Follow the global vertical-candidate setting of the platform.
    FollowGlobal,
    Horizontal,
    Vertical,
}

/// What the preedit shows.
#[derive(Clone, Copy, Debug, PartialEq, Eq)]
pub enum PreeditMode {
    /// The highlighted candidate's code split first.
    CandidateCode,
    /// The raw input (buffer and live input).
    RawInput,
    /// No preedit.
    Hidden,
}

/// Engine settings, one field per item of the configuration page.
#[derive(Clone, Debug, PartialEq)]
pub struct Settings {
    pub early_commit: bool,
    pub early_commit_to_preedit: bool,
    pub allow_duplicate_single: bool,
    pub full_shape: bool,
    pub ascii_punct: bool,
    /// Tab confirmation writes to the learning store.
    pub learning_on_tab: bool,
    pub high_freq_limit: usize,
    /// Keys (rime names) that open the lookup by pronunciation.
    pub reverse_lookup_pronunciation_keys: Vec<String>,
    /// Keys (rime names) that open the lookup by character.
    pub reverse_lookup_character_keys: Vec<String>,
    pub page_size: usize,
    pub page_up_keys: Vec<String>,
    pub page_down_keys: Vec<String>,
    /// Digits pick candidates of the current page while a menu is shown.
    pub digit_select: bool,
    pub candidate_layout: CandidateLayout,
    pub preedit_mode: PreeditMode,
    pub page_cycle: bool,
    /// Shortest input early commits leave in the composition.
    pub min_retained_input_length: usize,
}

/// The names in `names`, as texts.
pub open spec fn texts_of(names: Seq<String>) -> Seq<Seq<char>> {
    names.map_values(|name: String| name@)
}

fn owned_list(names: &[&str]) -> (list: Vec<String>)
    ensures
        list@.len() == names@.len(),
        forall|i: int| 0 <= i < names@.len() ==> #[trigger] list@[i]@ == names@[i]@,
{
    let mut list: Vec<String> = Vec::new();
    let mut i: usize = 0;
    while i < names.len()
        invariant
            i <= names.len(),
            list@.len() == i,
            forall|j: int| 0 <= j < i ==> #[trigger] list@[j]@ == names@[j]@,
        decreases names.len() - i,
    {
        list.push(to_owned_string(names[i]));
        i = i + 1;
    }
    list
}

impl Default for Settings {
    fn default() -> (settings: Self)
        ensures
            settings.early_commit,
            !settings.early_commit_to_preedit,
            settings.allow_duplicate_single,
            !settings.full_shape,
            !settings.ascii_punct,
            settings.learning_on_tab,
            settings.high_freq_limit == DEFAULT_HIGH_FREQ_LIMIT,
            texts_of(settings.reverse_lookup_pronunciation_keys@) == seq!["grave"@],
            texts_of(settings.reverse_lookup_character_keys@) == seq!["asciitilde"@],
            settings.page_size == DEFAULT_PAGE_SIZE,
            texts_of(settings.page_up_keys@) == seq!["minus"@, "bracketleft"@],
            texts_of(settings.page_down_keys@) == seq!["equal"@, "bracketright"@],
            settings.digit_select,
            settings.candidate_layout == CandidateLayout::FollowGlobal,
            settings.preedit_mode == PreeditMode::CandidateCode,
            !settings.page_cycle,
            settings.min_retained_input_length == 0,
    {
        let pronunciation = owned_list(&["grave"]);
        let character = owned_list(&["asciitilde"]);
        let up = owned_list(&["minus", "bracketleft"]);
        let down = owned_list(&["equal", "bracketright"]);
        assert(texts_of(pronunciation@) =~= seq!["grave"@]);
        assert(texts_of(character@) =~= seq!["asciitilde"@]);
        assert(texts_of(up@) =~= seq!["minus"@, "bracketleft"@]);
        assert(texts_of(down@) =~= seq!["equal"@, "bracketright"@]);
        Settings {
            early_commit: true,
            early_commit_to_preedit: false,
            allow_duplicate_single: true,
            full_shape: false,
            ascii_punct: false,
            learning_on_tab: true,
            high_freq_limit: DEFAULT_HIGH_FREQ_LIMIT,
            reverse_lookup_pronunciation_keys: pronunciation,
            reverse_lookup_character_keys: character,
            page_size: DEFAULT_PAGE_SIZE,
            page_up_keys: up,
            page_down_keys: down,
            digit_select: true,
            candidate_layout: CandidateLayout::FollowGlobal,
            preedit_mode: PreeditMode::CandidateCode,
            page_cycle: false,
            min_retained_input_length: 0,
        }
    }
}

/// The keys of `reprs` that parse, in order (the others are dropped).
pub open spec fn parsed_keys(reprs: Seq<String>) -> Seq<KeyEvent>
    decreases reprs.len(),
{
    if reprs.len() == 0 {
        Seq::empty()
    } else {
        match key_from_repr(reprs.last()@) {
            Some(key) => parsed_keys(reprs.drop_last()).push(key),
            None => parsed_keys(reprs.drop_last()),
        }
    }
}

fn parse_keys(reprs: &Vec<String>) -> (keys: Vec<KeyEvent>)
    ensures
        keys@ == parsed_keys(reprs@),
{
    let mut keys: Vec<KeyEvent> = Vec::new();
    let mut i: usize = 0;
    assert(reprs@.take(0) =~= Seq::<String>::empty());
    while i < reprs.len()
        invariant
            i <= reprs.len(),
            keys@ == parsed_keys(reprs@.take(i as int)),
        decreases reprs.len() - i,
    {
        proof {
            assert(reprs@.take(i + 1).drop_last() =~= reprs@.take(i as int));
            assert(reprs@.take(i + 1).last() == reprs@[i as int]);
        }
        match KeyEvent::from_repr(reprs[i].as_str()) {
            Some(key) => keys.push(key),
            None => {},
        }
        i = i + 1;
    }
    assert(reprs@.take(i as int) =~= reprs@);
    keys
}

/// The session options a setting contributes, in write order: the three scheme switches
/// whose roles resolve, the two host options, then digit selection if it resolves.
pub open spec fn spec_option_defaults(settings: Settings, keys: Map<Seq<char>, Seq<char>>) -> Seq<(Seq<char>, bool)> {
    let first = listed_under(Seq::empty(), keys, ROLE_EARLY_COMMIT@, settings.early_commit);
    let second = listed_under(first, keys, ROLE_EARLY_COMMIT_TO_PREEDIT@, settings.early_commit_to_preedit);
    let third = listed_under(second, keys, ROLE_ALLOW_DUPLICATE_SINGLE@, settings.allow_duplicate_single);
    let hosts = third.push((ROLE_FULL_SHAPE@, settings.full_shape)).push((ROLE_ASCII_PUNCT@, settings.ascii_punct));
    listed_under(hosts, keys, ROLE_DIGIT_SELECT@, settings.digit_select)
}

/// `list` with `(key of role, value)` appended when the role resolves.
pub open spec fn listed_under(
    list: Seq<(Seq<char>, bool)>,
    keys: Map<Seq<char>, Seq<char>>,
    role: Seq<char>,
    value: bool,
) -> Seq<(Seq<char>, bool)> {
    if keys.contains_key(role) {
        list.push((keys[role], value))
    } else {
        list
    }
}

/// `map` with `value` stored under the key of `role` when the role resolves.
pub open spec fn stored_under(
    map: Map<Seq<char>, bool>,
    keys: Map<Seq<char>, Seq<char>>,
    role: Seq<char>,
    value: bool,
) -> Map<Seq<char>, bool> {
    if keys.contains_key(role) {
        map.insert(keys[role], value)
    } else {
        map
    }
}

/// `(key text, value)` for each listed option.
pub open spec fn entries_view(entries: Seq<(&'static str, bool)>) -> Seq<(Seq<char>, bool)> {
    entries.map_values(|entry: (&'static str, bool)| (entry.0@, entry.1))
}

/// The first value listed under `name`.
pub open spec fn first_value(list: Seq<(Seq<char>, bool)>, name: Seq<char>) -> Option<bool>
    decreases list.len(),
{
    if list.len() == 0 {
        None
    } else if list[0].0 == name {
        Some(list[0].1)
    } else {
        first_value(list.drop_first(), name)
    }
}

/// The persisted switches a setting provides defaults for: the four scheme switches whose
/// roles resolve, and full-shape punctuation under its own name.
pub open spec fn spec_store_defaults(settings: Settings, keys: Map<Seq<char>, Seq<char>>) -> Map<Seq<char>, bool> {
    let first = stored_under(no_flags(), keys, ROLE_EARLY_COMMIT@, settings.early_commit);
    let second = stored_under(first, keys, ROLE_EARLY_COMMIT_TO_PREEDIT@, settings.early_commit_to_preedit);
    let third = stored_under(second, keys, ROLE_ALLOW_DUPLICATE_SINGLE@, settings.allow_duplicate_single);
    let fourth = stored_under(third, keys, ROLE_DIGIT_SELECT@, settings.digit_select);
    fourth.insert(ROLE_FULL_SHAPE@, settings.full_shape)
}

impl Settings {
    /// Initial session options: `(option key, value)` in write order.
    pub fn option_defaults(&self, keys: &OptionKeys) -> (defaults: Vec<(&'static str, bool)>)
        ensures
            entries_view(defaults@) == spec_option_defaults(*self, keys@),
    {
        let mut defaults: Vec<(&'static str, bool)> = Vec::new();
        let ghost mut list: Seq<(Seq<char>, bool)> = Seq::empty();
        proof {
            reveal_strlit("full_shape");
            reveal_strlit("ascii_punct");
        }
        if let Some(key) = keys.key(ROLE_EARLY_COMMIT) {
            defaults.push((key, self.early_commit));
        }
        assert(entries_view(defaults@) =~= (if keys@.contains_key(ROLE_EARLY_COMMIT@) { Seq::<(Seq<char>, bool)>::empty().push((keys@[ROLE_EARLY_COMMIT@], self.early_commit)) } else { Seq::empty() }));
        let ghost first = entries_view(defaults@);
        if let Some(key) = keys.key(ROLE_EARLY_COMMIT_TO_PREEDIT) {
            defaults.push((key, self.early_commit_to_preedit));
        }
        assert(entries_view(defaults@) =~= (if keys@.contains_key(ROLE_EARLY_COMMIT_TO_PREEDIT@) { first.push((keys@[ROLE_EARLY_COMMIT_TO_PREEDIT@], self.early_commit_to_preedit)) } else { first }));
        let ghost second = entries_view(defaults@);
        if let Some(key) = keys.key(ROLE_ALLOW_DUPLICATE_SINGLE) {
            defaults.push((key, self.allow_duplicate_single));
        }
        assert(entries_view(defaults@) =~= (if keys@.contains_key(ROLE_ALLOW_DUPLICATE_SINGLE@) { second.push((keys@[ROLE_ALLOW_DUPLICATE_SINGLE@], self.allow_duplicate_single)) } else { second }));
        let ghost third = entries_view(defaults@);
        defaults.push((ROLE_FULL_SHAPE, self.full_shape));
        defaults.push((ROLE_ASCII_PUNCT, self.ascii_punct));
        assert(entries_view(defaults@) =~= third.push((ROLE_FULL_SHAPE@, self.full_shape)).push((ROLE_ASCII_PUNCT@, self.ascii_punct)));
        let ghost hosts = entries_view(defaults@);
        if let Some(key) = keys.key(ROLE_DIGIT_SELECT) {
            defaults.push((key, self.digit_select));
        }
        assert(entries_view(defaults@) =~= (if keys@.contains_key(ROLE_DIGIT_SELECT@) { hosts.push((keys@[ROLE_DIGIT_SELECT@], self.digit_select)) } else { hosts }));
        defaults
    }

    /// One initial session option, by key (the first listed value).
    pub fn option_default(&self, keys: &OptionKeys, name: &str) -> (value: Option<bool>)
        ensures
            value == first_value(spec_option_defaults(*self, keys@), name@),
    {
        let defaults = self.option_defaults(keys);
        let ghost list = entries_view(defaults@);
        let mut i: usize = 0;
        assert(list.skip(0) =~= list);
        while i < defaults.len()
            invariant
                i <= defaults.len(),
                list == entries_view(defaults@),
                list == spec_option_defaults(*self, keys@),
                first_value(list, name@) == first_value(list.skip(i as int), name@),
            decreases defaults.len() - i,
        {
            proof {
                assert(list.skip(i as int).drop_first() =~= list.skip(i + 1));
                assert(list.skip(i as int)[0] == list[i as int]);
                assert(list[i as int] == (defaults@[i as int].0@, defaults@[i as int].1));
            }
            if crate::text::str_eq(defaults[i].0, name) {
                assert(list.skip(i as int).len() > 0);
                assert(first_value(list.skip(i as int), name@) == Some(list[i as int].1));
                return Some(defaults[i].1);
            }
            i = i + 1;
        }
        assert(list.skip(i as int) =~= Seq::<(Seq<char>, bool)>::empty());
        None
    }

    /// Persisted-switch defaults: option key → value.
    pub fn store_defaults(&self, keys: &OptionKeys) -> (defaults: FlagTable)
        ensures
            flag_table_contents(defaults) == spec_store_defaults(*self, keys@),
    {
        let mut defaults = FlagTable::new();
        if let Some(key) = keys.key(ROLE_EARLY_COMMIT) {
            defaults.insert(key, self.early_commit);
        }
        if let Some(key) = keys.key(ROLE_EARLY_COMMIT_TO_PREEDIT) {
            defaults.insert(key, self.early_commit_to_preedit);
        }
        if let Some(key) = keys.key(ROLE_ALLOW_DUPLICATE_SINGLE) {
            defaults.insert(key, self.allow_duplicate_single);
        }
        if let Some(key) = keys.key(ROLE_DIGIT_SELECT) {
            defaults.insert(key, self.digit_select);
        }
        proof {
            reveal_strlit("full_shape");
        }
        defaults.insert(ROLE_FULL_SHAPE, self.full_shape);
        defaults
    }

    /// The retained input length, at most [`MAX_MIN_RETAINED_INPUT_LENGTH`].
    pub fn min_retained(&self) -> (length: usize)
        ensures
            length == if self.min_retained_input_length < MAX_MIN_RETAINED_INPUT_LENGTH {
                self.min_retained_input_length
            } else {
                MAX_MIN_RETAINED_INPUT_LENGTH
            },
    {
        if self.min_retained_input_length < MAX_MIN_RETAINED_INPUT_LENGTH {
            self.min_retained_input_length
        } else {
            MAX_MIN_RETAINED_INPUT_LENGTH
        }
    }

    /// Host options: page keys that parse (the others are ignored), the page size within
    /// `1..=MAX_PAGE_SIZE`, and page cycling.
    pub fn host_options(&self) -> (options: HostOptions)
        ensures
            options.page_size == if self.page_size < 1 {
                1
            } else if self.page_size > MAX_PAGE_SIZE {
                MAX_PAGE_SIZE
            } else {
                self.page_size
            },
            options.page_up_keys@ == parsed_keys(self.page_up_keys@),
            options.page_down_keys@ == parsed_keys(self.page_down_keys@),
            options.page_cycle == self.page_cycle,
    {
        let page_size = if self.page_size < 1 {
            1
        } else if self.page_size > MAX_PAGE_SIZE {
            MAX_PAGE_SIZE
        } else {
            self.page_size
        };
        HostOptions {
            page_size,
            page_up_keys: parse_keys(&self.page_up_keys),
            page_down_keys: parse_keys(&self.page_down_keys),
            page_cycle: self.page_cycle,
        }
    }
}

} // verus!
