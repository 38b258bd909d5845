//! Host chain: the librime components that handle a key after the scheme's processor
//! forwards it (`key_binder` → `punctuator` → `selector` → `navigator` → `express_editor`).

use vstd::prelude::*;
use vstd::utf8::{encode_utf8, valid_utf8};
use crate::key::{KeyEvent, K_ALT_MASK, K_CONTROL_MASK, K_RELEASE_MASK, K_SHIFT_MASK, K_SUPER_MASK};
use crate::punct::{definition_text, PunctTable};
use crate::punct::PairState;
use crate::session::{
    caret_set, cleared, commit_bytes, composition_committed, directly_committed, highlighted, input_deleted,
    input_popped, input_set, lossy_text, option_value, refreshed, script_bytes, selection_confirmed, spec_has_tag,
    spec_selected_candidate, Context, Event, Segment,
};
use crate::text::push_str;

verus! {

/// Default candidates per page (schema `menu/page_size`).
pub const DEFAULT_PAGE_SIZE: usize = 5;
/// Largest page size (digit selection reaches the tenth candidate with `0`).
pub const MAX_PAGE_SIZE: usize = 10;

/// Host settings: page size, page keys and page cycling.
#[derive(Clone, Debug, PartialEq, Eq)]
pub struct HostOptions {
    /// Candidates per page (at least 1 in use).
    pub page_size: usize,
    /// Keys that page up while a menu is shown.
    pub page_up_keys: Vec<KeyEvent>,
    /// Keys that page down while a menu is shown.
    pub page_down_keys: Vec<KeyEvent>,
    /// Paging down from the last page returns to the first.
    pub page_cycle: bool,
}

impl HostOptions {
    /// The schema defaults: five per page, `minus` pages up, `equal` pages down, no cycling.
    pub fn default() -> (options: Self)
        ensures
            options.page_size == DEFAULT_PAGE_SIZE,
            options.page_up_keys@ == seq![KeyEvent { keycode: 0x2d, modifier: 0 }],
            options.page_down_keys@ == seq![KeyEvent { keycode: 0x3d, modifier: 0 }],
            !options.page_cycle,
    {
        let mut up: Vec<KeyEvent> = Vec::new();
        up.push(KeyEvent::new(0x2d, 0));
        let mut down: Vec<KeyEvent> = Vec::new();
        down.push(KeyEvent::new(0x3d, 0));
        assert(up@ =~= seq![KeyEvent { keycode: 0x2d, modifier: 0 }]);
        assert(down@ =~= seq![KeyEvent { keycode: 0x3d, modifier: 0 }]);
        HostOptions { page_size: DEFAULT_PAGE_SIZE, page_up_keys: up, page_down_keys: down, page_cycle: false }
    }
}

/// What the host chain did with a key: `Consumed` is librime's `kAccepted`.
#[derive(Clone, Copy, Debug, PartialEq, Eq, Structural)]
pub enum HostResult {
    Consumed,
    Forward,
}

/// Commit notification of the host chain (the scheme records learning from it).
pub trait CommitObserver {
    /// The texts reported so far, oldest first. A verified observer keeps them (as ghost
    /// state) to meet the contract of `on_commit`; the default keeps none, so it serves only
    /// observers written outside the verified library.
    open spec fn commits(&self) -> Seq<Seq<char>> {
        Seq::empty()
    }

    /// Reports that `commit_text` is being committed from `context`.
    fn on_commit(&mut self, context: &Context, commit_text: &str)
        ensures
            final(self).commits() == old(self).commits().push(commit_text@),
    ;
}

/// An observer that does nothing with commits but remember (as ghost state) that they were
/// reported.
pub struct NoObserver {
    reported: Ghost<Seq<Seq<char>>>,
}

impl NoObserver {
    /// An observer with no reports yet.
    pub fn new() -> (observer: Self)
        ensures
            observer.commits() == Seq::<Seq<char>>::empty(),
    {
        NoObserver { reported: Ghost(Seq::empty()) }
    }
}

impl CommitObserver for NoObserver {
    closed spec fn commits(&self) -> Seq<Seq<char>> {
        self.reported@
    }

    fn on_commit(&mut self, context: &Context, commit_text: &str) {
        self.reported = Ghost(self.reported@.push(commit_text@));
    }
}

/// The text a commit of the composition reports: the commit text of its input, as the
/// lossy decoding gives it.
pub open spec fn reported_commit(context: Context) -> Seq<char> {
    lossy_text(commit_bytes(context.composition.segments@, context.input@))
}

/// Paging direction of a bound page key.
#[derive(Clone, Copy, Debug, PartialEq, Eq)]
pub enum PagingDir {
    Up,
    Down,
}

// ---------------------------------------------------------------- shared predicates

/// Value of a context option (unset options are off).
pub open spec fn option_on(context: Context, name: Seq<char>) -> bool {
    option_value(context.options@, name, false)
}

/// The last segment has candidates.
pub open spec fn spec_has_menu(context: Context) -> bool {
    context.composition.segments@.len() > 0 && context.composition.segments@.last().candidates@.len() > 0
}

/// The menu can be driven by key bindings: not in ASCII mode, and a menu is shown.
pub open spec fn spec_menu_available(context: Context) -> bool {
    !option_on(context, "ascii_mode"@) && spec_has_menu(context)
}

/// `key` equals one of `keys` exactly (keysym and modifiers).
pub open spec fn key_bound(keys: Seq<KeyEvent>, key: KeyEvent) -> bool {
    exists|i: int| 0 <= i < keys.len() && (#[trigger] keys[i]).keycode == key.keycode && keys[i].modifier == key.modifier
}

/// The paging that a key triggers: page keys act only while the menu is available.
pub open spec fn spec_paging_action(context: Context, options: HostOptions, key: KeyEvent) -> Option<PagingDir> {
    if !spec_menu_available(context) {
        None
    } else if key_bound(options.page_up_keys@, key) {
        Some(PagingDir::Up)
    } else if key_bound(options.page_down_keys@, key) {
        Some(PagingDir::Down)
    } else {
        None
    }
}

fn bound(keys: &Vec<KeyEvent>, key: &KeyEvent) -> (found: bool)
    ensures
        found == key_bound(keys@, *key),
{
    let mut i: usize = 0;
    while i < keys.len()
        invariant
            i <= keys.len(),
            forall|j: int| 0 <= j < i ==> !(keys@[j].keycode == key.keycode && keys@[j].modifier == key.modifier),
        decreases keys.len() - i,
    {
        if keys[i].keycode == key.keycode && keys[i].modifier == key.modifier {
            return true;
        }
        i = i + 1;
    }
    false
}

fn menu_available(context: &Context) -> (available: bool)
    ensures
        available == spec_menu_available(*context),
{
    proof {
        reveal_strlit("ascii_mode");
    }
    !context.get_option("ascii_mode") && context.has_menu()
}

/// The shared paging predicate of key bindings and the scheme's processor.
pub fn paging_action(context: &Context, options: &HostOptions, key_event: &KeyEvent) -> (dir: Option<PagingDir>)
    ensures
        dir == spec_paging_action(*context, *options, *key_event),
{
    if !menu_available(context) {
        return None;
    }
    if bound(&options.page_up_keys, key_event) {
        return Some(PagingDir::Up);
    }
    if bound(&options.page_down_keys, key_event) {
        return Some(PagingDir::Down);
    }
    None
}

// ---------------------------------------------------------------- selector

/// Menu actions (librime `Selector`).
#[derive(Clone, Copy, Debug, PartialEq, Eq)]
pub enum SelectorAction {
    PreviousCandidate,
    NextCandidate,
    PreviousPage,
    NextPage,
    Home,
    End,
}

/// Selector key map (horizontal stacked menu; the vertical layout turns Right/Left
/// into previous/next candidate).
pub open spec fn spec_selector_from_key(key: KeyEvent, vertical: bool) -> Option<SelectorAction> {
    let code = key.keycode;
    if !vertical && (code == 0xff52 || code == 0xff97) {
        Some(SelectorAction::PreviousCandidate)
    } else if !vertical && (code == 0xff54 || code == 0xff99) {
        Some(SelectorAction::NextCandidate)
    } else if code == 0xff55 || code == 0xff9a {
        Some(SelectorAction::PreviousPage)
    } else if code == 0xff56 || code == 0xff9b {
        Some(SelectorAction::NextPage)
    } else if code == 0xff50 || code == 0xff95 {
        Some(SelectorAction::Home)
    } else if code == 0xff57 || code == 0xff9c {
        Some(SelectorAction::End)
    } else if vertical && (code == 0xff53 || code == 0xff98) {
        Some(SelectorAction::PreviousCandidate)
    } else if vertical && (code == 0xff51 || code == 0xff96) {
        Some(SelectorAction::NextCandidate)
    } else {
        None
    }
}

impl SelectorAction {
    /// The selector action bound to a key.
    pub fn from_key(key_event: &KeyEvent, vertical: bool) -> (action: Option<Self>)
        ensures
            action == spec_selector_from_key(*key_event, vertical),
    {
        let code = key_event.keycode;
        if !vertical && (code == 0xff52 || code == 0xff97) {
            Some(SelectorAction::PreviousCandidate)
        } else if !vertical && (code == 0xff54 || code == 0xff99) {
            Some(SelectorAction::NextCandidate)
        } else if code == 0xff55 || code == 0xff9a {
            Some(SelectorAction::PreviousPage)
        } else if code == 0xff56 || code == 0xff9b {
            Some(SelectorAction::NextPage)
        } else if code == 0xff50 || code == 0xff95 {
            Some(SelectorAction::Home)
        } else if code == 0xff57 || code == 0xff9c {
            Some(SelectorAction::End)
        } else if vertical && (code == 0xff53 || code == 0xff98) {
            Some(SelectorAction::PreviousCandidate)
        } else if vertical && (code == 0xff51 || code == 0xff96) {
            Some(SelectorAction::NextCandidate)
        } else {
            None
        }
    }
}

/// Page size in use (0 counts as 1).
pub open spec fn effective_page_size(options: HostOptions) -> int {
    if options.page_size >= 1 { options.page_size as int } else { 1 }
}

/// The menu arithmetic of the selector stays within `usize` for this context.
pub open spec fn menu_arithmetic_fits(context: Context, options: HostOptions) -> bool {
    context.composition.segments@.len() > 0 ==> ({
        let selected = context.composition.segments@.last().selected_index as int;
        let page = effective_page_size(options);
        &&& selected + 2 <= usize::MAX
        &&& selected + page <= usize::MAX
        &&& (selected + page) / page * page + page <= usize::MAX
    })
}

/// Outcome of a selector action: whether the key is consumed, and the index the menu
/// highlight is moved to (`None`: nothing changes).
pub open spec fn spec_selector_action(action: SelectorAction, context: Context, options: HostOptions) -> (bool, Option<int>)
    decreases (if action is End { 1int } else { 0int }),
{
    let page = effective_page_size(options);
    let linear = option_on(context, "_linear"@) || option_on(context, "_horizontal"@);
    let caret_at_end = context.caret >= context.input@.len();
    let segments = context.composition.segments@;
    let has_segment = segments.len() > 0;
    let last = segments.last();
    let selected = last.selected_index as int;
    let count = last.candidates@.len() as int;
    match action {
        SelectorAction::PreviousCandidate => if (linear && !caret_at_end) || !has_segment {
            (false, None)
        } else if selected == 0 {
            (!linear, None)
        } else {
            (true, Some(selected - 1))
        },
        SelectorAction::NextCandidate => if linear && !caret_at_end {
            (false, None)
        } else if !has_segment || !last.translated {
            (false, None)
        } else {
            let index = selected + 1;
            let available = if count < index + 1 { count } else { index + 1 };
            if available <= index { (true, None) } else { (true, Some(index)) }
        },
        SelectorAction::PreviousPage => if !has_segment || !last.translated {
            (false, None)
        } else {
            (true, Some(if selected < page { 0 } else { selected - page }))
        },
        SelectorAction::NextPage => if !has_segment || !last.translated {
            (false, None)
        } else {
            let index = selected + page;
            let page_start = index / page * page;
            let available = if count < page_start + page { count } else { page_start + page };
            if available <= page_start {
                (true, if options.page_cycle { Some(0) } else { None })
            } else {
                (true, Some(if index >= available { available - 1 } else { index }))
            }
        },
        SelectorAction::Home => if !has_segment {
            (false, None)
        } else if selected > 0 {
            (true, Some(0))
        } else {
            (false, None)
        },
        SelectorAction::End => if context.caret < context.input@.len() {
            (false, None)
        } else {
            spec_selector_action(SelectorAction::Home, context, options)
        },
    }
}

/// `post` is `pre` after a selector outcome: the highlight move, or nothing.
pub open spec fn after_highlight(pre: Context, post: Context, target: Option<int>) -> bool {
    match target {
        Some(index) => highlighted(pre, post, index, true) || highlighted(pre, post, index, false),
        None => post == pre,
    }
}

fn selector_action(action: SelectorAction, context: &mut Context, options: &HostOptions) -> (result: HostResult)
    requires
        menu_arithmetic_fits(*old(context), *options),
    ensures
        (result == HostResult::Consumed) == spec_selector_action(action, *old(context), *options).0,
        after_highlight(*old(context), *final(context), spec_selector_action(action, *old(context), *options).1),
    decreases (if action is End { 1int } else { 0int }),
{
    proof {
        reveal_strlit("_linear");
        reveal_strlit("_horizontal");
    }
    let page_size = if options.page_size >= 1 { options.page_size } else { 1 };
    let linear = context.get_option("_linear") || context.get_option("_horizontal");
    let caret_at_end = context.caret() >= context.input().len();
    let count = context.composition.segments.len();
    let consumed = match action {
        SelectorAction::PreviousCandidate => {
            if (linear && !caret_at_end) || count == 0 {
                false
            } else {
                let index = context.composition.segments[count - 1].selected_index;
                if index == 0 {
                    !linear
                } else {
                    context.highlight(index - 1);
                    true
                }
            }
        },
        SelectorAction::NextCandidate => {
            if linear && !caret_at_end {
                false
            } else if count == 0 || !context.composition.segments[count - 1].translated {
                return HostResult::Forward;
            } else {
                let index = context.composition.segments[count - 1].selected_index + 1;
                let available = context.composition.segments[count - 1].prepare(index + 1);
                if available <= index {
                    true
                } else {
                    context.highlight(index);
                    true
                }
            }
        },
        SelectorAction::PreviousPage => {
            if count == 0 || !context.composition.segments[count - 1].translated {
                return HostResult::Forward;
            }
            let selected = context.composition.segments[count - 1].selected_index;
            let index = if selected < page_size { 0 } else { selected - page_size };
            context.highlight(index);
            true
        },
        SelectorAction::NextPage => {
            if count == 0 || !context.composition.segments[count - 1].translated {
                return HostResult::Forward;
            }
            let index = context.composition.segments[count - 1].selected_index + page_size;
            proof {
                assert(index / page_size * page_size <= index) by (nonlinear_arith)
                    requires
                        page_size >= 1,
                ;
            }
            let page_start = (index / page_size) * page_size;
            let available = context.composition.segments[count - 1].prepare(page_start + page_size);
            if available <= page_start {
                if options.page_cycle {
                    context.highlight(0);
                }
                true
            } else {
                let target = if index >= available { available - 1 } else { index };
                context.highlight(target);
                true
            }
        },
        SelectorAction::Home => {
            if count == 0 {
                false
            } else if context.composition.segments[count - 1].selected_index > 0 {
                context.highlight(0);
                true
            } else {
                false
            }
        },
        SelectorAction::End => {
            if context.caret() < context.input().len() {
                false
            } else {
                selector_action(SelectorAction::Home, context, options) == HostResult::Consumed
            }
        },
    };
    if consumed {
        HostResult::Consumed
    } else {
        HostResult::Forward
    }
}

/// The selector action a key triggers here: no Alt/Super and no modifier at all, a
/// bound key, and a translated last segment that is not a raw segment.
pub open spec fn spec_selector_dispatch(context: Context, key: KeyEvent) -> Option<SelectorAction> {
    let segments = context.composition.segments@;
    if key.modifier & K_ALT_MASK != 0 || key.modifier & K_SUPER_MASK != 0 || key.modifier != 0 {
        None
    } else if segments.len() == 0 || !segments.last().translated || spec_has_tag(segments.last(), "raw"@) {
        None
    } else {
        spec_selector_from_key(key, option_on(context, "_vertical"@))
    }
}

fn selector(key_event: &KeyEvent, context: &mut Context, options: &HostOptions) -> (result: HostResult)
    requires
        menu_arithmetic_fits(*old(context), *options),
    ensures
        match spec_selector_dispatch(*old(context), *key_event) {
            None => result == HostResult::Forward && *final(context) == *old(context),
            Some(action) => (result == HostResult::Consumed) == spec_selector_action(action, *old(context), *options).0
                && after_highlight(*old(context), *final(context), spec_selector_action(action, *old(context), *options).1),
        },
{
    proof {
        reveal_strlit("_vertical");
        reveal_strlit("raw");
    }
    if key_event.alt() || key_event.super_modifier() {
        return HostResult::Forward;
    }
    if key_event.modifier != 0 {
        return HostResult::Forward;
    }
    let count = context.composition.segments.len();
    if count == 0 {
        return HostResult::Forward;
    }
    if !context.composition.segments[count - 1].translated || context.composition.segments[count - 1].has_tag("raw") {
        return HostResult::Forward;
    }
    let vertical = context.get_option("_vertical");
    match SelectorAction::from_key(key_event, vertical) {
        None => HostResult::Forward,
        Some(action) => selector_action(action, context, options),
    }
}

// ---------------------------------------------------------------- key_binder

/// The selector action key bindings trigger: page keys (per [`paging_action`]), then
/// `Tab` / `Shift+Tab` while the menu is available.
pub open spec fn spec_binding(context: Context, options: HostOptions, key: KeyEvent) -> Option<SelectorAction> {
    match spec_paging_action(context, options, key) {
        Some(PagingDir::Up) => Some(SelectorAction::PreviousPage),
        Some(PagingDir::Down) => Some(SelectorAction::NextPage),
        None => if !spec_menu_available(context) {
            None
        } else if key.keycode == 0xff09 && key.modifier == 0 {
            Some(SelectorAction::NextCandidate)
        } else if key.keycode == 0xff09 && key.modifier == K_SHIFT_MASK {
            Some(SelectorAction::PreviousCandidate)
        } else {
            None
        },
    }
}

fn key_binder(key_event: &KeyEvent, context: &mut Context, options: &HostOptions) -> (result: HostResult)
    requires
        menu_arithmetic_fits(*old(context), *options),
    ensures
        match spec_binding(*old(context), *options, *key_event) {
            None => result == HostResult::Forward && *final(context) == *old(context),
            Some(action) => (result == HostResult::Consumed) == spec_selector_action(action, *old(context), *options).0
                && after_highlight(*old(context), *final(context), spec_selector_action(action, *old(context), *options).1),
        },
{
    match paging_action(context, options, key_event) {
        Some(PagingDir::Up) => {
            return selector_action(SelectorAction::PreviousPage, context, options);
        },
        Some(PagingDir::Down) => {
            return selector_action(SelectorAction::NextPage, context, options);
        },
        None => {},
    }
    if !menu_available(context) {
        return HostResult::Forward;
    }
    if key_event.keycode == 0xff09 && key_event.modifier == 0 {
        return selector_action(SelectorAction::NextCandidate, context, options);
    }
    if key_event.keycode == 0xff09 && key_event.modifier == K_SHIFT_MASK {
        return selector_action(SelectorAction::PreviousCandidate, context, options);
    }
    HostResult::Forward
}

// ---------------------------------------------------------------- navigator

/// Caret actions (librime `Navigator`).
#[derive(Clone, Copy, Debug, PartialEq, Eq)]
pub enum NavigatorAction {
    Rewind,
    Forward,
    LeftByChar,
    RightByChar,
    LeftBySyllable,
    RightBySyllable,
    Home,
    End,
}

/// Navigator key map: exact modifiers (none, or Ctrl); the vertical layout turns the
/// arrow keys by a quarter.
pub open spec fn spec_navigator_from_key(key: KeyEvent, vertical: bool) -> Option<NavigatorAction> {
    let code = key.keycode;
    let m = key.modifier;
    if (code == 0xff51 && m == 0 && !vertical) || (code == 0xff53 && m == 0 && vertical) {
        Some(NavigatorAction::Rewind)
    } else if (code == 0xff53 && m == 0 && !vertical) || (code == 0xff51 && m == 0 && vertical) {
        Some(NavigatorAction::Forward)
    } else if (code == 0xff51 && m == K_CONTROL_MASK && !vertical) || (code == 0xff53 && m == K_CONTROL_MASK && vertical) {
        Some(NavigatorAction::LeftBySyllable)
    } else if (code == 0xff53 && m == K_CONTROL_MASK && !vertical) || (code == 0xff51 && m == K_CONTROL_MASK && vertical) {
        Some(NavigatorAction::RightBySyllable)
    } else if code == 0xff96 && m == 0 && !vertical {
        Some(NavigatorAction::LeftByChar)
    } else if code == 0xff98 && m == 0 && !vertical {
        Some(NavigatorAction::RightByChar)
    } else if (code == 0xff50 || code == 0xff95) && m == 0 {
        Some(NavigatorAction::Home)
    } else if (code == 0xff57 || code == 0xff9c) && m == 0 {
        Some(NavigatorAction::End)
    } else if code == 0xff52 && m == 0 && vertical {
        Some(NavigatorAction::Rewind)
    } else if code == 0xff54 && m == 0 && vertical {
        Some(NavigatorAction::Forward)
    } else if code == 0xff52 && m == K_CONTROL_MASK && vertical {
        Some(NavigatorAction::LeftBySyllable)
    } else if code == 0xff54 && m == K_CONTROL_MASK && vertical {
        Some(NavigatorAction::RightBySyllable)
    } else if code == 0xff97 && m == 0 && vertical {
        Some(NavigatorAction::LeftByChar)
    } else if code == 0xff99 && m == 0 && vertical {
        Some(NavigatorAction::RightByChar)
    } else {
        None
    }
}

impl NavigatorAction {
    /// The navigator action bound to a key.
    pub fn from_key(key_event: &KeyEvent, vertical: bool) -> (action: Option<Self>)
        ensures
            action == spec_navigator_from_key(*key_event, vertical),
    {
        let code = key_event.keycode;
        let m = key_event.modifier;
        if (code == 0xff51 && m == 0 && !vertical) || (code == 0xff53 && m == 0 && vertical) {
            Some(NavigatorAction::Rewind)
        } else if (code == 0xff53 && m == 0 && !vertical) || (code == 0xff51 && m == 0 && vertical) {
            Some(NavigatorAction::Forward)
        } else if (code == 0xff51 && m == K_CONTROL_MASK && !vertical) || (code == 0xff53 && m == K_CONTROL_MASK
            && vertical) {
            Some(NavigatorAction::LeftBySyllable)
        } else if (code == 0xff53 && m == K_CONTROL_MASK && !vertical) || (code == 0xff51 && m == K_CONTROL_MASK
            && vertical) {
            Some(NavigatorAction::RightBySyllable)
        } else if code == 0xff96 && m == 0 && !vertical {
            Some(NavigatorAction::LeftByChar)
        } else if code == 0xff98 && m == 0 && !vertical {
            Some(NavigatorAction::RightByChar)
        } else if (code == 0xff50 || code == 0xff95) && m == 0 {
            Some(NavigatorAction::Home)
        } else if (code == 0xff57 || code == 0xff9c) && m == 0 {
            Some(NavigatorAction::End)
        } else if code == 0xff52 && m == 0 && vertical {
            Some(NavigatorAction::Rewind)
        } else if code == 0xff54 && m == 0 && vertical {
            Some(NavigatorAction::Forward)
        } else if code == 0xff52 && m == K_CONTROL_MASK && vertical {
            Some(NavigatorAction::LeftBySyllable)
        } else if code == 0xff54 && m == K_CONTROL_MASK && vertical {
            Some(NavigatorAction::RightBySyllable)
        } else if code == 0xff97 && m == 0 && vertical {
            Some(NavigatorAction::LeftByChar)
        } else if code == 0xff99 && m == 0 && vertical {
            Some(NavigatorAction::RightByChar)
        } else {
            None
        }
    }
}

/// Start of the run of unconfirmed segments at the end of `segments` (`default` when the
/// last segment is confirmed or there is none).
pub open spec fn unconfirmed_tail_start(segments: Seq<Segment>, default: usize) -> usize
    decreases segments.len(),
{
    if segments.len() == 0 || segments.last().selected {
        default
    } else {
        unconfirmed_tail_start(segments.drop_last(), segments.last().start)
    }
}

/// Where librime `Navigator::GoHome` puts the caret: the start of the unconfirmed tail
/// when that lies before the caret, else the start of the input.
pub open spec fn home_caret(context: Context) -> usize {
    let start = unconfirmed_tail_start(context.composition.segments@, context.caret);
    if context.composition.segments@.len() > 0 && start < context.caret {
        start
    } else {
        0
    }
}

/// The caret a navigator action leaves (single-segment semantics: syllable jumps go to
/// the ends of the input).
pub open spec fn spec_navigator_caret(action: NavigatorAction, context: Context) -> usize {
    let caret = context.caret;
    let end = context.input@.len() as usize;
    match action {
        NavigatorAction::Rewind => if caret > 0 { (caret - 1) as usize } else { caret },
        NavigatorAction::Forward => if caret < end { (caret + 1) as usize } else { caret },
        NavigatorAction::LeftByChar => if caret > 0 { (caret - 1) as usize } else { end },
        NavigatorAction::RightByChar => if caret < end { (caret + 1) as usize } else { home_caret(context) },
        NavigatorAction::LeftBySyllable => 0,
        NavigatorAction::RightBySyllable => end,
        NavigatorAction::Home => home_caret(context),
        NavigatorAction::End => end,
    }
}

fn unconfirmed_start(segments: &Vec<Segment>, caret: usize) -> (start: usize)
    ensures
        start == unconfirmed_tail_start(segments@, caret),
{
    let mut start = caret;
    let mut i = segments.len();
    assert(segments@.take(i as int) =~= segments@);
    while i > 0
        invariant
            i <= segments@.len(),
            unconfirmed_tail_start(segments@, caret) == unconfirmed_tail_start(segments@.take(i as int), start),
        decreases i,
    {
        proof {
            assert(segments@.take(i as int).drop_last() =~= segments@.take(i - 1));
            assert(segments@.take(i as int).last() == segments@[i - 1]);
        }
        if segments[i - 1].selected {
            return start;
        }
        start = segments[i - 1].start;
        i = i - 1;
    }
    proof {
        assert(segments@.take(0) =~= Seq::<Segment>::empty());
    }
    start
}

fn go_home(context: &mut Context)
    requires
        old(context).wf(),
    ensures
        caret_set(*old(context), *final(context), home_caret(*old(context))),
        final(context).wf(),
{
    let caret = context.caret();
    if context.composition.segments.len() > 0 {
        let start = unconfirmed_start(&context.composition.segments, caret);
        if start < caret {
            context.set_caret(start);
            return;
        }
    }
    context.set_caret(0);
}

/// librime `Navigator::MoveLeft`: one byte left, unless the caret is at the start.
fn move_left(context: &mut Context) -> (moved: bool)
    requires
        old(context).wf(),
    ensures
        moved == (old(context).caret > 0),
        caret_set(
            *old(context),
            *final(context),
            if moved { (old(context).caret - 1) as usize } else { old(context).caret },
        ),
        final(context).wf(),
{
    let caret = context.caret();
    if caret == 0 {
        return false;
    }
    context.set_caret(caret - 1);
    true
}

/// librime `Navigator::MoveRight`: one byte right, unless the caret is at the end.
fn move_right(context: &mut Context) -> (moved: bool)
    requires
        old(context).wf(),
    ensures
        moved == (old(context).caret < old(context).input@.len()),
        caret_set(
            *old(context),
            *final(context),
            if moved { (old(context).caret + 1) as usize } else { old(context).caret },
        ),
        final(context).wf(),
{
    let caret = context.caret();
    if caret >= context.input().len() {
        return false;
    }
    context.set_caret(caret + 1);
    true
}

/// librime `Navigator::GoToEnd`: the caret goes to the end of the input.
fn go_to_end(context: &mut Context)
    requires
        old(context).wf(),
    ensures
        caret_set(*old(context), *final(context), old(context).input@.len() as usize),
        final(context).wf(),
{
    let end = context.input().len();
    if context.caret() != end {
        context.set_caret(end);
    }
}

fn navigator_action(action: NavigatorAction, context: &mut Context) -> (result: HostResult)
    requires
        old(context).wf(),
    ensures
        result == HostResult::Consumed,
        caret_set(*old(context), *final(context), spec_navigator_caret(action, *old(context))),
        final(context).wf(),
{
    assert(old(context).input.len() == old(context).input@.len());
    match action {
        NavigatorAction::Rewind => {
            move_left(context);
        },
        NavigatorAction::Forward => {
            move_right(context);
        },
        NavigatorAction::LeftByChar => {
            if !move_left(context) {
                go_to_end(context);
            }
        },
        NavigatorAction::RightByChar => {
            if !move_right(context) {
                go_home(context);
            }
        },
        NavigatorAction::LeftBySyllable => {
            context.set_caret(0);
        },
        NavigatorAction::RightBySyllable | NavigatorAction::End => {
            go_to_end(context);
        },
        NavigatorAction::Home => {
            go_home(context);
        },
    }
    HostResult::Consumed
}

/// The navigator action a key triggers while composing: the key map, else (no Ctrl/Alt,
/// Shift held) Shift read as Ctrl, then Shift ignored.
pub open spec fn spec_navigator_dispatch(context: Context, key: KeyEvent) -> Option<NavigatorAction> {
    let vertical = option_on(context, "_vertical"@);
    let as_control = KeyEvent { keycode: key.keycode, modifier: (key.modifier & !K_SHIFT_MASK) | K_CONTROL_MASK };
    let plain = KeyEvent { keycode: key.keycode, modifier: key.modifier & !K_SHIFT_MASK };
    if !(context.input@.len() > 0 || context.composition.segments@.len() > 0) {
        None
    } else if spec_navigator_from_key(key, vertical) is Some {
        spec_navigator_from_key(key, vertical)
    } else if key.modifier & K_CONTROL_MASK != 0 || key.modifier & K_ALT_MASK != 0 {
        None
    } else if key.modifier & K_SHIFT_MASK == 0 {
        None
    } else if spec_navigator_from_key(as_control, vertical) is Some {
        spec_navigator_from_key(as_control, vertical)
    } else {
        spec_navigator_from_key(plain, vertical)
    }
}

fn navigator(key_event: &KeyEvent, context: &mut Context) -> (result: HostResult)
    requires
        old(context).wf(),
    ensures
        final(context).wf(),
        match spec_navigator_dispatch(*old(context), *key_event) {
            None => result == HostResult::Forward && *final(context) == *old(context),
            Some(action) => result == HostResult::Consumed
                && caret_set(*old(context), *final(context), spec_navigator_caret(action, *old(context))),
        },
{
    proof {
        reveal_strlit("_vertical");
    }
    if !context.is_composing() {
        return HostResult::Forward;
    }
    let vertical = context.get_option("_vertical");
    if let Some(action) = NavigatorAction::from_key(key_event, vertical) {
        return navigator_action(action, context);
    }
    if key_event.ctrl() || key_event.alt() {
        return HostResult::Forward;
    }
    if key_event.shift() {
        let as_control = KeyEvent::new(key_event.keycode, (key_event.modifier & !K_SHIFT_MASK) | K_CONTROL_MASK);
        if let Some(action) = NavigatorAction::from_key(&as_control, vertical) {
            return navigator_action(action, context);
        }
        let plain = KeyEvent::new(key_event.keycode, key_event.modifier & !K_SHIFT_MASK);
        if let Some(action) = NavigatorAction::from_key(&plain, vertical) {
            return navigator_action(action, context);
        }
    }
    HostResult::Forward
}

// ---------------------------------------------------------------- punctuator

/// The punctuation text a key commits here, if the punctuator takes it: a table is given,
/// no Ctrl/Alt/Super, a printable ASCII key, `ascii_punct` off, not a space while
/// composing, and the key defined in the shape in force.
pub open spec fn spec_punct_key(table: Option<PunctTable>, context: Context, key: KeyEvent) -> bool {
    let code = key.keycode;
    &&& table is Some
    &&& key.modifier & K_CONTROL_MASK == 0
    &&& key.modifier & K_ALT_MASK == 0
    &&& key.modifier & K_SUPER_MASK == 0
    &&& 0x20 <= code < 0x7f
    &&& !option_on(context, "ascii_punct"@)
    &&& !(code == 0x20 && (context.input@.len() > 0 || context.composition.segments@.len() > 0))
    &&& table->0.shape(option_on(context, "full_shape"@)).contains_key(code as char)
}

/// The text of the punctuation that `key` resolves to in the state before the key.
pub open spec fn spec_punct_text(table: PunctTable, context: Context, key: KeyEvent) -> Seq<char> {
    let full = option_on(context, "full_shape"@);
    let ch = key.keycode as char;
    definition_text(table.shape(full)[ch], context.punct_pairs.oddness(ch, full))
}

/// `post` pairs are `pre` pairs after resolving `ch` in `table`: a pair definition flips
/// the alternation of its key and shape, and nothing else changes.
pub open spec fn pairs_after(table: PunctTable, ch: char, full: bool, pre: PairState, post: PairState) -> bool {
    if table.shape(full).contains_key(ch) && table.shape(full)[ch] is Pair {
        &&& post.oddness(ch, full) == !pre.oddness(ch, full)
        &&& forall|other: char, shape: bool|
            !(other == ch && shape == full) ==> post.oddness(other, shape) == pre.oddness(other, shape)
    } else {
        post == pre
    }
}

/// `text` is what the lossy decoding of `bytes` gives: the text the bytes encode when they
/// are well-formed UTF-8.
pub open spec fn decodes_to(bytes: Seq<u8>, text: Seq<char>) -> bool {
    &&& text == lossy_text(bytes)
    &&& valid_utf8(bytes) ==> encode_utf8(text) == bytes
}

/// `post` is `pre` after the punctuator commits the key: the prefix of the composition
/// before the caret (as `commit_text` gives it) followed by the punctuation is committed
/// directly, and input and composition are cleared.
pub open spec fn punct_committed(table: PunctTable, pre: Context, post: Context, key: KeyEvent) -> bool {
    let full = option_on(pre, "full_shape"@);
    let head = commit_bytes(pre.composition.segments@, pre.input@.take(pre.caret as int));
    let n = pre.events@.len() as int;
    &&& post.wf()
    &&& post.input@.len() == 0
    &&& post.caret == 0
    &&& post.composition.segments@.len() == 0
    &&& post.last_commit@ == lossy_text(head) + spec_punct_text(table, pre, key)
    &&& post.events@.len() == n + 3
    &&& post.events@.take(n) == pre.events@
    &&& post.events@[n] == Event::Update
    &&& post.events@[n + 1] == Event::Update
    &&& (post.events@[n + 2] matches Event::Commit(t) && t@ == post.last_commit@)
    &&& post.options@ == pre.options@
    &&& post.properties@ == pre.properties@
    &&& post.buffered == pre.buffered
    &&& pairs_after(table, key.keycode as char, full, pre.punct_pairs, post.punct_pairs)
}

fn punctuator<O: CommitObserver>(
    key_event: &KeyEvent,
    context: &mut Context,
    punct: Option<&PunctTable>,
    observer: &mut O,
) -> (result: HostResult)
    requires
        old(context).wf(),
    ensures
        final(context).wf(),
        match punct {
            None => result == HostResult::Forward && *final(context) == *old(context),
            Some(table) => if spec_punct_key(Some(*table), *old(context), *key_event) {
                result == HostResult::Consumed && punct_committed(*table, *old(context), *final(context), *key_event)
            } else {
                result == HostResult::Forward && *final(context) == *old(context)
            },
        },
        result == HostResult::Consumed ==> final(observer).commits() == old(observer).commits().push(
            final(context).last_commit@,
        ),
        result == HostResult::Forward ==> final(observer).commits() == old(observer).commits(),
{
    proof {
        reveal_strlit("ascii_punct");
        reveal_strlit("full_shape");
    }
    let table = match punct {
        None => {
            return HostResult::Forward;
        },
        Some(table) => table,
    };
    if key_event.ctrl() || key_event.alt() || key_event.super_modifier() {
        return HostResult::Forward;
    }
    let keycode = key_event.keycode;
    if keycode < 0x20 || keycode >= 0x7f {
        return HostResult::Forward;
    }
    if context.get_option("ascii_punct") {
        return HostResult::Forward;
    }
    if keycode == 0x20 && context.is_composing() {
        return HostResult::Forward;
    }
    let full_shape = context.get_option("full_shape");
    let byte = keycode as u8;
    let ch = byte as char;
    assert(ch == keycode as char);
    let ghost pre = *context;
    let text = match table.resolve_with(ch, full_shape, context.punct_pairs()) {
        None => {
            return HostResult::Forward;
        },
        Some(text) => text,
    };
    let caret = context.caret();
    let (prefix, _) = context.input().split_at(caret);
    assert(prefix@ == pre.input@.take(pre.caret as int));
    let mut commit = context.composition.commit_text(prefix);
    let ghost head = commit@;
    let mut pushed: Vec<u8> = Vec::new();
    pushed.push(byte);
    context.push_input(pushed.as_slice());
    push_str(&mut commit, text.as_str());
    observer.on_commit(context, commit.as_str());
    let ghost pushed_events = context.events@;
    context.clear();
    let ghost cleared_events = context.events@;
    context.direct_commit(commit.as_str());
    proof {
        let n = pre.events@.len() as int;
        assert(pushed_events == pre.events@.push(Event::Update));
        assert(cleared_events == pushed_events.push(Event::Update));
        assert(context.events@.drop_last() == cleared_events);
        assert(context.events@[n] == cleared_events[n]);
        assert(context.events@[n + 1] == cleared_events[n + 1]);
        assert(context.events@.take(n) =~= pre.events@);
        assert(context.last_commit@ == head + spec_punct_text(*table, pre, *key_event));
        assert(decodes_to(commit_bytes(pre.composition.segments@, pre.input@.take(pre.caret as int)), head));
    }
    HostResult::Consumed
}

// ---------------------------------------------------------------- express_editor

/// `after` is `before` after librime `Segment::Reopen(caret)`: it is no longer confirmed,
/// and unless it ends at the caret it also loses its menu.
pub open spec fn reopened_segment(before: Segment, after: Segment, caret: usize) -> bool {
    &&& after.start == before.start
    &&& after.end == before.end
    &&& after.tags == before.tags
    &&& after.prompt == before.prompt
    &&& !after.selected
    &&& if before.end == caret {
        &&& after.candidates == before.candidates
        &&& after.selected_index == before.selected_index
        &&& after.translated == before.translated
    } else {
        &&& after.candidates@.len() == 0
        &&& after.selected_index == 0
        &&& !after.translated
    }
}

/// librime `Segment::Reopen`: clears the confirmation; a segment that does not end at
/// the caret also drops its menu.
pub fn reopen_segment(segment: &mut Segment, caret: usize)
    ensures
        reopened_segment(*old(segment), *final(segment), caret),
{
    segment.selected = false;
    if segment.end != caret {
        segment.translated = false;
        segment.candidates.clear();
        segment.selected_index = 0;
    }
}

/// Index of the last confirmed segment (-1 when none is).
pub open spec fn last_selected(segments: Seq<Segment>) -> int
    decreases segments.len(),
{
    if segments.len() == 0 {
        -1
    } else if segments.last().selected {
        segments.len() - 1
    } else {
        last_selected(segments.drop_last())
    }
}

/// Everything but the composition is as in `pre`.
pub open spec fn only_composition_changed(pre: Context, post: Context) -> bool {
    &&& post.input == pre.input
    &&& post.caret == pre.caret
    &&& post.events == pre.events
    &&& post.same_state(&pre)
}

/// `post` is `pre` after librime `Context::ReopenPreviousSelection`, which succeeded
/// (`found`) when a confirmed segment exists: segments after the last confirmed one are
/// dropped and that one is reopened at the caret.
pub open spec fn selection_reopened(pre: Context, post: Context, found: bool) -> bool {
    let segments = pre.composition.segments@;
    let k = last_selected(segments);
    &&& only_composition_changed(pre, post)
    &&& found == (k >= 0)
    &&& !found ==> post.composition == pre.composition
    &&& found ==> ({
        &&& post.composition.segments@.len() == k + 1
        &&& post.composition.segments@.take(k) == segments.take(k)
        &&& reopened_segment(segments[k], post.composition.segments@[k], pre.caret)
    })
}

fn reopen_previous_selection(context: &mut Context) -> (found: bool)
    ensures
        selection_reopened(*old(context), *final(context), found),
{
    let ghost segments = context.composition.segments@;
    let mut index = context.composition.segments.len();
    assert(segments.take(index as int) =~= segments);
    while index > 0
        invariant
            index <= segments.len(),
            *context == *old(context),
            segments == old(context).composition.segments@,
            last_selected(segments) == last_selected(segments.take(index as int)),
        decreases index,
    {
        proof {
            assert(segments.take(index as int).drop_last() =~= segments.take(index - 1));
            assert(segments.take(index as int).last() == segments[index - 1]);
        }
        index = index - 1;
        if context.composition.segments[index].selected {
            let caret = context.caret();
            context.composition.segments.truncate(index + 1);
            let mut segment = context.composition.segments.pop().unwrap();
            reopen_segment(&mut segment, caret);
            context.composition.segments.push(segment);
            proof {
                assert(context.composition.segments@.take(index as int) =~= segments.take(index as int));
            }
            return true;
        }
    }
    proof {
        assert(segments.take(0) =~= Seq::<Segment>::empty());
    }
    false
}

/// `post` is `pre` after librime `Context::ReopenPreviousSegment`: when the last segment
/// is empty it is dropped (`trimmed`), and a confirmed segment then last is reopened.
pub open spec fn segment_reopened(pre: Context, post: Context, trimmed: bool) -> bool {
    let segments = pre.composition.segments@;
    let rest = segments.drop_last();
    &&& only_composition_changed(pre, post)
    &&& trimmed == (segments.len() > 0 && segments.last().start == segments.last().end)
    &&& !trimmed ==> post.composition.segments@ == pre.composition.segments@
    &&& trimmed ==> if rest.len() > 0 && rest.last().selected {
        &&& post.composition.segments@.len() == rest.len()
        &&& post.composition.segments@.drop_last() == rest.drop_last()
        &&& reopened_segment(rest.last(), post.composition.segments@.last(), pre.caret)
    } else {
        post.composition.segments@ == rest
    }
}

fn reopen_previous_segment(context: &mut Context) -> (trimmed: bool)
    ensures
        segment_reopened(*old(context), *final(context), trimmed),
{
    if !context.composition.trim() {
        return false;
    }
    let ghost rest = context.composition.segments@;
    let caret = context.caret();
    match context.composition.back_mut() {
        Some(segment) => {
            if segment.selected {
                reopen_segment(segment, caret);
            }
        },
        None => {},
    }
    proof {
        if rest.len() > 0 {
            assert(context.composition.segments@.drop_last() =~= rest.drop_last());
            if !rest.last().selected {
                assert(context.composition.segments@ =~= rest);
            }
        } else {
            assert(context.composition.segments@ =~= rest);
        }
    }
    true
}

/// `post` is `pre` after librime `Editor::RevertLastEdit`: reopen the last confirmed
/// segment, else delete the byte before the caret and reopen the previous segment.
pub open spec fn edit_reverted(pre: Context, post: Context) -> bool {
    if last_selected(pre.composition.segments@) >= 0 {
        selection_reopened(pre, post, true)
    } else if pre.caret >= 1 {
        exists|mid: Context, trimmed: bool|
            input_popped(pre, mid, 1, true) && #[trigger] segment_reopened(mid, post, trimmed)
    } else {
        input_popped(pre, post, 1, false)
    }
}

fn revert_last_edit(context: &mut Context)
    requires
        old(context).wf(),
    ensures
        edit_reverted(*old(context), *final(context)),
        final(context).wf(),
{
    if reopen_previous_selection(context) {
        return;
    }
    let ghost pre = *context;
    if context.pop_input(1) {
        let ghost mid = *context;
        let trimmed = reopen_previous_segment(context);
        assert(input_popped(pre, mid, 1, true) && segment_reopened(mid, *context, trimmed));
    }
}

/// `post` is `pre` after librime `Editor::CancelComposition`: the input is cut back to the
/// start of the last segment when that lies inside it, else everything is cleared.
pub open spec fn composition_cancelled(pre: Context, post: Context) -> bool {
    let segments = pre.composition.segments@;
    if segments.len() > 0 && (segments.last().start as int) < pre.input@.len() {
        input_set(pre, post, pre.input@.take(segments.last().start as int))
    } else {
        cleared(pre, post)
    }
}

fn cancel_composition(context: &mut Context)
    ensures
        composition_cancelled(*old(context), *final(context)),
        final(context).wf(),
{
    if !clear_previous_segment(context) {
        context.clear();
    }
}

/// librime `Context::ClearPreviousSegment`: cuts the input back to the start of the last
/// segment, when there is one and it starts inside the input.
fn clear_previous_segment(context: &mut Context) -> (cut: bool)
    ensures
        cut == (old(context).composition.segments@.len() > 0
            && (old(context).composition.segments@.last().start as int) < old(context).input@.len()),
        cut ==> input_set(
            *old(context),
            *final(context),
            old(context).input@.take(old(context).composition.segments@.last().start as int),
        ),
        cut ==> final(context).wf(),
        !cut ==> *final(context) == *old(context),
{
    let start = match context.composition.back() {
        Some(segment) => segment.start,
        None => {
            return false;
        },
    };
    if start >= context.input().len() {
        return false;
    }
    let (head, _) = context.input().split_at(start);
    let mut kept: Vec<u8> = Vec::new();
    kept.extend_from_slice(head);
    assert(kept@ =~= old(context).input@.take(start as int));
    context.set_input(kept.as_slice());
    true
}

/// The comment of the highlighted candidate of the last segment, when there is one and it
/// is not empty.
pub open spec fn highlighted_comment(context: Context) -> Option<Seq<char>> {
    let segments = context.composition.segments@;
    if segments.len() > 0 {
        match spec_selected_candidate(segments.last()) {
            Some(candidate) => if candidate.comment@.len() > 0 { Some(candidate.comment@) } else { None },
            None => None,
        }
    } else {
        None
    }
}

/// `post` is `pre` after `text` is committed past the composition and all is cleared.
pub open spec fn committed_and_cleared(pre: Context, post: Context, text: Seq<char>) -> bool {
    exists|mid: Context| #[trigger] directly_committed(pre, mid, text) && cleared(mid, post)
}

/// What the express editor does with a key while composing (`consumed`: it took the key;
/// `reported`: the commit texts it reported, in order). Space, Return and a printable key
/// report the commit of the composition they commit; Ctrl+Return and Ctrl+Shift+Return
/// commit past the composition and report nothing, and so do the other keys.
pub open spec fn editor_step(pre: Context, post: Context, key: KeyEvent, consumed: bool, reported: Seq<Seq<char>>) -> bool {
    let code = key.keycode;
    let m = key.modifier;
    if code == 0x20 && (m == 0 || m == K_SHIFT_MASK) {
        &&& consumed
        &&& (selection_confirmed(pre, post, true) && reported.len() == 0) || exists|mid: Context|
            #[trigger] selection_confirmed(pre, mid, false) && composition_committed(mid, post, true) && reported
                == seq![reported_commit(mid)]
    } else if code == 0xff08 && (m == 0 || m == K_SHIFT_MASK || m == K_CONTROL_MASK) {
        consumed && edit_reverted(pre, post) && reported.len() == 0
    } else if code == 0xff0d && m == 0 {
        &&& consumed
        &&& exists|mid: Context, reverted: bool, committed: bool|
            #![trigger refreshed(pre, mid, reverted), composition_committed(mid, post, committed)]
            refreshed(pre, mid, reverted) && composition_committed(mid, post, committed) && reported == seq![
                reported_commit(mid),
            ]
    } else if code == 0xff0d && m == K_CONTROL_MASK {
        &&& consumed
        &&& committed_and_cleared(pre, post, lossy_text(script_bytes(pre.composition.segments@, pre.input@)))
        &&& reported.len() == 0
    } else if code == 0xff0d && m == K_CONTROL_MASK | K_SHIFT_MASK {
        &&& consumed
        &&& match highlighted_comment(pre) {
            Some(comment) => committed_and_cleared(pre, post, comment),
            None => post == pre,
        }
        &&& reported.len() == 0
    } else if code == 0xffff && (m == 0 || m == K_SHIFT_MASK || m == K_CONTROL_MASK) {
        consumed && input_deleted(pre, post, 1, pre.caret + 1 <= pre.input@.len()) && reported.len() == 0
    } else if code == 0xff1b && m == 0 {
        consumed && composition_cancelled(pre, post) && reported.len() == 0
    } else if m & K_CONTROL_MASK == 0 && m & K_ALT_MASK == 0 && m & K_SUPER_MASK == 0 && 0x20 < code < 0x7f {
        !consumed && composition_committed(pre, post, true) && reported == seq![reported_commit(pre)]
    } else {
        !consumed && post == pre && reported.len() == 0
    }
}

fn editor<O: CommitObserver>(key_event: &KeyEvent, context: &mut Context, observer: &mut O) -> (result: HostResult)
    requires
        old(context).wf(),
    ensures
        final(context).wf(),
        old(observer).commits().is_prefix_of(final(observer).commits()),
        if old(context).input@.len() > 0 || old(context).composition.segments@.len() > 0 {
            editor_step(
                *old(context),
                *final(context),
                *key_event,
                result == HostResult::Consumed,
                final(observer).commits().skip(old(observer).commits().len() as int),
            )
        } else {
            &&& result == HostResult::Forward
            &&& *final(context) == *old(context)
            &&& final(observer).commits() == old(observer).commits()
        },
{
    let ghost before = observer.commits();
    assert(before.skip(before.len() as int) =~= Seq::<Seq<char>>::empty());
    if !context.is_composing() {
        return HostResult::Forward;
    }
    let ghost pre = *context;
    let code = key_event.keycode;
    let m = key_event.modifier;
    if code == 0x20 && (m == 0 || m == K_SHIFT_MASK) {
        if !context.confirm_current_selection() {
            let ghost mid = *context;
            let text = context.get_commit_text();
            observer.on_commit(context, text.as_str());
            assert(observer.commits().skip(before.len() as int) =~= seq![reported_commit(mid)]);
            context.commit();
            assert(selection_confirmed(pre, mid, false) && composition_committed(mid, *context, true));
        }
        return HostResult::Consumed;
    }
    if code == 0xff08 && (m == 0 || m == K_SHIFT_MASK || m == K_CONTROL_MASK) {
        revert_last_edit(context);
        return HostResult::Consumed;
    }
    if code == 0xff0d && m == 0 {
        let reverted = context.refresh_non_confirmed_composition();
        let ghost mid = *context;
        let text = context.get_commit_text();
        observer.on_commit(context, text.as_str());
        assert(observer.commits().skip(before.len() as int) =~= seq![reported_commit(mid)]);
        let committed = context.commit();
        assert(refreshed(pre, mid, reverted) && composition_committed(mid, *context, committed));
        return HostResult::Consumed;
    }
    if code == 0xff0d && m == K_CONTROL_MASK {
        let text = context.get_script_text();
        context.direct_commit(text.as_str());
        let ghost mid = *context;
        context.clear();
        assert(directly_committed(pre, mid, text@) && cleared(mid, *context));
        assert(decodes_to(script_bytes(pre.composition.segments@, pre.input@), text@));
        return HostResult::Consumed;
    }
    if code == 0xff0d && m == K_CONTROL_MASK | K_SHIFT_MASK {
        let count = context.composition.segments.len();
        if count > 0 {
            let comment = match context.composition.segments[count - 1].selected_candidate() {
                Some(candidate) => if !candidate.comment.as_str().is_empty() {
                    Some(candidate.comment.clone())
                } else {
                    None
                },
                None => None,
            };
            if let Some(comment) = comment {
                context.direct_commit(comment.as_str());
                let ghost mid = *context;
                context.clear();
                assert(directly_committed(pre, mid, comment@) && cleared(mid, *context));
            }
        }
        return HostResult::Consumed;
    }
    if code == 0xffff && (m == 0 || m == K_SHIFT_MASK || m == K_CONTROL_MASK) {
        context.delete_input(1);
        return HostResult::Consumed;
    }
    if code == 0xff1b && m == 0 {
        cancel_composition(context);
        return HostResult::Consumed;
    }
    if !key_event.ctrl() && !key_event.alt() && !key_event.super_modifier() && code > 0x20 && code < 0x7f {
        let text = context.get_commit_text();
        observer.on_commit(context, text.as_str());
        assert(observer.commits().skip(before.len() as int) =~= seq![reported_commit(pre)]);
        context.commit();
    }
    HostResult::Forward
}

// ---------------------------------------------------------------- the chain

/// A selector outcome that does not consume the key moves nothing.
pub proof fn lemma_selector_forward_keeps(action: SelectorAction, context: Context, options: HostOptions)
    ensures
        !spec_selector_action(action, context, options).0 ==> spec_selector_action(action, context, options).1 is None,
{
    reveal_with_fuel(spec_selector_action, 2);
}

/// The key binder consumes the key.
pub open spec fn binding_consumes(context: Context, options: HostOptions, key: KeyEvent) -> bool {
    match spec_binding(context, options, key) {
        Some(action) => spec_selector_action(action, context, options).0,
        None => false,
    }
}

/// The selector consumes the key.
pub open spec fn selector_consumes(context: Context, options: HostOptions, key: KeyEvent) -> bool {
    match spec_selector_dispatch(context, key) {
        Some(action) => spec_selector_action(action, context, options).0,
        None => false,
    }
}

/// The punctuator takes the key.
pub open spec fn punctuator_consumes(punct: Option<&PunctTable>, context: Context, key: KeyEvent) -> bool {
    match punct {
        Some(table) => spec_punct_key(Some(*table), context, key),
        None => false,
    }
}

/// What the host chain does with a key: releases pass; otherwise the key binder, the
/// punctuator, the selector, the navigator and the express editor are asked in turn, and
/// the first that consumes the key decides the outcome.
pub open spec fn host_step(
    pre: Context,
    post: Context,
    key: KeyEvent,
    punct: Option<&PunctTable>,
    options: HostOptions,
    result: HostResult,
    reported: Seq<Seq<char>>,
) -> bool {
    if key.modifier & K_RELEASE_MASK != 0 {
        result == HostResult::Forward && post == pre && reported.len() == 0
    } else if binding_consumes(pre, options, key) {
        &&& result == HostResult::Consumed
        &&& after_highlight(pre, post, spec_selector_action(spec_binding(pre, options, key)->0, pre, options).1)
        &&& reported.len() == 0
    } else if punctuator_consumes(punct, pre, key) {
        &&& result == HostResult::Consumed
        &&& punct_committed(*punct->0, pre, post, key)
        &&& reported == seq![post.last_commit@]
    } else if selector_consumes(pre, options, key) {
        &&& result == HostResult::Consumed
        &&& after_highlight(pre, post, spec_selector_action(spec_selector_dispatch(pre, key)->0, pre, options).1)
        &&& reported.len() == 0
    } else if spec_navigator_dispatch(pre, key) is Some {
        &&& result == HostResult::Consumed
        &&& caret_set(pre, post, spec_navigator_caret(spec_navigator_dispatch(pre, key)->0, pre))
        &&& reported.len() == 0
    } else if pre.input@.len() > 0 || pre.composition.segments@.len() > 0 {
        editor_step(pre, post, key, result == HostResult::Consumed, reported)
    } else {
        result == HostResult::Forward && post == pre && reported.len() == 0
    }
}

/// Handles a key the scheme's processor passed on: key binder, punctuator, selector,
/// navigator and express editor in turn (librime's processor chain); commits made by the
/// punctuator and the editor are reported to `observer`.
pub fn process_key<O: CommitObserver>(
    key_event: &KeyEvent,
    context: &mut Context,
    punct: Option<&PunctTable>,
    options: &HostOptions,
    observer: &mut O,
) -> (result: HostResult)
    requires
        old(context).wf(),
        menu_arithmetic_fits(*old(context), *options),
    ensures
        final(context).wf(),
        old(observer).commits().is_prefix_of(final(observer).commits()),
        host_step(
            *old(context),
            *final(context),
            *key_event,
            punct,
            *options,
            result,
            final(observer).commits().skip(old(observer).commits().len() as int),
        ),
{
    let ghost before = observer.commits();
    assert(before.skip(before.len() as int) =~= Seq::<Seq<char>>::empty());
    if key_event.release() {
        return HostResult::Forward;
    }
    let ghost pre = *context;
    proof {
        match spec_binding(pre, *options, *key_event) {
            Some(action) => lemma_selector_forward_keeps(action, pre, *options),
            None => {},
        }
        match spec_selector_dispatch(pre, *key_event) {
            Some(action) => lemma_selector_forward_keeps(action, pre, *options),
            None => {},
        }
    }
    let result = key_binder(key_event, context, options);
    if result == HostResult::Consumed {
        return result;
    }
    assert(*context == pre);
    let result = punctuator(key_event, context, punct, observer);
    if result == HostResult::Consumed {
        assert(observer.commits().skip(before.len() as int) =~= seq![context.last_commit@]);
        return result;
    }
    assert(*context == pre);
    let result = selector(key_event, context, options);
    if result == HostResult::Consumed {
        return result;
    }
    assert(*context == pre);
    let result = navigator(key_event, context);
    if result == HostResult::Consumed {
        return result;
    }
    assert(*context == pre);
    editor(key_event, context, observer)
}

/// Law: Ctrl+BackSpace and Ctrl+Delete edit as BackSpace and Delete do: for any contexts
/// before and after and any reports, the editor allows the same steps for the Ctrl variant
/// as for the plain key.
pub proof fn law_ctrl_edit_keys_match_plain(pre: Context, post: Context, consumed: bool, reported: Seq<Seq<char>>)
    ensures
        editor_step(pre, post, (KeyEvent { keycode: 0xff08, modifier: K_CONTROL_MASK }), consumed, reported)
            == editor_step(pre, post, (KeyEvent { keycode: 0xff08, modifier: 0 }), consumed, reported),
        editor_step(pre, post, (KeyEvent { keycode: 0xffff, modifier: K_CONTROL_MASK }), consumed, reported)
            == editor_step(pre, post, (KeyEvent { keycode: 0xffff, modifier: 0 }), consumed, reported),
{
}

/// Law: through the whole chain, Ctrl+BackSpace and Ctrl+Delete act as BackSpace and
/// Delete do (with the same commits reported), unless one of the two is bound as a page
/// key.
pub proof fn law_ctrl_edit_keys_act_as_plain(
    pre: Context,
    post: Context,
    punct: Option<&PunctTable>,
    options: HostOptions,
    result: HostResult,
    reported: Seq<Seq<char>>,
    keycode: i32,
)
    requires
        keycode == 0xff08 || keycode == 0xffff,
        !key_bound(options.page_up_keys@, (KeyEvent { keycode, modifier: K_CONTROL_MASK })),
        !key_bound(options.page_down_keys@, (KeyEvent { keycode, modifier: K_CONTROL_MASK })),
        !key_bound(options.page_up_keys@, (KeyEvent { keycode, modifier: 0 })),
        !key_bound(options.page_down_keys@, (KeyEvent { keycode, modifier: 0 })),
    ensures
        host_step(pre, post, (KeyEvent { keycode, modifier: K_CONTROL_MASK }), punct, options, result, reported)
            == host_step(pre, post, (KeyEvent { keycode, modifier: 0 }), punct, options, result, reported),
{
    let ctrl = KeyEvent { keycode, modifier: K_CONTROL_MASK };
    let plain = KeyEvent { keycode, modifier: 0 };
    assert(K_CONTROL_MASK & K_RELEASE_MASK == 0 && 0i32 & K_RELEASE_MASK == 0) by (bit_vector);
    assert(K_CONTROL_MASK & K_ALT_MASK == 0 && K_CONTROL_MASK & K_SUPER_MASK == 0) by (bit_vector);
    assert(spec_binding(pre, options, ctrl) is None);
    assert(spec_binding(pre, options, plain) is None);
    assert(!punctuator_consumes(punct, pre, ctrl));
    assert(!punctuator_consumes(punct, pre, plain));
    assert(spec_selector_dispatch(pre, ctrl) is None);
    assert(spec_selector_dispatch(pre, plain) is None);
    assert(spec_navigator_dispatch(pre, ctrl) is None);
    assert(spec_navigator_dispatch(pre, plain) is None);
    law_ctrl_edit_keys_match_plain(pre, post, result == HostResult::Consumed, reported);
    assert(binding_consumes(pre, options, ctrl) == binding_consumes(pre, options, plain));
    assert(selector_consumes(pre, options, ctrl) == selector_consumes(pre, options, plain));
    assert(editor_step(pre, post, ctrl, result == HostResult::Consumed, reported) == editor_step(
        pre,
        post,
        plain,
        result == HostResult::Consumed,
        reported,
    ));
}

} // verus!
