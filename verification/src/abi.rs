//! The platform boundary: fcitx5 key states, key lists and the options record the
//! platform shell hands over, and how they become engine settings.

use vstd::prelude::*;
use crate::key::{
    spec_repr, KeyEvent, K_ALT_MASK, K_CONTROL_MASK, K_LOCK_MASK, K_RELEASE_MASK, K_SHIFT_MASK, K_SUPER_MASK,
};
use crate::settings::{CandidateLayout, PreeditMode, Settings};

verus! {

/// Keys a key list can hold.
pub const HUX_MAX_KEYS: usize = 8;
/// Key result bit: the key was consumed.
pub const HUX_KEY_CONSUMED: i32 = 0x1;
/// Key result bit: a commit happened and the key was not consumed; the platform should
/// consume the key and send it again after the commit.
pub const HUX_KEY_FORWARD_AFTER_COMMIT: i32 = 0x2;

/// fcitx5 `KeyState` bits.
pub const FCITX_SHIFT: u32 = 1 << 0;
pub const FCITX_CAPS_LOCK: u32 = 1 << 1;
pub const FCITX_CTRL: u32 = 1 << 2;
pub const FCITX_ALT: u32 = 1 << 3;
pub const FCITX_SUPER: u32 = 1 << 6;

/// The rime modifier mask of fcitx5 key states (Shift, Caps Lock, Control, Alt, Super),
/// with the release bit for a key release.
pub open spec fn spec_core_modifiers(states: u32, release: bool) -> i32 {
    (if states & FCITX_SHIFT != 0 { K_SHIFT_MASK } else { 0 })
        | (if states & FCITX_CAPS_LOCK != 0 { K_LOCK_MASK } else { 0 })
        | (if states & FCITX_CTRL != 0 { K_CONTROL_MASK } else { 0 })
        | (if states & FCITX_ALT != 0 { K_ALT_MASK } else { 0 })
        | (if states & FCITX_SUPER != 0 { K_SUPER_MASK } else { 0 })
        | (if release { K_RELEASE_MASK } else { 0 })
}

/// fcitx5 key states → rime modifier mask.
pub fn core_modifiers(states: u32, release: bool) -> (modifiers: i32)
    ensures
        modifiers == spec_core_modifiers(states, release),
{
    let mut modifiers: i32 = 0;
    let shift = if states & FCITX_SHIFT != 0 { K_SHIFT_MASK } else { 0 };
    let caps = if states & FCITX_CAPS_LOCK != 0 { K_LOCK_MASK } else { 0 };
    let ctrl = if states & FCITX_CTRL != 0 { K_CONTROL_MASK } else { 0 };
    let alt = if states & FCITX_ALT != 0 { K_ALT_MASK } else { 0 };
    let sup = if states & FCITX_SUPER != 0 { K_SUPER_MASK } else { 0 };
    let rel = if release { K_RELEASE_MASK } else { 0 };
    modifiers = modifiers | shift;
    modifiers = modifiers | caps;
    modifiers = modifiers | ctrl;
    modifiers = modifiers | alt;
    modifiers = modifiers | sup;
    modifiers = modifiers | rel;
    assert(0i32 | shift == shift) by (bit_vector);
    modifiers
}

/// Law: each fcitx5 modifier state maps to its own rime modifier and to no other: Shift
/// (bit 0) to Shift (bit 0), Caps Lock (bit 1) to Lock (bit 1), Ctrl (bit 2) to Control
/// (bit 2), Alt (bit 3) to Alt (bit 3), Super (bit 6) to Super (bit 26), and a release to
/// the release bit (bit 30); no other bit is ever set.
pub proof fn law_core_modifiers_map_each_state(states: u32, release: bool)
    ensures
        ({
            let m = spec_core_modifiers(states, release);
            &&& (m & 1 != 0) == (states & 1 != 0)
            &&& (m & 2 != 0) == (states & 2 != 0)
            &&& (m & 4 != 0) == (states & 4 != 0)
            &&& (m & 8 != 0) == (states & 8 != 0)
            &&& (m & 0x0400_0000 != 0) == (states & 0x40 != 0)
            &&& (m & 0x4000_0000 != 0) == release
            &&& m & !0x4400_000fi32 == 0
        }),
{
    let m = spec_core_modifiers(states, release);
    let shift: i32 = if states & FCITX_SHIFT != 0 { K_SHIFT_MASK } else { 0 };
    let caps: i32 = if states & FCITX_CAPS_LOCK != 0 { K_LOCK_MASK } else { 0 };
    let ctrl: i32 = if states & FCITX_CTRL != 0 { K_CONTROL_MASK } else { 0 };
    let alt: i32 = if states & FCITX_ALT != 0 { K_ALT_MASK } else { 0 };
    let sup: i32 = if states & FCITX_SUPER != 0 { K_SUPER_MASK } else { 0 };
    let rel: i32 = if release { K_RELEASE_MASK } else { 0 };
    assert(m == shift | caps | ctrl | alt | sup | rel);
    assert(K_SHIFT_MASK == 1 && K_LOCK_MASK == 2 && K_CONTROL_MASK == 4 && K_ALT_MASK == 8) by (bit_vector);
    assert(K_SUPER_MASK == 0x0400_0000 && K_RELEASE_MASK == 0x4000_0000) by (bit_vector);
    assert(FCITX_SHIFT == 1 && FCITX_CAPS_LOCK == 2 && FCITX_CTRL == 4 && FCITX_ALT == 8 && FCITX_SUPER == 0x40)
        by (bit_vector);
    let s1 = states & 1 != 0;
    let s2 = states & 2 != 0;
    let s4 = states & 4 != 0;
    let s8 = states & 8 != 0;
    let s40 = states & 0x40 != 0;
    assert({
        let m2 = (if s1 { 1i32 } else { 0i32 }) | (if s2 { 2i32 } else { 0i32 }) | (if s4 { 4i32 } else { 0i32 }) | (if s8 {
            8i32
        } else {
            0i32
        }) | (if s40 { 0x0400_0000i32 } else { 0i32 }) | (if release { 0x4000_0000i32 } else { 0i32 });
        &&& (m2 & 1 != 0) == s1
        &&& (m2 & 2 != 0) == s2
        &&& (m2 & 4 != 0) == s4
        &&& (m2 & 8 != 0) == s8
        &&& (m2 & 0x0400_0000 != 0) == s40
        &&& (m2 & 0x4000_0000 != 0) == release
        &&& m2 & !0x4400_000fi32 == 0
    }) by (bit_vector);
}

/// A key list of the platform: `count` entries of keysym and key states.
#[derive(Clone, Copy, Debug)]
pub struct HuxKeyList {
    pub count: i32,
    pub sym: [i32; HUX_MAX_KEYS],
    pub states: [i32; HUX_MAX_KEYS],
}

/// The options record of the platform (one field per configuration item; switches are
/// non-zero when on).
#[derive(Clone, Copy, Debug)]
pub struct HuxOptions {
    pub early_commit: i32,
    pub early_commit_to_preedit: i32,
    pub allow_duplicate_single: i32,
    pub full_shape: i32,
    pub ascii_punct: i32,
    pub learning_on_tab: i32,
    pub high_freq_limit: i32,
    /// Keys that open the lookup by pronunciation.
    pub reverse_lookup_pronunciation: HuxKeyList,
    /// Keys that open the lookup by character.
    pub reverse_lookup_character: HuxKeyList,
    /// Candidates per page (1..=10).
    pub page_size: i32,
    pub page_up: HuxKeyList,
    pub page_down: HuxKeyList,
    /// Digit selection (1–9; 0 = 10th).
    pub digit_select: i32,
    /// 0 = follow the global setting, 1 = horizontal, 2 = vertical.
    pub candidate_layout: i32,
    /// 0 = candidate code, 1 = raw input, 2 = hidden.
    pub preedit_mode: i32,
    /// 1 = paging down from the last page returns to the first.
    pub page_cycle: i32,
    /// Shortest input early commits leave (0..=20).
    pub min_retained_input_length: i32,
    /// 1 = the supplementary code tables are loaded.
    pub full_charset: i32,
    /// 1 = non-Han entries of the supplementary tables are filtered.
    pub filter_non_han: i32,
}

/// Entries of a key list in use: `count` clamped to `0..=HUX_MAX_KEYS`.
pub open spec fn used_entries(list: HuxKeyList) -> int {
    if list.count < 0 { 0 } else if list.count > HUX_MAX_KEYS { HUX_MAX_KEYS as int } else { list.count as int }
}

/// The rime names of the first `n` used keys of a list (entries with keysym 0 are skipped).
pub open spec fn key_names(list: HuxKeyList, n: int) -> Seq<Seq<char>>
    decreases n,
{
    if n <= 0 {
        Seq::empty()
    } else {
        let before = key_names(list, n - 1);
        let sym = list.sym@[n - 1];
        if sym != 0 {
            before.push(spec_repr(KeyEvent { keycode: sym, modifier: spec_core_modifiers(list.states@[n - 1] as u32, false) }))
        } else {
            before
        }
    }
}

/// The rime key names of a platform key list.
pub fn key_reprs(list: &HuxKeyList) -> (names: Vec<String>)
    ensures
        crate::tables::text_views(names@) == key_names(*list, used_entries(*list)),
{
    let used: usize = if list.count < 0 {
        0
    } else if list.count > HUX_MAX_KEYS as i32 {
        HUX_MAX_KEYS
    } else {
        list.count as usize
    };
    let mut names: Vec<String> = Vec::new();
    let mut index: usize = 0;
    assert(crate::tables::text_views(names@) =~= Seq::<Seq<char>>::empty());
    while index < used
        invariant
            index <= used <= HUX_MAX_KEYS,
            used == used_entries(*list),
            crate::tables::text_views(names@) == key_names(*list, index as int),
        decreases used - index,
    {
        let sym = list.sym[index];
        if sym != 0 {
            let modifiers = core_modifiers(list.states[index] as u32, false);
            let name = KeyEvent::new(sym, modifiers).repr();
            let ghost before = names@;
            names.push(name);
            assert(crate::tables::text_views(names@) =~= crate::tables::text_views(before).push(name@));
        }
        index = index + 1;
    }
    names
}

/// The layout an options record asks for.
pub open spec fn layout_of(value: i32) -> CandidateLayout {
    if value == 1 {
        CandidateLayout::Horizontal
    } else if value == 2 {
        CandidateLayout::Vertical
    } else {
        CandidateLayout::FollowGlobal
    }
}

/// The preedit mode an options record asks for.
pub open spec fn preedit_of(value: i32) -> PreeditMode {
    if value == 1 {
        PreeditMode::RawInput
    } else if value == 2 {
        PreeditMode::Hidden
    } else {
        PreeditMode::CandidateCode
    }
}

/// Engine settings from the platform's options record: switches are on when non-zero,
/// negative numbers count as 0 (the page size as 1), key lists become rime names.
pub fn settings_from_options(options: &HuxOptions) -> (settings: Settings)
    ensures
        settings.early_commit == (options.early_commit != 0),
        settings.early_commit_to_preedit == (options.early_commit_to_preedit != 0),
        settings.allow_duplicate_single == (options.allow_duplicate_single != 0),
        settings.full_shape == (options.full_shape != 0),
        settings.ascii_punct == (options.ascii_punct != 0),
        settings.learning_on_tab == (options.learning_on_tab != 0),
        settings.high_freq_limit == if options.high_freq_limit < 0 { 0 } else { options.high_freq_limit as usize },
        crate::tables::text_views(settings.reverse_lookup_pronunciation_keys@) == key_names(
            options.reverse_lookup_pronunciation,
            used_entries(options.reverse_lookup_pronunciation),
        ),
        crate::tables::text_views(settings.reverse_lookup_character_keys@) == key_names(
            options.reverse_lookup_character,
            used_entries(options.reverse_lookup_character),
        ),
        settings.page_size == if options.page_size < 1 { 1 } else { options.page_size as usize },
        crate::tables::text_views(settings.page_up_keys@) == key_names(options.page_up, used_entries(options.page_up)),
        crate::tables::text_views(settings.page_down_keys@) == key_names(options.page_down, used_entries(options.page_down)),
        settings.digit_select == (options.digit_select != 0),
        settings.candidate_layout == layout_of(options.candidate_layout),
        settings.preedit_mode == preedit_of(options.preedit_mode),
        settings.page_cycle == (options.page_cycle != 0),
        settings.min_retained_input_length == if options.min_retained_input_length < 0 {
            0
        } else {
            options.min_retained_input_length as usize
        },
{
    let candidate_layout = if options.candidate_layout == 1 {
        CandidateLayout::Horizontal
    } else if options.candidate_layout == 2 {
        CandidateLayout::Vertical
    } else {
        CandidateLayout::FollowGlobal
    };
    let preedit_mode = if options.preedit_mode == 1 {
        PreeditMode::RawInput
    } else if options.preedit_mode == 2 {
        PreeditMode::Hidden
    } else {
        PreeditMode::CandidateCode
    };
    Settings {
        early_commit: options.early_commit != 0,
        early_commit_to_preedit: options.early_commit_to_preedit != 0,
        allow_duplicate_single: options.allow_duplicate_single != 0,
        full_shape: options.full_shape != 0,
        ascii_punct: options.ascii_punct != 0,
        learning_on_tab: options.learning_on_tab != 0,
        high_freq_limit: if options.high_freq_limit < 0 { 0 } else { options.high_freq_limit as usize },
        reverse_lookup_pronunciation_keys: key_reprs(&options.reverse_lookup_pronunciation),
        reverse_lookup_character_keys: key_reprs(&options.reverse_lookup_character),
        page_size: if options.page_size < 1 { 1 } else { options.page_size as usize },
        page_up_keys: key_reprs(&options.page_up),
        page_down_keys: key_reprs(&options.page_down),
        digit_select: options.digit_select != 0,
        candidate_layout,
        preedit_mode,
        page_cycle: options.page_cycle != 0,
        min_retained_input_length: if options.min_retained_input_length < 0 {
            0
        } else {
            options.min_retained_input_length as usize
        },
    }
}

} // verus!
