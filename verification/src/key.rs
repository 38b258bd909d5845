//! Key events and the rime key-name notation (`Shift+Tab`, `Control+Alt+Delete`, `0x1234`).

use vstd::prelude::*;
use vstd::utf8::encode_utf8;
use crate::key_table::{
    key_entry, key_entry_at, lemma_entry_names_its_character, lemma_key_names_nonempty, named_character, KEY_TABLE_LEN,
};
use vstd::string::StringSliceAdditionalSpecFns;
use crate::text::{hex_digits, push_char, push_hex, push_str, str_eq, zero_pad};

verus! {

pub const K_SHIFT_MASK: i32 = 1 << 0;
pub const K_LOCK_MASK: i32 = 1 << 1;
pub const K_CONTROL_MASK: i32 = 1 << 2;
pub const K_ALT_MASK: i32 = 1 << 3;
pub const K_SUPER_MASK: i32 = 1 << 26;
pub const K_HYPER_MASK: i32 = 1 << 27;
pub const K_META_MASK: i32 = 1 << 28;
pub const K_RELEASE_MASK: i32 = 1 << 30;
/// The modifier bits that carry a rime meaning.
pub const K_MODIFIER_MASK: i32 = 0x5f00_1fff;
/// X11 `XK_VoidSymbol`.
pub const XK_VOID_SYMBOL: i32 = 0x00ff_ffff;

/// A key press or release: X11 keysym plus rime modifier bits.
#[derive(Clone, Copy, Debug, Default, PartialEq, Eq)]
pub struct KeyEvent {
    pub keycode: i32,
    pub modifier: i32,
}

// ---------------------------------------------------------------- modifier names

/// Name of modifier bit `bit` (bits without a name are `None`).
pub open spec fn modifier_entry(bit: u32) -> Option<&'static str> {
    match bit {
        0 => Some("Shift"),
        1 => Some("Lock"),
        2 => Some("Control"),
        3 => Some("Alt"),
        4 => Some("Mod2"),
        5 => Some("Mod3"),
        6 => Some("Mod4"),
        7 => Some("Mod5"),
        8 => Some("Button1"),
        9 => Some("Button2"),
        10 => Some("Button3"),
        11 => Some("Button4"),
        12 => Some("Button5"),
        26 => Some("Super"),
        27 => Some("Hyper"),
        28 => Some("Meta"),
        30 => Some("Release"),
        _ => None,
    }
}

fn modifier_entry_at(bit: u32) -> (name: Option<&'static str>)
    ensures
        name == modifier_entry(bit),
{
    match bit {
        0 => Some("Shift"),
        1 => Some("Lock"),
        2 => Some("Control"),
        3 => Some("Alt"),
        4 => Some("Mod2"),
        5 => Some("Mod3"),
        6 => Some("Mod4"),
        7 => Some("Mod5"),
        8 => Some("Button1"),
        9 => Some("Button2"),
        10 => Some("Button3"),
        11 => Some("Button4"),
        12 => Some("Button5"),
        26 => Some("Super"),
        27 => Some("Hyper"),
        28 => Some("Meta"),
        30 => Some("Release"),
        _ => None,
    }
}

/// Bit `bit` of `value` (as an unsigned 32-bit word) is set.
pub open spec fn bit_set(value: i32, bit: u32) -> bool {
    ((value as u32 as u64) >> (bit as u64)) & 1u64 == 1u64
}

/// No bit below `bit` is set in `value`.
pub open spec fn low_bits_clear(value: i32, bit: u32) -> bool {
    (value as u32 as u64) & (((1u64 << (bit as u64)) - 1u64) as u64) == 0u64
}

/// Modifier bit `bit` is named `name`.
pub open spec fn modifier_named(bit: u32, name: Seq<char>) -> bool {
    modifier_entry(bit) matches Some(s) && s@ == name
}

/// The lowest-numbered modifier bit named `name`, as a mask, if any bit has that name.
pub open spec fn modifier_bits(name: Seq<char>) -> Option<i32> {
    if exists|bit: u32| bit < 32 && #[trigger] modifier_named(bit, name) {
        let bit = choose|bit: u32|
            bit < 32 && #[trigger] modifier_named(bit, name) && forall|other: u32|
                other < bit ==> !modifier_named(other, name);
        Some(1i32 << bit)
    } else {
        None
    }
}

/// Looks up the mask of a modifier by name (librime `RimeGetModifierByName`).
pub fn modifier_by_name(name: &str) -> (mask: Option<i32>)
    ensures
        mask == modifier_bits(name@),
{
    let mut bit: u32 = 0;
    while bit < 32
        invariant
            bit <= 32,
            forall|other: u32| other < bit ==> !modifier_named(other, name@),
        decreases 32 - bit,
    {
        if let Some(candidate) = modifier_entry_at(bit) {
            if str_eq(candidate, name) {
                proof {
                    assert(modifier_named(bit, name@));
                    let chosen = choose|b: u32|
                        b < 32 && #[trigger] modifier_named(b, name@) && forall|other: u32|
                            other < b ==> !modifier_named(other, name@);
                    assert(b_unique(bit, chosen, name@));
                }
                return Some(1i32 << bit);
            }
        }
        bit = bit + 1;
    }
    None
}

spec fn b_unique(found: u32, chosen: u32, name: Seq<char>) -> bool {
    (found < 32 && modifier_named(found, name) && (forall|other: u32|
        other < found ==> !modifier_named(other, name)) && chosen < 32 && modifier_named(
        chosen,
        name,
    ) && (forall|other: u32| other < chosen ==> !modifier_named(other, name))) ==> found == chosen
}

/// The name of the lowest set bit of `value`, if that bit is named
/// (librime `RimeGetModifierName`); `None` for zero.
pub open spec fn lowest_modifier_name(value: i32) -> Option<&'static str> {
    if value == 0 {
        None
    } else {
        let bit = choose|bit: u32| bit < 32 && bit_set(value, bit) && low_bits_clear(value, bit);
        modifier_entry(bit)
    }
}

proof fn lemma_shift_step(v: u64, i: u64)
    requires
        i < 32,
        v < 0x1_0000_0000,
    ensures
        (v >> i) >> 1u64 == v >> ((i + 1) as u64),
        ((v >> i) & 1u64 == 0u64 && v & (((1u64 << i) - 1u64) as u64) == 0u64) ==> v & (((1u64 << ((i
            + 1) as u64)) - 1u64) as u64) == 0u64,
{
    assert((v >> i) >> 1u64 == v >> ((i + 1) as u64)) by (bit_vector)
        requires
            i < 32,
    ;
    assert(((v >> i) & 1u64 == 0u64 && v & (((1u64 << i) - 1u64) as u64) == 0u64) ==> v & (((1u64
        << ((i + 1) as u64)) - 1u64) as u64) == 0u64) by (bit_vector)
        requires
            i < 32,
    ;
}

/// Returns the name of the lowest set bit of `value` (librime `RimeGetModifierName`).
pub fn modifier_name(value: i32) -> (name: Option<&'static str>)
    ensures
        name == lowest_modifier_name(value),
{
    let word: u64 = value as u32 as u64;
    let mut rest: u64 = word;
    let mut bit: u32 = 0;
    assert(word & (((1u64 << 0u64) - 1u64) as u64) == 0u64) by (bit_vector);
    assert(word >> 0u64 == word) by (bit_vector);
    while rest != 0
        invariant
            bit <= 32,
            word == value as u32 as u64,
            rest == word >> (bit as u64),
            word & (((1u64 << (bit as u64)) - 1u64) as u64) == 0u64,
        decreases rest,
    {
        if bit == 32 {
            assert(word >> 32u64 == 0u64) by (bit_vector)
                requires
                    word == value as u32 as u64,
            ;
            assert(false);
        }
        if rest & 1 == 1 {
            proof {
                assert(value != 0) by (bit_vector)
                    requires
                        word == value as u32 as u64,
                        (word >> (bit as u64)) & 1u64 == 1u64,
                ;
                assert(bit_set(value, bit));
                assert(low_bits_clear(value, bit));
                let chosen = choose|b: u32| b < 32 && bit_set(value, b) && low_bits_clear(value, b);
                lemma_lowest_bit_unique(value, bit, chosen);
            }
            return modifier_entry_at(bit);
        }
        proof {
            assert(rest & 1u64 == 0u64) by (bit_vector)
                requires
                    rest & 1u64 != 1u64,
            ;
            assert(word < 0x1_0000_0000u64) by (bit_vector)
                requires
                    word == value as u32 as u64,
            ;
            lemma_shift_step(word, bit as u64);
            assert(rest >> 1u64 < rest) by (bit_vector)
                requires
                    rest != 0u64,
            ;
        }
        rest = rest >> 1;
        bit = bit + 1;
    }
    proof {
        assert(word == 0u64) by (bit_vector)
            requires
                word >> (bit as u64) == 0u64,
                word & (((1u64 << (bit as u64)) - 1u64) as u64) == 0u64,
                bit <= 32,
        ;
        assert(value == 0) by (bit_vector)
            requires
                word == value as u32 as u64,
                word == 0u64,
        ;
    }
    None
}

proof fn lemma_lowest_bit_unique(value: i32, a: u32, b: u32)
    requires
        a < 32,
        bit_set(value, a),
        low_bits_clear(value, a),
        b < 32,
        bit_set(value, b),
        low_bits_clear(value, b),
    ensures
        a == b,
{
    let w = value as u32 as u64;
    let x = a as u64;
    let y = b as u64;
    assert(x == y) by (bit_vector)
        requires
            x < 32,
            y < 32,
            (w >> x) & 1u64 == 1u64,
            w & (((1u64 << x) - 1u64) as u64) == 0u64,
            (w >> y) & 1u64 == 1u64,
            w & (((1u64 << y) - 1u64) as u64) == 0u64,
    ;
}

// ---------------------------------------------------------------- key names

/// The name of `keycode`: the first entry of the key table (in name order) with that keysym.
pub open spec fn key_name_from(keycode: i32, i: usize) -> Option<&'static str>
    decreases KEY_TABLE_LEN - i,
{
    if i >= KEY_TABLE_LEN {
        None
    } else if key_entry(i).0 == keycode {
        Some(key_entry(i).1)
    } else {
        key_name_from(keycode, (i + 1) as usize)
    }
}

/// The keysym named `name`: the first entry of the key table with that name.
pub open spec fn keycode_named_from(name: Seq<char>, i: usize) -> Option<i32>
    decreases KEY_TABLE_LEN - i,
{
    if i >= KEY_TABLE_LEN {
        None
    } else if key_entry(i).1@ == name {
        Some(key_entry(i).0)
    } else {
        keycode_named_from(name, (i + 1) as usize)
    }
}

/// The rime name of a keysym.
pub open spec fn spec_key_name(keycode: i32) -> Option<&'static str> {
    key_name_from(keycode, 0)
}

/// The keysym of a rime key name.
pub open spec fn spec_keycode_by_name(name: Seq<char>) -> Option<i32> {
    keycode_named_from(name, 0)
}

/// Looks up the name of a keysym (librime `RimeGetKeyName`).
pub fn key_name(keycode: i32) -> (name: Option<&'static str>)
    ensures
        name == spec_key_name(keycode),
{
    let mut i: usize = 0;
    while i < KEY_TABLE_LEN
        invariant
            i <= KEY_TABLE_LEN,
            spec_key_name(keycode) == key_name_from(keycode, i),
        decreases KEY_TABLE_LEN - i,
    {
        let entry = key_entry_at(i);
        if entry.0 == keycode {
            return Some(entry.1);
        }
        i = i + 1;
    }
    None
}

/// Looks up the keysym of a key name (librime `RimeGetKeycodeByName`).
pub fn keycode_by_name(name: &str) -> (keycode: Option<i32>)
    ensures
        keycode == spec_keycode_by_name(name@),
{
    let mut i: usize = 0;
    while i < KEY_TABLE_LEN
        invariant
            i <= KEY_TABLE_LEN,
            spec_keycode_by_name(name@) == keycode_named_from(name@, i),
        decreases KEY_TABLE_LEN - i,
    {
        let entry = key_entry_at(i);
        if str_eq(entry.1, name) {
            return Some(entry.0);
        }
        i = i + 1;
    }
    None
}

// ---------------------------------------------------------------- repr

/// `"Name+"` for each named modifier bit below `bit` that is set in `mask`, lowest bit first.
pub open spec fn modifier_prefix(mask: i32, bit: u32) -> Seq<char>
    decreases bit,
{
    if bit == 0 {
        seq![]
    } else {
        let b = (bit - 1) as u32;
        modifier_prefix(mask, b) + if bit_set(mask, b) && modifier_entry(b) is Some {
            modifier_entry(b)->0@.push('+')
        } else {
            seq![]
        }
    }
}

/// The rime notation of a key event (librime `KeyEvent::repr`).
pub open spec fn spec_repr(key: KeyEvent) -> Seq<char> {
    let prefix = if key.modifier != 0 {
        modifier_prefix(key.modifier & K_MODIFIER_MASK, 32)
    } else {
        seq![]
    };
    match spec_key_name(key.keycode) {
        Some(name) => prefix + name@,
        None => if key.keycode <= 0xffff {
            prefix + seq!['0', 'x'] + zero_pad(hex_digits(key.keycode as u32 as nat), 4)
        } else if key.keycode <= 0x00ff_ffff {
            prefix + seq!['0', 'x'] + zero_pad(hex_digits(key.keycode as u32 as nat), 6)
        } else {
            seq!['(', 'u', 'n', 'k', 'n', 'o', 'w', 'n', ')']
        },
    }
}

// ---------------------------------------------------------------- parse

/// `s` cut at every `'+'` (an empty string yields one empty part).
pub open spec fn split_plus(s: Seq<char>) -> Seq<Seq<char>>
    decreases s.len(),
{
    if s.len() == 0 {
        seq![seq![]]
    } else {
        let parts = split_plus(s.drop_last());
        if s.last() == '+' {
            parts.push(seq![])
        } else {
            parts.update(parts.len() - 1, parts.last().push(s.last()))
        }
    }
}

proof fn lemma_split_plus_nonempty(s: Seq<char>)
    ensures
        split_plus(s).len() >= 1,
    decreases s.len(),
{
    if s.len() > 0 {
        lemma_split_plus_nonempty(s.drop_last());
    }
}

/// The union of the masks of the modifier names in `parts`; `None` when one is unknown.
pub open spec fn modifiers_of(parts: Seq<Seq<char>>) -> Option<i32>
    decreases parts.len(),
{
    if parts.len() == 0 {
        Some(0)
    } else {
        match modifiers_of(parts.drop_last()) {
            None => None,
            Some(mask) => match modifier_bits(parts.last()) {
                None => None,
                Some(bits) => Some(mask | bits),
            },
        }
    }
}

/// The key event written `repr` in rime notation (librime `KeyEvent::Parse`): a single
/// byte is its own keysym; otherwise every part before the last `+` names a modifier
/// and the last part names the key (`VoidSymbol` is refused).
pub open spec fn spec_from_repr(repr: &str) -> Option<KeyEvent> {
    key_from_repr(repr@)
}

/// [`spec_from_repr`] over the characters of the notation.
pub open spec fn key_from_repr(repr: Seq<char>) -> Option<KeyEvent> {
    if repr.len() == 0 {
        None
    } else if encode_utf8(repr).len() == 1 {
        Some(KeyEvent { keycode: encode_utf8(repr)[0] as i32, modifier: 0 })
    } else {
        let parts = split_plus(repr);
        match modifiers_of(parts.drop_last()) {
            None => None,
            Some(modifier) => match spec_keycode_by_name(parts.last()) {
                None => None,
                Some(keycode) => if keycode == XK_VOID_SYMBOL {
                    None
                } else {
                    Some(KeyEvent { keycode, modifier })
                },
            },
        }
    }
}

impl KeyEvent {
    pub fn new(keycode: i32, modifier: i32) -> (event: Self)
        ensures
            event == (KeyEvent { keycode, modifier }),
    {
        Self { keycode, modifier }
    }

    /// Parses rime key notation (`a`, `Shift+Tab`, `Control+Alt+Delete`).
    pub fn from_repr(repr: &str) -> (event: Option<Self>)
        ensures
            event == spec_from_repr(repr),
    {
        if repr.is_empty() {
            return None;
        }
        if repr.len() == 1 {
            let bytes = repr.as_bytes();
            return Some(Self::new(bytes[0] as i32, 0));
        }
        proof {
            assert(repr@.len() != 0);
        }
        let ghost chars = repr@;
        let mut modifier: i32 = 0;
        let mut failed = false;
        let mut current = String::new();
        let ghost mut index: int = 0;
        proof {
            assert(chars.take(0) =~= Seq::<char>::empty());
        }
        for c in it: repr.chars()
            invariant
                chars == repr@,
                it.seq() == chars,
                index == it.index(),
                0 <= index <= chars.len(),
                split_plus(chars.take(index)).len() >= 1,
                current@ == split_plus(chars.take(index)).last(),
                modifiers_of(split_plus(chars.take(index)).drop_last()) == (if failed {
                    None
                } else {
                    Some(modifier)
                }),
        {
            let ghost before = chars.take(index);
            proof {
                assert(chars.take(index + 1).drop_last() =~= before);
                assert(chars.take(index + 1).last() == c);
                lemma_split_plus_nonempty(before);
            }
            if c == '+' {
                let ghost parts = split_plus(before);
                proof {
                    let next = split_plus(chars.take(index + 1));
                    assert(next == parts.push(seq![]));
                    assert(next.drop_last() =~= parts);
                    assert(parts.drop_last().push(parts.last()) =~= parts);
                }
                if !failed {
                    match modifier_by_name(current.as_str()) {
                        None => {
                            failed = true;
                        },
                        Some(bits) => {
                            modifier = modifier | bits;
                        },
                    }
                }
                current = String::new();
            } else {
                proof {
                    let parts = split_plus(before);
                    let next = split_plus(chars.take(index + 1));
                    assert(next.drop_last() =~= parts.drop_last());
                }
                push_char(&mut current, c);
            }
            proof {
                index = index + 1;
            }
        }
        proof {
            assert(chars.take(index) =~= chars);
        }
        if failed {
            return None;
        }
        match keycode_by_name(current.as_str()) {
            None => None,
            Some(keycode) => if keycode == XK_VOID_SYMBOL {
                None
            } else {
                Some(Self::new(keycode, modifier))
            },
        }
    }

    /// Renders the event in rime notation (librime `KeyEvent::repr`).
    pub fn repr(&self) -> (text: String)
        ensures
            text@ == spec_repr(*self),
    {
        let mut out = String::new();
        if self.modifier != 0 {
            let mask = self.modifier & K_MODIFIER_MASK;
            let mut bit: u32 = 0;
            proof {
                assert(out@ =~= modifier_prefix(mask, 0));
            }
            while bit < 32
                invariant
                    bit <= 32,
                    mask == self.modifier & K_MODIFIER_MASK,
                    out@ == modifier_prefix(mask, bit),
                decreases 32 - bit,
            {
                let word: u64 = mask as u32 as u64;
                if (word >> (bit as u64)) & 1 == 1 {
                    if let Some(name) = modifier_entry_at(bit) {
                        push_str(&mut out, name);
                        push_char(&mut out, '+');
                    }
                }
                proof {
                    assert(out@ =~= modifier_prefix(mask, (bit + 1) as u32));
                }
                bit = bit + 1;
            }
        }
        if let Some(name) = key_name(self.keycode) {
            push_str(&mut out, name);
            return out;
        }
        if self.keycode <= 0xffff {
            push_str(&mut out, "0x");
            proof {
                reveal_strlit("0x");
            }
            push_hex(&mut out, self.keycode as u32 as u64, 4);
            assert(out@ =~= spec_repr(*self));
            return out;
        }
        if self.keycode <= 0x00ff_ffff {
            push_str(&mut out, "0x");
            proof {
                reveal_strlit("0x");
            }
            push_hex(&mut out, self.keycode as u32 as u64, 6);
            assert(out@ =~= spec_repr(*self));
            return out;
        }
        let unknown = String::new();
        let mut unknown = unknown;
        push_str(&mut unknown, "(unknown)");
        proof {
            reveal_strlit("(unknown)");
        }
        assert(unknown@ =~= spec_repr(*self));
        unknown
    }

    pub fn shift(&self) -> (set: bool)
        ensures
            set == (self.modifier & K_SHIFT_MASK != 0),
    {
        self.modifier & K_SHIFT_MASK != 0
    }

    pub fn ctrl(&self) -> (set: bool)
        ensures
            set == (self.modifier & K_CONTROL_MASK != 0),
    {
        self.modifier & K_CONTROL_MASK != 0
    }

    pub fn alt(&self) -> (set: bool)
        ensures
            set == (self.modifier & K_ALT_MASK != 0),
    {
        self.modifier & K_ALT_MASK != 0
    }

    pub fn caps(&self) -> (set: bool)
        ensures
            set == (self.modifier & K_LOCK_MASK != 0),
    {
        self.modifier & K_LOCK_MASK != 0
    }

    pub fn super_modifier(&self) -> (set: bool)
        ensures
            set == (self.modifier & K_SUPER_MASK != 0),
    {
        self.modifier & K_SUPER_MASK != 0
    }

    pub fn release(&self) -> (set: bool)
        ensures
            set == (self.modifier & K_RELEASE_MASK != 0),
    {
        self.modifier & K_RELEASE_MASK != 0
    }
}

/// The mask of a named modifier bit, when no lower bit carries the same name.
proof fn lemma_modifier_bits_at(bit: u32, name: Seq<char>)
    requires
        bit < 32,
        modifier_named(bit, name),
        forall|other: u32| other < bit ==> !modifier_named(other, name),
    ensures
        modifier_bits(name) == Some(1i32 << bit),
{
    let chosen = choose|b: u32|
        b < 32 && #[trigger] modifier_named(b, name) && forall|other: u32| other < b ==> !modifier_named(other, name);
    assert(b_unique(bit, chosen, name));
}

/// The masks of `Shift`, `Control` and `Alt`.
proof fn lemma_common_modifier_bits()
    ensures
        modifier_bits("Shift"@) == Some(K_SHIFT_MASK),
        modifier_bits("Control"@) == Some(K_CONTROL_MASK),
        modifier_bits("Alt"@) == Some(K_ALT_MASK),
{
    reveal_strlit("Shift");
    reveal_strlit("Lock");
    reveal_strlit("Control");
    reveal_strlit("Alt");
    lemma_modifier_bits_at(0, "Shift"@);
    assert forall|other: u32| other < 2 implies !modifier_named(other, "Control"@) by {
        if other == 0 {
            assert("Shift"@[0] != "Control"@[0]);
        } else {
            assert("Lock"@[0] != "Control"@[0]);
        }
    }
    lemma_modifier_bits_at(2, "Control"@);
    assert forall|other: u32| other < 3 implies !modifier_named(other, "Alt"@) by {
        if other == 0 {
            assert("Shift"@[0] != "Alt"@[0]);
        } else if other == 1 {
            assert("Lock"@[0] != "Alt"@[0]);
        } else {
            assert("Control"@[0] != "Alt"@[0]);
        }
    }
    lemma_modifier_bits_at(3, "Alt"@);
    assert((1i32 << 0u32) == K_SHIFT_MASK && (1i32 << 2u32) == K_CONTROL_MASK && (1i32 << 3u32) == K_ALT_MASK) by (bit_vector);
}

/// Modifier names each followed by `+`, in order.
pub open spec fn plus_join(names: Seq<Seq<char>>) -> Seq<char>
    decreases names.len(),
{
    if names.len() == 0 {
        seq![]
    } else {
        plus_join(names.drop_last()) + names.last().push('+')
    }
}

/// Appending text without `+` extends the last part.
proof fn lemma_split_no_plus(s: Seq<char>, t: Seq<char>)
    requires
        !t.contains('+'),
    ensures
        split_plus(s + t) == split_plus(s).update(split_plus(s).len() - 1, split_plus(s).last() + t),
    decreases t.len(),
{
    lemma_split_plus_nonempty(s);
    if t.len() == 0 {
        assert(s + t =~= s);
        assert(split_plus(s).last() + t =~= split_plus(s).last());
        assert(split_plus(s).update(split_plus(s).len() - 1, split_plus(s).last()) =~= split_plus(s));
    } else {
        let u = t.drop_last();
        assert(!u.contains('+')) by {
            if u.contains('+') {
                let k = choose|k: int| 0 <= k < u.len() && u[k] == '+';
                assert(t[k] == '+');
            }
        }
        lemma_split_no_plus(s, u);
        assert((s + t).drop_last() =~= s + u);
        assert((s + t).last() == t.last());
        assert(t.last() != '+') by {
            if t.last() == '+' {
                assert(t[t.len() - 1] == '+');
            }
        }
        let parts = split_plus(s);
        let q = split_plus(s + u);
        assert(q.len() == parts.len());
        assert(q.last() == parts.last() + u);
        assert((parts.last() + u).push(t.last()) =~= parts.last() + t);
        assert(split_plus(s + t) == q.update(q.len() - 1, q.last().push(t.last())));
        assert(split_plus(s + t) =~= parts.update(parts.len() - 1, parts.last() + t));
    }
}

/// Splitting joined names and a final part gives the names and the part back.
proof fn lemma_split_join(names: Seq<Seq<char>>, t: Seq<char>)
    requires
        forall|i: int| 0 <= i < names.len() ==> !(#[trigger] names[i]).contains('+'),
        !t.contains('+'),
    ensures
        split_plus(plus_join(names) + t) == names.push(t),
    decreases names.len(),
{
    if names.len() == 0 {
        lemma_split_no_plus(seq![], t);
        assert(seq![] + t =~= t);
        assert(plus_join(names) + t =~= seq![] + t);
        assert(seq![] + t =~= t);
        assert(split_plus(plus_join(names) + t) =~= names.push(t));
    } else {
        let rest = names.drop_last();
        let last = names.last();
        lemma_split_join(rest, last);
        let a = plus_join(rest) + last;
        assert(split_plus(a.push('+')) == split_plus(a).push(seq![])) by {
            assert(a.push('+').drop_last() =~= a);
        }
        lemma_split_no_plus(a.push('+'), t);
        assert(plus_join(names) + t =~= a.push('+') + t);
        assert(split_plus(plus_join(names) + t) =~= names.push(t));
    }
}

/// The names of the common modifiers (Shift, Control, Alt) set in `m`, lowest bit first.
pub open spec fn common_modifier_names(m: i32) -> Seq<Seq<char>> {
    let s1: Seq<Seq<char>> = if m & K_SHIFT_MASK != 0 { seq!["Shift"@] } else { seq![] };
    let s2 = if m & K_CONTROL_MASK != 0 { s1.push("Control"@) } else { s1 };
    if m & K_ALT_MASK != 0 { s2.push("Alt"@) } else { s2 }
}

proof fn lemma_modifier_prefix_high(m: i32, k: u32)
    requires
        m & !(K_SHIFT_MASK | K_CONTROL_MASK | K_ALT_MASK) == 0,
        4 <= k <= 32,
    ensures
        modifier_prefix(m, k) == modifier_prefix(m, 4),
    decreases k,
{
    assert(K_SHIFT_MASK == 1i32 && K_CONTROL_MASK == 4i32 && K_ALT_MASK == 8i32) by (bit_vector);
    if k > 4 {
        let b = (k - 1) as u32;
        assert(!bit_set(m, b)) by (bit_vector)
            requires
                m & !(1i32 | 4i32 | 8i32) == 0,
                4 <= b < 32,
        ;
        lemma_modifier_prefix_high(m, b);
        assert(modifier_prefix(m, k) =~= modifier_prefix(m, b));
    }
}

/// The modifier prefix of a key with only common modifiers joins their names.
proof fn lemma_common_prefix(m: i32)
    requires
        m & !(K_SHIFT_MASK | K_CONTROL_MASK | K_ALT_MASK) == 0,
    ensures
        m & K_MODIFIER_MASK == m,
        modifier_prefix(m & K_MODIFIER_MASK, 32) == plus_join(common_modifier_names(m)),
        modifiers_of(common_modifier_names(m)) == Some(m),
        forall|i: int| 0 <= i < common_modifier_names(m).len() ==> !(#[trigger] common_modifier_names(m)[i]).contains('+'),
{
    assert(K_SHIFT_MASK == 1i32 && K_CONTROL_MASK == 4i32 && K_ALT_MASK == 8i32 && K_MODIFIER_MASK == 0x5f00_1fffi32) by (bit_vector);
    assert(m & 0x5f00_1fffi32 == m) by (bit_vector)
        requires
            m & !(1i32 | 4i32 | 8i32) == 0,
    ;
    lemma_modifier_prefix_high(m, 32);
    assert(bit_set(m, 0) == (m & 1i32 != 0) && bit_set(m, 2) == (m & 4i32 != 0) && bit_set(m, 3) == (m & 8i32 != 0)
        && !bit_set(m, 1)) by (bit_vector)
        requires
            m & !(1i32 | 4i32 | 8i32) == 0,
    ;
    reveal_strlit("Shift");
    reveal_strlit("Control");
    reveal_strlit("Alt");
    lemma_common_modifier_bits();
    let s1: Seq<Seq<char>> = if m & K_SHIFT_MASK != 0 { seq!["Shift"@] } else { seq![] };
    let s2 = if m & K_CONTROL_MASK != 0 { s1.push("Control"@) } else { s1 };
    let s3 = common_modifier_names(m);
    let p0 = if bit_set(m, 0) { "Shift"@.push('+') } else { seq![] };
    let p2 = if bit_set(m, 2) { "Control"@.push('+') } else { seq![] };
    let p3 = if bit_set(m, 3) { "Alt"@.push('+') } else { seq![] };
    assert(modifier_prefix(m, 1) =~= p0) by {
        assert(modifier_prefix(m, 0) =~= Seq::<char>::empty());
    }
    assert(modifier_prefix(m, 2) =~= p0);
    assert(modifier_prefix(m, 3) =~= p0 + p2);
    assert(modifier_prefix(m, 4) =~= p0 + p2 + p3);
    assert(plus_join(Seq::<Seq<char>>::empty()) == Seq::<char>::empty());
    assert(plus_join(s1) =~= p0) by {
        if m & K_SHIFT_MASK != 0 {
            assert(s1.drop_last() =~= Seq::<Seq<char>>::empty());
            assert(Seq::<char>::empty() + "Shift"@.push('+') =~= "Shift"@.push('+'));
        }
    }
    assert(plus_join(s2) =~= p0 + p2) by {
        if m & K_CONTROL_MASK != 0 {
            assert(s2.drop_last() =~= s1);
        }
    }
    assert(plus_join(s3) =~= p0 + p2 + p3) by {
        if m & K_ALT_MASK != 0 {
            assert(s3.drop_last() =~= s2);
        }
    }
    let v1: i32 = m & 1i32;
    let v2: i32 = m & 5i32;
    assert(modifiers_of(Seq::<Seq<char>>::empty()) == Some(0i32));
    assert(modifiers_of(s1) == Some(v1)) by {
        if m & K_SHIFT_MASK != 0 {
            assert(s1.drop_last() =~= Seq::<Seq<char>>::empty());
            assert(s1.last() == "Shift"@);
            assert(0i32 | 1i32 == m & 1i32) by (bit_vector)
                requires
                    m & 1i32 != 0,
            ;
            assert(modifiers_of(s1) == Some(0i32 | 1i32));
        } else {
            assert(m & 1i32 == 0i32);
            assert(s1 =~= Seq::<Seq<char>>::empty());
        }
    }
    assert(modifiers_of(s2) == Some(v2)) by {
        if m & K_CONTROL_MASK != 0 {
            assert(s2.drop_last() =~= s1);
            assert((m & 1i32) | 4i32 == m & 5i32) by (bit_vector)
                requires
                    m & 4i32 != 0,
            ;
        } else {
            assert(m & 1i32 == m & 5i32) by (bit_vector)
                requires
                    m & 4i32 == 0,
            ;
        }
    }
    assert(modifiers_of(s3) == Some(m)) by {
        if m & K_ALT_MASK != 0 {
            assert(s3.drop_last() =~= s2);
            assert((m & 5i32) | 8i32 == m) by (bit_vector)
                requires
                    m & 8i32 != 0,
                    m & !(1i32 | 4i32 | 8i32) == 0,
            ;
        } else {
            assert(m & 5i32 == m) by (bit_vector)
                requires
                    m & 8i32 == 0,
                    m & !(1i32 | 4i32 | 8i32) == 0,
            ;
        }
    }
    assert forall|i: int| 0 <= i < s3.len() implies !(#[trigger] s3[i]).contains('+') by {
        if s3[i].contains('+') {
            let k = choose|k: int| 0 <= k < s3[i].len() && s3[i][k] == '+';
            assert(s3[i] == "Shift"@ || s3[i] == "Control"@ || s3[i] == "Alt"@);
        }
    }
}

/// A text encodes to at least one byte per character.
proof fn lemma_encode_len(s: Seq<char>)
    ensures
        encode_utf8(s).len() >= s.len(),
    decreases s.len(),
{
    if s.len() > 0 {
        lemma_encode_len(s.drop_first());
        let c = s[0] as u32;
        assert(vstd::utf8::encode_scalar(c).len() >= 1);
    }
}

/// A keysym the table finds for a name that denotes a character is that character's.
proof fn lemma_found_keycode_is_named(name: Seq<char>, i: usize)
    ensures
        keycode_named_from(name, i) is Some && named_character(name) is Some ==> keycode_named_from(name, i)->Some_0
            == named_character(name)->Some_0 as i32,
    decreases KEY_TABLE_LEN - i,
{
    if i < KEY_TABLE_LEN {
        if key_entry(i).1@ == name {
            lemma_entry_names_its_character(i);
        } else {
            lemma_found_keycode_is_named(name, (i + 1) as usize);
        }
    }
}

/// A name the table gives a keysym, when it denotes a character, denotes that keysym's.
proof fn lemma_found_name_is_named(keycode: i32, i: usize)
    ensures
        key_name_from(keycode, i) is Some && named_character(key_name_from(keycode, i)->Some_0@) is Some
            ==> keycode == named_character(key_name_from(keycode, i)->Some_0@)->Some_0 as i32,
    decreases KEY_TABLE_LEN - i,
{
    if i < KEY_TABLE_LEN {
        if key_entry(i).0 == keycode {
            lemma_entry_names_its_character(i);
        } else {
            lemma_found_name_is_named(keycode, (i + 1) as usize);
        }
    }
}

/// Law: a key name that denotes a character (a one-character name, or the X11 name of an
/// ASCII symbol such as `bracketleft` for `[`) parses to that character's code point, and
/// a name printed for a keysym, when it denotes a character, denotes the keysym's own.
pub proof fn law_key_names_denote_their_characters(name: Seq<char>, keycode: i32)
    ensures
        spec_keycode_by_name(name) is Some && named_character(name) is Some ==> spec_keycode_by_name(name)->Some_0
            == named_character(name)->Some_0 as i32,
        spec_key_name(keycode) is Some && named_character(spec_key_name(keycode)->Some_0@) is Some ==> keycode
            == named_character(spec_key_name(keycode)->Some_0@)->Some_0 as i32,
{
    lemma_found_keycode_is_named(name, 0);
    lemma_found_name_is_named(keycode, 0);
}

/// A name the key table gives a keysym is never empty.
proof fn lemma_found_name_nonempty(keycode: i32, i: usize)
    ensures
        key_name_from(keycode, i) matches Some(name) ==> name@.len() > 0,
    decreases KEY_TABLE_LEN - i,
{
    if i < KEY_TABLE_LEN {
        if key_entry(i).0 == keycode {
            lemma_key_names_nonempty(i);
        } else {
            lemma_found_name_nonempty(keycode, (i + 1) as usize);
        }
    }
}

/// Law: parsing the printed form of a key gives the key back, for a named key whose name
/// holds no `+` and names that key back, held with no modifier but Shift, Control or Alt
/// (a key printed as a single byte must be the keysym of that byte).
pub proof fn law_repr_parses_back(key: KeyEvent)
    requires
        key.keycode != XK_VOID_SYMBOL,
        key.modifier & !(K_SHIFT_MASK | K_CONTROL_MASK | K_ALT_MASK) == 0,
        spec_key_name(key.keycode) matches Some(name) && !name@.contains('+')
            && spec_keycode_by_name(name@) == Some(key.keycode) && (key.modifier != 0 || encode_utf8(name@).len() != 1
            || encode_utf8(name@)[0] as i32 == key.keycode),
    ensures
        key_from_repr(spec_repr(key)) == Some(key),
{
    lemma_found_name_nonempty(key.keycode, 0);
    let name = spec_key_name(key.keycode)->Some_0@;
    let m = key.modifier;
    lemma_common_prefix(m);
    let names = common_modifier_names(m);
    if m == 0 {
        assert(K_SHIFT_MASK == 1i32 && K_CONTROL_MASK == 4i32 && K_ALT_MASK == 8i32) by (bit_vector);
        assert(0i32 & 1i32 == 0i32 && 0i32 & 4i32 == 0i32 && 0i32 & 8i32 == 0i32) by (bit_vector);
        assert(names =~= Seq::<Seq<char>>::empty());
    }
    let prefix: Seq<char> = if m != 0 { modifier_prefix(m & K_MODIFIER_MASK, 32) } else { seq![] };
    assert(prefix == plus_join(names));
    let repr = prefix + name;
    assert(spec_repr(key) == repr);
    lemma_split_join(names, name);
    lemma_encode_len(repr);
    if m != 0 {
        assert(names.len() > 0);
        assert(plus_join(names).len() > 0);
        assert(encode_utf8(repr).len() != 1) by {
            assert(repr.len() >= 2);
        }
    }
    if encode_utf8(repr).len() == 1 {
        assert(repr =~= name);
    } else {
        let parts = split_plus(repr);
        assert(parts.drop_last() =~= names);
        assert(parts.last() == name);
    }
}

} // verus!
