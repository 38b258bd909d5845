//! Key names of the X11 keysym set, in name order.

use vstd::prelude::*;

verus! {
/// Number of entries in the key name table.
pub const KEY_TABLE_LEN: usize = 196;
/// The key name table: entry `i` pairs a keysym with one of its names.
/// Entries are ordered by name; a keysym may carry several names.
pub open spec fn key_entry(i: usize) -> (i32, &'static str) {
    match i {
        0 => (0x30, "0"),
        1 => (0x31, "1"),
        2 => (0x32, "2"),
        3 => (0x33, "3"),
        4 => (0x34, "4"),
        5 => (0x35, "5"),
        6 => (0x36, "6"),
        7 => (0x37, "7"),
        8 => (0x38, "8"),
        9 => (0x39, "9"),
        10 => (0x41, "A"),
        11 => (0xffe9, "Alt_L"),
        12 => (0xffea, "Alt_R"),
        13 => (0x42, "B"),
        14 => (0xff08, "BackSpace"),
        15 => (0xff58, "Begin"),
        16 => (0xff6b, "Break"),
        17 => (0x43, "C"),
        18 => (0xff69, "Cancel"),
        19 => (0xffe5, "Caps_Lock"),
        20 => (0xff0b, "Clear"),
        21 => (0xffe3, "Control_L"),
        22 => (0xffe4, "Control_R"),
        23 => (0x44, "D"),
        24 => (0xffff, "Delete"),
        25 => (0xff54, "Down"),
        26 => (0x45, "E"),
        27 => (0xff57, "End"),
        28 => (0xff1b, "Escape"),
        29 => (0xff62, "Execute"),
        30 => (0x46, "F"),
        31 => (0xffbe, "F1"),
        32 => (0xffc7, "F10"),
        33 => (0xffc8, "F11"),
        34 => (0xffc9, "F12"),
        35 => (0xffbf, "F2"),
        36 => (0xffc0, "F3"),
        37 => (0xffc1, "F4"),
        38 => (0xffc2, "F5"),
        39 => (0xffc3, "F6"),
        40 => (0xffc4, "F7"),
        41 => (0xffc5, "F8"),
        42 => (0xffc6, "F9"),
        43 => (0xff68, "Find"),
        44 => (0x47, "G"),
        45 => (0x48, "H"),
        46 => (0xff6a, "Help"),
        47 => (0xff50, "Home"),
        48 => (0xffed, "Hyper_L"),
        49 => (0xffee, "Hyper_R"),
        50 => (0x49, "I"),
        51 => (0xfe20, "ISO_Left_Tab"),
        52 => (0xff63, "Insert"),
        53 => (0x4a, "J"),
        54 => (0x4b, "K"),
        55 => (0xffb0, "KP_0"),
        56 => (0xffb1, "KP_1"),
        57 => (0xffb2, "KP_2"),
        58 => (0xffb3, "KP_3"),
        59 => (0xffb4, "KP_4"),
        60 => (0xffb5, "KP_5"),
        61 => (0xffb6, "KP_6"),
        62 => (0xffb7, "KP_7"),
        63 => (0xffb8, "KP_8"),
        64 => (0xffb9, "KP_9"),
        65 => (0xffab, "KP_Add"),
        66 => (0xff9d, "KP_Begin"),
        67 => (0xffae, "KP_Decimal"),
        68 => (0xff9f, "KP_Delete"),
        69 => (0xffaf, "KP_Divide"),
        70 => (0xff99, "KP_Down"),
        71 => (0xff9c, "KP_End"),
        72 => (0xff8d, "KP_Enter"),
        73 => (0xffbd, "KP_Equal"),
        74 => (0xff91, "KP_F1"),
        75 => (0xff92, "KP_F2"),
        76 => (0xff93, "KP_F3"),
        77 => (0xff94, "KP_F4"),
        78 => (0xff95, "KP_Home"),
        79 => (0xff9e, "KP_Insert"),
        80 => (0xff96, "KP_Left"),
        81 => (0xffaa, "KP_Multiply"),
        82 => (0xff9b, "KP_Next"),
        83 => (0xff9b, "KP_Page_Down"),
        84 => (0xff9a, "KP_Page_Up"),
        85 => (0xff9a, "KP_Prior"),
        86 => (0xff98, "KP_Right"),
        87 => (0xffac, "KP_Separator"),
        88 => (0xff80, "KP_Space"),
        89 => (0xffad, "KP_Subtract"),
        90 => (0xff89, "KP_Tab"),
        91 => (0xff97, "KP_Up"),
        92 => (0x4c, "L"),
        93 => (0xff51, "Left"),
        94 => (0xff0a, "Linefeed"),
        95 => (0x4d, "M"),
        96 => (0xff67, "Menu"),
        97 => (0xffe7, "Meta_L"),
        98 => (0xffe8, "Meta_R"),
        99 => (0xff7e, "Mode_switch"),
        100 => (0x4e, "N"),
        101 => (0xff56, "Next"),
        102 => (0xff7f, "Num_Lock"),
        103 => (0x4f, "O"),
        104 => (0x50, "P"),
        105 => (0xff56, "Page_Down"),
        106 => (0xff55, "Page_Up"),
        107 => (0xff13, "Pause"),
        108 => (0xff61, "Print"),
        109 => (0xff55, "Prior"),
        110 => (0x51, "Q"),
        111 => (0x52, "R"),
        112 => (0xff66, "Redo"),
        113 => (0xff0d, "Return"),
        114 => (0xff53, "Right"),
        115 => (0x53, "S"),
        116 => (0xff14, "Scroll_Lock"),
        117 => (0xff60, "Select"),
        118 => (0xffe1, "Shift_L"),
        119 => (0xffe6, "Shift_Lock"),
        120 => (0xffe2, "Shift_R"),
        121 => (0xffeb, "Super_L"),
        122 => (0xffec, "Super_R"),
        123 => (0xff15, "Sys_Req"),
        124 => (0x54, "T"),
        125 => (0xff09, "Tab"),
        126 => (0x55, "U"),
        127 => (0xff65, "Undo"),
        128 => (0xff52, "Up"),
        129 => (0x56, "V"),
        130 => (0xffffff, "VoidSymbol"),
        131 => (0x57, "W"),
        132 => (0x58, "X"),
        133 => (0x59, "Y"),
        134 => (0x5a, "Z"),
        135 => (0x61, "a"),
        136 => (0x26, "ampersand"),
        137 => (0x27, "apostrophe"),
        138 => (0x5e, "asciicircum"),
        139 => (0x7e, "asciitilde"),
        140 => (0x2a, "asterisk"),
        141 => (0x40, "at"),
        142 => (0x62, "b"),
        143 => (0x5c, "backslash"),
        144 => (0x7c, "bar"),
        145 => (0x7b, "braceleft"),
        146 => (0x7d, "braceright"),
        147 => (0x5b, "bracketleft"),
        148 => (0x5d, "bracketright"),
        149 => (0x63, "c"),
        150 => (0x3a, "colon"),
        151 => (0x2c, "comma"),
        152 => (0x64, "d"),
        153 => (0x24, "dollar"),
        154 => (0x65, "e"),
        155 => (0x3d, "equal"),
        156 => (0x21, "exclam"),
        157 => (0x66, "f"),
        158 => (0x67, "g"),
        159 => (0x60, "grave"),
        160 => (0x3e, "greater"),
        161 => (0x68, "h"),
        162 => (0x69, "i"),
        163 => (0x6a, "j"),
        164 => (0x6b, "k"),
        165 => (0x6c, "l"),
        166 => (0x3c, "less"),
        167 => (0x6d, "m"),
        168 => (0x2d, "minus"),
        169 => (0x6e, "n"),
        170 => (0x23, "numbersign"),
        171 => (0x6f, "o"),
        172 => (0x70, "p"),
        173 => (0x28, "parenleft"),
        174 => (0x29, "parenright"),
        175 => (0x25, "percent"),
        176 => (0x2e, "period"),
        177 => (0x2b, "plus"),
        178 => (0x71, "q"),
        179 => (0x3f, "question"),
        180 => (0x22, "quotedbl"),
        181 => (0x60, "quoteleft"),
        182 => (0x27, "quoteright"),
        183 => (0x72, "r"),
        184 => (0x73, "s"),
        185 => (0x3b, "semicolon"),
        186 => (0x2f, "slash"),
        187 => (0x20, "space"),
        188 => (0x74, "t"),
        189 => (0x75, "u"),
        190 => (0x5f, "underscore"),
        191 => (0x76, "v"),
        192 => (0x77, "w"),
        193 => (0x78, "x"),
        194 => (0x79, "y"),
        195 => (0x7a, "z"),
        _ => (0, ""),
    }
}
/// Entry `i` of the key name table.
pub fn key_entry_at(i: usize) -> (entry: (i32, &'static str))
    requires
        i < KEY_TABLE_LEN,
    ensures
        entry == key_entry(i),
{
    match i {
        0 => (0x30, "0"),
        1 => (0x31, "1"),
        2 => (0x32, "2"),
        3 => (0x33, "3"),
        4 => (0x34, "4"),
        5 => (0x35, "5"),
        6 => (0x36, "6"),
        7 => (0x37, "7"),
        8 => (0x38, "8"),
        9 => (0x39, "9"),
        10 => (0x41, "A"),
        11 => (0xffe9, "Alt_L"),
        12 => (0xffea, "Alt_R"),
        13 => (0x42, "B"),
        14 => (0xff08, "BackSpace"),
        15 => (0xff58, "Begin"),
        16 => (0xff6b, "Break"),
        17 => (0x43, "C"),
        18 => (0xff69, "Cancel"),
        19 => (0xffe5, "Caps_Lock"),
        20 => (0xff0b, "Clear"),
        21 => (0xffe3, "Control_L"),
        22 => (0xffe4, "Control_R"),
        23 => (0x44, "D"),
        24 => (0xffff, "Delete"),
        25 => (0xff54, "Down"),
        26 => (0x45, "E"),
        27 => (0xff57, "End"),
        28 => (0xff1b, "Escape"),
        29 => (0xff62, "Execute"),
        30 => (0x46, "F"),
        31 => (0xffbe, "F1"),
        32 => (0xffc7, "F10"),
        33 => (0xffc8, "F11"),
        34 => (0xffc9, "F12"),
        35 => (0xffbf, "F2"),
        36 => (0xffc0, "F3"),
        37 => (0xffc1, "F4"),
        38 => (0xffc2, "F5"),
        39 => (0xffc3, "F6"),
        40 => (0xffc4, "F7"),
        41 => (0xffc5, "F8"),
        42 => (0xffc6, "F9"),
        43 => (0xff68, "Find"),
        44 => (0x47, "G"),
        45 => (0x48, "H"),
        46 => (0xff6a, "Help"),
        47 => (0xff50, "Home"),
        48 => (0xffed, "Hyper_L"),
        49 => (0xffee, "Hyper_R"),
        50 => (0x49, "I"),
        51 => (0xfe20, "ISO_Left_Tab"),
        52 => (0xff63, "Insert"),
        53 => (0x4a, "J"),
        54 => (0x4b, "K"),
        55 => (0xffb0, "KP_0"),
        56 => (0xffb1, "KP_1"),
        57 => (0xffb2, "KP_2"),
        58 => (0xffb3, "KP_3"),
        59 => (0xffb4, "KP_4"),
        60 => (0xffb5, "KP_5"),
        61 => (0xffb6, "KP_6"),
        62 => (0xffb7, "KP_7"),
        63 => (0xffb8, "KP_8"),
        64 => (0xffb9, "KP_9"),
        65 => (0xffab, "KP_Add"),
        66 => (0xff9d, "KP_Begin"),
        67 => (0xffae, "KP_Decimal"),
        68 => (0xff9f, "KP_Delete"),
        69 => (0xffaf, "KP_Divide"),
        70 => (0xff99, "KP_Down"),
        71 => (0xff9c, "KP_End"),
        72 => (0xff8d, "KP_Enter"),
        73 => (0xffbd, "KP_Equal"),
        74 => (0xff91, "KP_F1"),
        75 => (0xff92, "KP_F2"),
        76 => (0xff93, "KP_F3"),
        77 => (0xff94, "KP_F4"),
        78 => (0xff95, "KP_Home"),
        79 => (0xff9e, "KP_Insert"),
        80 => (0xff96, "KP_Left"),
        81 => (0xffaa, "KP_Multiply"),
        82 => (0xff9b, "KP_Next"),
        83 => (0xff9b, "KP_Page_Down"),
        84 => (0xff9a, "KP_Page_Up"),
        85 => (0xff9a, "KP_Prior"),
        86 => (0xff98, "KP_Right"),
        87 => (0xffac, "KP_Separator"),
        88 => (0xff80, "KP_Space"),
        89 => (0xffad, "KP_Subtract"),
        90 => (0xff89, "KP_Tab"),
        91 => (0xff97, "KP_Up"),
        92 => (0x4c, "L"),
        93 => (0xff51, "Left"),
        94 => (0xff0a, "Linefeed"),
        95 => (0x4d, "M"),
        96 => (0xff67, "Menu"),
        97 => (0xffe7, "Meta_L"),
        98 => (0xffe8, "Meta_R"),
        99 => (0xff7e, "Mode_switch"),
        100 => (0x4e, "N"),
        101 => (0xff56, "Next"),
        102 => (0xff7f, "Num_Lock"),
        103 => (0x4f, "O"),
        104 => (0x50, "P"),
        105 => (0xff56, "Page_Down"),
        106 => (0xff55, "Page_Up"),
        107 => (0xff13, "Pause"),
        108 => (0xff61, "Print"),
        109 => (0xff55, "Prior"),
        110 => (0x51, "Q"),
        111 => (0x52, "R"),
        112 => (0xff66, "Redo"),
        113 => (0xff0d, "Return"),
        114 => (0xff53, "Right"),
        115 => (0x53, "S"),
        116 => (0xff14, "Scroll_Lock"),
        117 => (0xff60, "Select"),
        118 => (0xffe1, "Shift_L"),
        119 => (0xffe6, "Shift_Lock"),
        120 => (0xffe2, "Shift_R"),
        121 => (0xffeb, "Super_L"),
        122 => (0xffec, "Super_R"),
        123 => (0xff15, "Sys_Req"),
        124 => (0x54, "T"),
        125 => (0xff09, "Tab"),
        126 => (0x55, "U"),
        127 => (0xff65, "Undo"),
        128 => (0xff52, "Up"),
        129 => (0x56, "V"),
        130 => (0xffffff, "VoidSymbol"),
        131 => (0x57, "W"),
        132 => (0x58, "X"),
        133 => (0x59, "Y"),
        134 => (0x5a, "Z"),
        135 => (0x61, "a"),
        136 => (0x26, "ampersand"),
        137 => (0x27, "apostrophe"),
        138 => (0x5e, "asciicircum"),
        139 => (0x7e, "asciitilde"),
        140 => (0x2a, "asterisk"),
        141 => (0x40, "at"),
        142 => (0x62, "b"),
        143 => (0x5c, "backslash"),
        144 => (0x7c, "bar"),
        145 => (0x7b, "braceleft"),
        146 => (0x7d, "braceright"),
        147 => (0x5b, "bracketleft"),
        148 => (0x5d, "bracketright"),
        149 => (0x63, "c"),
        150 => (0x3a, "colon"),
        151 => (0x2c, "comma"),
        152 => (0x64, "d"),
        153 => (0x24, "dollar"),
        154 => (0x65, "e"),
        155 => (0x3d, "equal"),
        156 => (0x21, "exclam"),
        157 => (0x66, "f"),
        158 => (0x67, "g"),
        159 => (0x60, "grave"),
        160 => (0x3e, "greater"),
        161 => (0x68, "h"),
        162 => (0x69, "i"),
        163 => (0x6a, "j"),
        164 => (0x6b, "k"),
        165 => (0x6c, "l"),
        166 => (0x3c, "less"),
        167 => (0x6d, "m"),
        168 => (0x2d, "minus"),
        169 => (0x6e, "n"),
        170 => (0x23, "numbersign"),
        171 => (0x6f, "o"),
        172 => (0x70, "p"),
        173 => (0x28, "parenleft"),
        174 => (0x29, "parenright"),
        175 => (0x25, "percent"),
        176 => (0x2e, "period"),
        177 => (0x2b, "plus"),
        178 => (0x71, "q"),
        179 => (0x3f, "question"),
        180 => (0x22, "quotedbl"),
        181 => (0x60, "quoteleft"),
        182 => (0x27, "quoteright"),
        183 => (0x72, "r"),
        184 => (0x73, "s"),
        185 => (0x3b, "semicolon"),
        186 => (0x2f, "slash"),
        187 => (0x20, "space"),
        188 => (0x74, "t"),
        189 => (0x75, "u"),
        190 => (0x5f, "underscore"),
        191 => (0x76, "v"),
        192 => (0x77, "w"),
        193 => (0x78, "x"),
        194 => (0x79, "y"),
        195 => (0x7a, "z"),
        _ => (0, ""),
    }
}

/// The character a key name denotes: a one-character name denotes that character, and the
/// X11 name of an ASCII symbol (`bracketleft`, `space`, ...) denotes the symbol.
pub open spec fn named_character(name: Seq<char>) -> Option<char> {
    if name.len() == 1 {
        Some(name[0])
    } else if name == seq!['a', 'm', 'p', 'e', 'r', 's', 'a', 'n', 'd'] {
        Some('&')
    } else if name == seq!['a', 'p', 'o', 's', 't', 'r', 'o', 'p', 'h', 'e'] {
        Some('\'')
    } else if name == seq!['a', 's', 'c', 'i', 'i', 'c', 'i', 'r', 'c', 'u', 'm'] {
        Some('^')
    } else if name == seq!['a', 's', 'c', 'i', 'i', 't', 'i', 'l', 'd', 'e'] {
        Some('~')
    } else if name == seq!['a', 's', 't', 'e', 'r', 'i', 's', 'k'] {
        Some('*')
    } else if name == seq!['a', 't'] {
        Some('@')
    } else if name == seq!['b', 'a', 'c', 'k', 's', 'l', 'a', 's', 'h'] {
        Some('\\')
    } else if name == seq!['b', 'a', 'r'] {
        Some('|')
    } else if name == seq!['b', 'r', 'a', 'c', 'e', 'l', 'e', 'f', 't'] {
        Some('{')
    } else if name == seq!['b', 'r', 'a', 'c', 'e', 'r', 'i', 'g', 'h', 't'] {
        Some('}')
    } else if name == seq!['b', 'r', 'a', 'c', 'k', 'e', 't', 'l', 'e', 'f', 't'] {
        Some('[')
    } else if name == seq!['b', 'r', 'a', 'c', 'k', 'e', 't', 'r', 'i', 'g', 'h', 't'] {
        Some(']')
    } else if name == seq!['c', 'o', 'l', 'o', 'n'] {
        Some(':')
    } else if name == seq!['c', 'o', 'm', 'm', 'a'] {
        Some(',')
    } else if name == seq!['d', 'o', 'l', 'l', 'a', 'r'] {
        Some('$')
    } else if name == seq!['e', 'q', 'u', 'a', 'l'] {
        Some('=')
    } else if name == seq!['e', 'x', 'c', 'l', 'a', 'm'] {
        Some('!')
    } else if name == seq!['g', 'r', 'a', 'v', 'e'] {
        Some('`')
    } else if name == seq!['g', 'r', 'e', 'a', 't', 'e', 'r'] {
        Some('>')
    } else if name == seq!['l', 'e', 's', 's'] {
        Some('<')
    } else if name == seq!['m', 'i', 'n', 'u', 's'] {
        Some('-')
    } else if name == seq!['n', 'u', 'm', 'b', 'e', 'r', 's', 'i', 'g', 'n'] {
        Some('#')
    } else if name == seq!['p', 'a', 'r', 'e', 'n', 'l', 'e', 'f', 't'] {
        Some('(')
    } else if name == seq!['p', 'a', 'r', 'e', 'n', 'r', 'i', 'g', 'h', 't'] {
        Some(')')
    } else if name == seq!['p', 'e', 'r', 'c', 'e', 'n', 't'] {
        Some('%')
    } else if name == seq!['p', 'e', 'r', 'i', 'o', 'd'] {
        Some('.')
    } else if name == seq!['p', 'l', 'u', 's'] {
        Some('+')
    } else if name == seq!['q', 'u', 'e', 's', 't', 'i', 'o', 'n'] {
        Some('?')
    } else if name == seq!['q', 'u', 'o', 't', 'e', 'd', 'b', 'l'] {
        Some('"')
    } else if name == seq!['q', 'u', 'o', 't', 'e', 'l', 'e', 'f', 't'] {
        Some('`')
    } else if name == seq!['q', 'u', 'o', 't', 'e', 'r', 'i', 'g', 'h', 't'] {
        Some('\'')
    } else if name == seq!['s', 'e', 'm', 'i', 'c', 'o', 'l', 'o', 'n'] {
        Some(';')
    } else if name == seq!['s', 'l', 'a', 's', 'h'] {
        Some('/')
    } else if name == seq!['s', 'p', 'a', 'c', 'e'] {
        Some(' ')
    } else if name == seq!['u', 'n', 'd', 'e', 'r', 's', 'c', 'o', 'r', 'e'] {
        Some('_')
    } else {
        None
    }
}

/// Every entry whose name denotes a character carries that character's code point as its
/// keysym.
pub proof fn lemma_entry_names_its_character(i: usize)
    requires
        i < KEY_TABLE_LEN,
    ensures
        named_character(key_entry(i).1@) matches Some(c) ==> key_entry(i).0 == c as i32,
{
    match i {
        0 => reveal_strlit("0"),
        1 => reveal_strlit("1"),
        2 => reveal_strlit("2"),
        3 => reveal_strlit("3"),
        4 => reveal_strlit("4"),
        5 => reveal_strlit("5"),
        6 => reveal_strlit("6"),
        7 => reveal_strlit("7"),
        8 => reveal_strlit("8"),
        9 => reveal_strlit("9"),
        10 => reveal_strlit("A"),
        11 => reveal_strlit("Alt_L"),
        12 => reveal_strlit("Alt_R"),
        13 => reveal_strlit("B"),
        14 => reveal_strlit("BackSpace"),
        15 => reveal_strlit("Begin"),
        16 => reveal_strlit("Break"),
        17 => reveal_strlit("C"),
        18 => reveal_strlit("Cancel"),
        19 => reveal_strlit("Caps_Lock"),
        20 => reveal_strlit("Clear"),
        21 => reveal_strlit("Control_L"),
        22 => reveal_strlit("Control_R"),
        23 => reveal_strlit("D"),
        24 => reveal_strlit("Delete"),
        25 => reveal_strlit("Down"),
        26 => reveal_strlit("E"),
        27 => reveal_strlit("End"),
        28 => reveal_strlit("Escape"),
        29 => reveal_strlit("Execute"),
        30 => reveal_strlit("F"),
        31 => reveal_strlit("F1"),
        32 => reveal_strlit("F10"),
        33 => reveal_strlit("F11"),
        34 => reveal_strlit("F12"),
        35 => reveal_strlit("F2"),
        36 => reveal_strlit("F3"),
        37 => reveal_strlit("F4"),
        38 => reveal_strlit("F5"),
        39 => reveal_strlit("F6"),
        40 => reveal_strlit("F7"),
        41 => reveal_strlit("F8"),
        42 => reveal_strlit("F9"),
        43 => reveal_strlit("Find"),
        44 => reveal_strlit("G"),
        45 => reveal_strlit("H"),
        46 => reveal_strlit("Help"),
        47 => reveal_strlit("Home"),
        48 => reveal_strlit("Hyper_L"),
        49 => reveal_strlit("Hyper_R"),
        50 => reveal_strlit("I"),
        51 => reveal_strlit("ISO_Left_Tab"),
        52 => reveal_strlit("Insert"),
        53 => reveal_strlit("J"),
        54 => reveal_strlit("K"),
        55 => reveal_strlit("KP_0"),
        56 => reveal_strlit("KP_1"),
        57 => reveal_strlit("KP_2"),
        58 => reveal_strlit("KP_3"),
        59 => reveal_strlit("KP_4"),
        60 => reveal_strlit("KP_5"),
        61 => reveal_strlit("KP_6"),
        62 => reveal_strlit("KP_7"),
        63 => reveal_strlit("KP_8"),
        64 => reveal_strlit("KP_9"),
        65 => reveal_strlit("KP_Add"),
        66 => reveal_strlit("KP_Begin"),
        67 => reveal_strlit("KP_Decimal"),
        68 => reveal_strlit("KP_Delete"),
        69 => reveal_strlit("KP_Divide"),
        70 => reveal_strlit("KP_Down"),
        71 => reveal_strlit("KP_End"),
        72 => reveal_strlit("KP_Enter"),
        73 => reveal_strlit("KP_Equal"),
        74 => reveal_strlit("KP_F1"),
        75 => reveal_strlit("KP_F2"),
        76 => reveal_strlit("KP_F3"),
        77 => reveal_strlit("KP_F4"),
        78 => reveal_strlit("KP_Home"),
        79 => reveal_strlit("KP_Insert"),
        80 => reveal_strlit("KP_Left"),
        81 => reveal_strlit("KP_Multiply"),
        82 => reveal_strlit("KP_Next"),
        83 => reveal_strlit("KP_Page_Down"),
        84 => reveal_strlit("KP_Page_Up"),
        85 => reveal_strlit("KP_Prior"),
        86 => reveal_strlit("KP_Right"),
        87 => reveal_strlit("KP_Separator"),
        88 => reveal_strlit("KP_Space"),
        89 => reveal_strlit("KP_Subtract"),
        90 => reveal_strlit("KP_Tab"),
        91 => reveal_strlit("KP_Up"),
        92 => reveal_strlit("L"),
        93 => reveal_strlit("Left"),
        94 => reveal_strlit("Linefeed"),
        95 => reveal_strlit("M"),
        96 => reveal_strlit("Menu"),
        97 => reveal_strlit("Meta_L"),
        98 => reveal_strlit("Meta_R"),
        99 => reveal_strlit("Mode_switch"),
        100 => reveal_strlit("N"),
        101 => reveal_strlit("Next"),
        102 => reveal_strlit("Num_Lock"),
        103 => reveal_strlit("O"),
        104 => reveal_strlit("P"),
        105 => reveal_strlit("Page_Down"),
        106 => reveal_strlit("Page_Up"),
        107 => reveal_strlit("Pause"),
        108 => reveal_strlit("Print"),
        109 => reveal_strlit("Prior"),
        110 => reveal_strlit("Q"),
        111 => reveal_strlit("R"),
        112 => reveal_strlit("Redo"),
        113 => reveal_strlit("Return"),
        114 => reveal_strlit("Right"),
        115 => reveal_strlit("S"),
        116 => reveal_strlit("Scroll_Lock"),
        117 => reveal_strlit("Select"),
        118 => reveal_strlit("Shift_L"),
        119 => reveal_strlit("Shift_Lock"),
        120 => reveal_strlit("Shift_R"),
        121 => reveal_strlit("Super_L"),
        122 => reveal_strlit("Super_R"),
        123 => reveal_strlit("Sys_Req"),
        124 => reveal_strlit("T"),
        125 => reveal_strlit("Tab"),
        126 => reveal_strlit("U"),
        127 => reveal_strlit("Undo"),
        128 => reveal_strlit("Up"),
        129 => reveal_strlit("V"),
        130 => reveal_strlit("VoidSymbol"),
        131 => reveal_strlit("W"),
        132 => reveal_strlit("X"),
        133 => reveal_strlit("Y"),
        134 => reveal_strlit("Z"),
        135 => reveal_strlit("a"),
        136 => reveal_strlit("ampersand"),
        137 => reveal_strlit("apostrophe"),
        138 => reveal_strlit("asciicircum"),
        139 => reveal_strlit("asciitilde"),
        140 => reveal_strlit("asterisk"),
        141 => reveal_strlit("at"),
        142 => reveal_strlit("b"),
        143 => reveal_strlit("backslash"),
        144 => reveal_strlit("bar"),
        145 => reveal_strlit("braceleft"),
        146 => reveal_strlit("braceright"),
        147 => reveal_strlit("bracketleft"),
        148 => reveal_strlit("bracketright"),
        149 => reveal_strlit("c"),
        150 => reveal_strlit("colon"),
        151 => reveal_strlit("comma"),
        152 => reveal_strlit("d"),
        153 => reveal_strlit("dollar"),
        154 => reveal_strlit("e"),
        155 => reveal_strlit("equal"),
        156 => reveal_strlit("exclam"),
        157 => reveal_strlit("f"),
        158 => reveal_strlit("g"),
        159 => reveal_strlit("grave"),
        160 => reveal_strlit("greater"),
        161 => reveal_strlit("h"),
        162 => reveal_strlit("i"),
        163 => reveal_strlit("j"),
        164 => reveal_strlit("k"),
        165 => reveal_strlit("l"),
        166 => reveal_strlit("less"),
        167 => reveal_strlit("m"),
        168 => reveal_strlit("minus"),
        169 => reveal_strlit("n"),
        170 => reveal_strlit("numbersign"),
        171 => reveal_strlit("o"),
        172 => reveal_strlit("p"),
        173 => reveal_strlit("parenleft"),
        174 => reveal_strlit("parenright"),
        175 => reveal_strlit("percent"),
        176 => reveal_strlit("period"),
        177 => reveal_strlit("plus"),
        178 => reveal_strlit("q"),
        179 => reveal_strlit("question"),
        180 => reveal_strlit("quotedbl"),
        181 => reveal_strlit("quoteleft"),
        182 => reveal_strlit("quoteright"),
        183 => reveal_strlit("r"),
        184 => reveal_strlit("s"),
        185 => reveal_strlit("semicolon"),
        186 => reveal_strlit("slash"),
        187 => reveal_strlit("space"),
        188 => reveal_strlit("t"),
        189 => reveal_strlit("u"),
        190 => reveal_strlit("underscore"),
        191 => reveal_strlit("v"),
        192 => reveal_strlit("w"),
        193 => reveal_strlit("x"),
        194 => reveal_strlit("y"),
        195 => reveal_strlit("z"),
        _ => {},
    }
}

/// Every name in the table has at least one character.
pub proof fn lemma_key_names_nonempty(i: usize)
    requires
        i < KEY_TABLE_LEN,
    ensures
        key_entry(i).1@.len() > 0,
{
    match i {
        0 => reveal_strlit("0"),
        1 => reveal_strlit("1"),
        2 => reveal_strlit("2"),
        3 => reveal_strlit("3"),
        4 => reveal_strlit("4"),
        5 => reveal_strlit("5"),
        6 => reveal_strlit("6"),
        7 => reveal_strlit("7"),
        8 => reveal_strlit("8"),
        9 => reveal_strlit("9"),
        10 => reveal_strlit("A"),
        11 => reveal_strlit("Alt_L"),
        12 => reveal_strlit("Alt_R"),
        13 => reveal_strlit("B"),
        14 => reveal_strlit("BackSpace"),
        15 => reveal_strlit("Begin"),
        16 => reveal_strlit("Break"),
        17 => reveal_strlit("C"),
        18 => reveal_strlit("Cancel"),
        19 => reveal_strlit("Caps_Lock"),
        20 => reveal_strlit("Clear"),
        21 => reveal_strlit("Control_L"),
        22 => reveal_strlit("Control_R"),
        23 => reveal_strlit("D"),
        24 => reveal_strlit("Delete"),
        25 => reveal_strlit("Down"),
        26 => reveal_strlit("E"),
        27 => reveal_strlit("End"),
        28 => reveal_strlit("Escape"),
        29 => reveal_strlit("Execute"),
        30 => reveal_strlit("F"),
        31 => reveal_strlit("F1"),
        32 => reveal_strlit("F10"),
        33 => reveal_strlit("F11"),
        34 => reveal_strlit("F12"),
        35 => reveal_strlit("F2"),
        36 => reveal_strlit("F3"),
        37 => reveal_strlit("F4"),
        38 => reveal_strlit("F5"),
        39 => reveal_strlit("F6"),
        40 => reveal_strlit("F7"),
        41 => reveal_strlit("F8"),
        42 => reveal_strlit("F9"),
        43 => reveal_strlit("Find"),
        44 => reveal_strlit("G"),
        45 => reveal_strlit("H"),
        46 => reveal_strlit("Help"),
        47 => reveal_strlit("Home"),
        48 => reveal_strlit("Hyper_L"),
        49 => reveal_strlit("Hyper_R"),
        50 => reveal_strlit("I"),
        51 => reveal_strlit("ISO_Left_Tab"),
        52 => reveal_strlit("Insert"),
        53 => reveal_strlit("J"),
        54 => reveal_strlit("K"),
        55 => reveal_strlit("KP_0"),
        56 => reveal_strlit("KP_1"),
        57 => reveal_strlit("KP_2"),
        58 => reveal_strlit("KP_3"),
        59 => reveal_strlit("KP_4"),
        60 => reveal_strlit("KP_5"),
        61 => reveal_strlit("KP_6"),
        62 => reveal_strlit("KP_7"),
        63 => reveal_strlit("KP_8"),
        64 => reveal_strlit("KP_9"),
        65 => reveal_strlit("KP_Add"),
        66 => reveal_strlit("KP_Begin"),
        67 => reveal_strlit("KP_Decimal"),
        68 => reveal_strlit("KP_Delete"),
        69 => reveal_strlit("KP_Divide"),
        70 => reveal_strlit("KP_Down"),
        71 => reveal_strlit("KP_End"),
        72 => reveal_strlit("KP_Enter"),
        73 => reveal_strlit("KP_Equal"),
        74 => reveal_strlit("KP_F1"),
        75 => reveal_strlit("KP_F2"),
        76 => reveal_strlit("KP_F3"),
        77 => reveal_strlit("KP_F4"),
        78 => reveal_strlit("KP_Home"),
        79 => reveal_strlit("KP_Insert"),
        80 => reveal_strlit("KP_Left"),
        81 => reveal_strlit("KP_Multiply"),
        82 => reveal_strlit("KP_Next"),
        83 => reveal_strlit("KP_Page_Down"),
        84 => reveal_strlit("KP_Page_Up"),
        85 => reveal_strlit("KP_Prior"),
        86 => reveal_strlit("KP_Right"),
        87 => reveal_strlit("KP_Separator"),
        88 => reveal_strlit("KP_Space"),
        89 => reveal_strlit("KP_Subtract"),
        90 => reveal_strlit("KP_Tab"),
        91 => reveal_strlit("KP_Up"),
        92 => reveal_strlit("L"),
        93 => reveal_strlit("Left"),
        94 => reveal_strlit("Linefeed"),
        95 => reveal_strlit("M"),
        96 => reveal_strlit("Menu"),
        97 => reveal_strlit("Meta_L"),
        98 => reveal_strlit("Meta_R"),
        99 => reveal_strlit("Mode_switch"),
        100 => reveal_strlit("N"),
        101 => reveal_strlit("Next"),
        102 => reveal_strlit("Num_Lock"),
        103 => reveal_strlit("O"),
        104 => reveal_strlit("P"),
        105 => reveal_strlit("Page_Down"),
        106 => reveal_strlit("Page_Up"),
        107 => reveal_strlit("Pause"),
        108 => reveal_strlit("Print"),
        109 => reveal_strlit("Prior"),
        110 => reveal_strlit("Q"),
        111 => reveal_strlit("R"),
        112 => reveal_strlit("Redo"),
        113 => reveal_strlit("Return"),
        114 => reveal_strlit("Right"),
        115 => reveal_strlit("S"),
        116 => reveal_strlit("Scroll_Lock"),
        117 => reveal_strlit("Select"),
        118 => reveal_strlit("Shift_L"),
        119 => reveal_strlit("Shift_Lock"),
        120 => reveal_strlit("Shift_R"),
        121 => reveal_strlit("Super_L"),
        122 => reveal_strlit("Super_R"),
        123 => reveal_strlit("Sys_Req"),
        124 => reveal_strlit("T"),
        125 => reveal_strlit("Tab"),
        126 => reveal_strlit("U"),
        127 => reveal_strlit("Undo"),
        128 => reveal_strlit("Up"),
        129 => reveal_strlit("V"),
        130 => reveal_strlit("VoidSymbol"),
        131 => reveal_strlit("W"),
        132 => reveal_strlit("X"),
        133 => reveal_strlit("Y"),
        134 => reveal_strlit("Z"),
        135 => reveal_strlit("a"),
        136 => reveal_strlit("ampersand"),
        137 => reveal_strlit("apostrophe"),
        138 => reveal_strlit("asciicircum"),
        139 => reveal_strlit("asciitilde"),
        140 => reveal_strlit("asterisk"),
        141 => reveal_strlit("at"),
        142 => reveal_strlit("b"),
        143 => reveal_strlit("backslash"),
        144 => reveal_strlit("bar"),
        145 => reveal_strlit("braceleft"),
        146 => reveal_strlit("braceright"),
        147 => reveal_strlit("bracketleft"),
        148 => reveal_strlit("bracketright"),
        149 => reveal_strlit("c"),
        150 => reveal_strlit("colon"),
        151 => reveal_strlit("comma"),
        152 => reveal_strlit("d"),
        153 => reveal_strlit("dollar"),
        154 => reveal_strlit("e"),
        155 => reveal_strlit("equal"),
        156 => reveal_strlit("exclam"),
        157 => reveal_strlit("f"),
        158 => reveal_strlit("g"),
        159 => reveal_strlit("grave"),
        160 => reveal_strlit("greater"),
        161 => reveal_strlit("h"),
        162 => reveal_strlit("i"),
        163 => reveal_strlit("j"),
        164 => reveal_strlit("k"),
        165 => reveal_strlit("l"),
        166 => reveal_strlit("less"),
        167 => reveal_strlit("m"),
        168 => reveal_strlit("minus"),
        169 => reveal_strlit("n"),
        170 => reveal_strlit("numbersign"),
        171 => reveal_strlit("o"),
        172 => reveal_strlit("p"),
        173 => reveal_strlit("parenleft"),
        174 => reveal_strlit("parenright"),
        175 => reveal_strlit("percent"),
        176 => reveal_strlit("period"),
        177 => reveal_strlit("plus"),
        178 => reveal_strlit("q"),
        179 => reveal_strlit("question"),
        180 => reveal_strlit("quotedbl"),
        181 => reveal_strlit("quoteleft"),
        182 => reveal_strlit("quoteright"),
        183 => reveal_strlit("r"),
        184 => reveal_strlit("s"),
        185 => reveal_strlit("semicolon"),
        186 => reveal_strlit("slash"),
        187 => reveal_strlit("space"),
        188 => reveal_strlit("t"),
        189 => reveal_strlit("u"),
        190 => reveal_strlit("underscore"),
        191 => reveal_strlit("v"),
        192 => reveal_strlit("w"),
        193 => reveal_strlit("x"),
        194 => reveal_strlit("y"),
        195 => reveal_strlit("z"),
        _ => {},
    }
}

} // verus!
