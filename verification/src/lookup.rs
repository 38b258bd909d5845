//! Character lookup: the pinyin and code hint rows for the characters left of the cursor.

use vstd::prelude::*;
use crate::pinyin::PinyinIndex;
use crate::tables::{reading_table_contents, text_views, ReadingTable};
use crate::text::{push_str, to_owned_string};

verus! {

/// Segment tag of the character lookup.
pub const TAG: &'static str = "char_to_sound_shape";
/// Characters left of the cursor that the rows show.
pub const BEFORE: usize = 1;

/// Unicode `White_Space` characters (what `char::is_whitespace` accepts).
pub open spec fn unicode_space(c: char) -> bool {
    let v = c as u32;
    (0x09 <= v && v <= 0x0d) || v == 0x20 || v == 0x85 || v == 0xa0 || v == 0x1680 || (0x2000 <= v && v <= 0x200a)
        || v == 0x2028 || v == 0x2029 || v == 0x202f || v == 0x205f || v == 0x3000
}

fn is_space(c: char) -> (space: bool)
    ensures
        space == unicode_space(c),
{
    let v = c as u32;
    (0x09 <= v && v <= 0x0d) || v == 0x20 || v == 0x85 || v == 0xa0 || v == 0x1680 || (0x2000 <= v && v <= 0x200a)
        || v == 0x2028 || v == 0x2029 || v == 0x202f || v == 0x205f || v == 0x3000
}

/// `parts` joined with `separator`.
pub open spec fn joined_with(parts: Seq<Seq<char>>, separator: Seq<char>) -> Seq<char>
    decreases parts.len(),
{
    if parts.len() == 0 {
        Seq::empty()
    } else if parts.len() == 1 {
        parts[0]
    } else {
        joined_with(parts.drop_last(), separator) + separator + parts.last()
    }
}

fn join(parts: &Vec<String>, separator: &str) -> (text: String)
    ensures
        text@ == joined_with(text_views(parts@), separator@),
{
    let mut out = String::new();
    let mut i: usize = 0;
    let ghost views = text_views(parts@);
    assert(views.take(0) =~= Seq::<Seq<char>>::empty());
    while i < parts.len()
        invariant
            i <= parts@.len(),
            views == text_views(parts@),
            out@ == joined_with(views.take(i as int), separator@),
        decreases parts.len() - i,
    {
        proof {
            assert(views.take(i + 1).drop_last() =~= views.take(i as int));
            assert(views.take(i + 1).last() == parts@[i as int]@);
            if i == 0 {
                assert(views.take(1).len() == 1);
            }
        }
        if i > 0 {
            push_str(&mut out, separator);
        }
        push_str(&mut out, parts[i].as_str());
        proof {
            if i == 0 {
                assert(out@ =~= joined_with(views.take(1), separator@));
            } else {
                assert(out@ =~= joined_with(views.take(i + 1), separator@));
            }
        }
        i = i + 1;
    }
    assert(views.take(i as int) =~= views);
    out
}

/// The texts of a character in a table, joined by `/`, or `?` when it has none.
pub open spec fn listed_or_unknown(table: Map<char, Seq<Seq<char>>>, c: char) -> Seq<char> {
    if table.contains_key(c) && table[c].len() > 0 { joined_with(table[c], "/"@) } else { "?"@ }
}

/// The hint parts for the characters `chars[start..end]`, whitespace skipped.
pub open spec fn hint_parts(chars: Seq<char>, table: Map<char, Seq<Seq<char>>>, start: int, end: int) -> Seq<Seq<char>>
    decreases end - start,
{
    if end <= start {
        Seq::empty()
    } else {
        let before = hint_parts(chars, table, start, end - 1);
        if unicode_space(chars[end - 1]) { before } else { before.push(listed_or_unknown(table, chars[end - 1])) }
    }
}

/// The window of characters the rows show: up to [`BEFORE`] characters ending at the cursor.
pub open spec fn window(length: int, cursor_chars: int) -> (int, int) {
    let cursor = if cursor_chars < length { cursor_chars } else { length };
    let start = if cursor >= BEFORE { cursor - BEFORE } else { 0 };
    (start, cursor)
}

fn hint_for(table: Option<&Vec<String>>) -> (text: String)
    ensures
        text@ == match table {
            Some(list) => if list@.len() > 0 { joined_with(text_views(list@), "/"@) } else { "?"@ },
            None => "?"@,
        },
{
    match table {
        Some(list) => if list.len() > 0 {
            join(list, "/")
        } else {
            to_owned_string("?")
        },
        None => to_owned_string("?"),
    }
}

/// The two hint rows of the character lookup for `text` with the cursor at `cursor_chars`
/// characters: `咅` and the readings, `虍` and the codes, of the characters left of the cursor.
pub fn rows(index: &PinyinIndex, character_codes: &ReadingTable, text: &str, cursor_chars: usize) -> (hints: (String, String))
    ensures
        ({
            let (start, end) = window(text@.len() as int, cursor_chars as int);
            &&& hints.0@ == "咅 "@ + joined_with(hint_parts(text@, index@, start, end), "  "@)
            &&& hints.1@ == "虍 "@ + joined_with(hint_parts(text@, reading_table_contents(*character_codes), start, end), "  "@)
        }),
{
    let chars = crate::learning::char_vec(text);
    let cursor = if cursor_chars < chars.len() { cursor_chars } else { chars.len() };
    let start = if cursor >= BEFORE { cursor - BEFORE } else { 0 };
    let mut pinyin_parts: Vec<String> = Vec::new();
    let mut code_parts: Vec<String> = Vec::new();
    let mut i = start;
    while i < cursor
        invariant
            start <= i <= cursor <= chars@.len(),
            chars@ == text@,
            text_views(pinyin_parts@) == hint_parts(text@, index@, start as int, i as int),
            text_views(code_parts@) == hint_parts(text@, reading_table_contents(*character_codes), start as int, i as int),
        decreases cursor - i,
    {
        let ch = chars[i];
        if !is_space(ch) {
            let readings = index.character_pinyin(ch);
            let reading = if readings.len() > 0 {
                let mut list: Vec<String> = Vec::new();
                let mut k: usize = 0;
                while k < readings.len()
                    invariant
                        k <= readings@.len(),
                        text_views(list@) == text_views(readings@).take(k as int),
                    decreases readings.len() - k,
                {
                    let ghost before = list@;
                    list.push(readings[k].clone());
                    assert(text_views(list@) =~= text_views(before).push(readings@[k as int]@));
                    assert(text_views(readings@).take(k + 1) =~= text_views(readings@).take(k as int).push(readings@[k as int]@));
                    k = k + 1;
                }
                assert(text_views(readings@).take(k as int) =~= text_views(readings@));
                join(&list, "/")
            } else {
                to_owned_string("?")
            };
            let code = hint_for(character_codes.get(ch));
            let ghost pinyin_before = pinyin_parts@;
            let ghost code_before = code_parts@;
            pinyin_parts.push(reading);
            code_parts.push(code);
            proof {
                assert(text_views(pinyin_parts@) =~= text_views(pinyin_before).push(reading@));
                assert(text_views(code_parts@) =~= text_views(code_before).push(code@));
            }
        }
        i = i + 1;
    }
    let mut pinyin_row = to_owned_string("咅 ");
    push_str(&mut pinyin_row, join(&pinyin_parts, "  ").as_str());
    let mut code_row = to_owned_string("虍 ");
    push_str(&mut code_row, join(&code_parts, "  ").as_str());
    (pinyin_row, code_row)
}

/// Law: each row shows the one character left of the cursor (the cursor taken within the
/// text): nothing at the start of the text or after whitespace, else the character's texts
/// in the row's table joined by `/`, or `?` when it has none. The window is that one
/// character: it ends at the cursor and starts one character before it.
pub proof fn law_rows_show_the_character_left_of_the_cursor(
    text: Seq<char>,
    table: Map<char, Seq<Seq<char>>>,
    cursor_chars: int,
)
    requires
        cursor_chars >= 0,
    ensures
        ({
            let k = if cursor_chars < text.len() { cursor_chars } else { text.len() as int };
            let (start, end) = window(text.len() as int, cursor_chars);
            &&& k > 0 ==> start == k - 1 && end == k
            &&& k == 0 ==> start == 0 && end == 0
            &&& joined_with(hint_parts(text, table, start, end), "  "@) == if k == 0 || unicode_space(text[k - 1]) {
                Seq::<char>::empty()
            } else {
                listed_or_unknown(table, text[k - 1])
            }
        }),
{
    let (start, end) = window(text.len() as int, cursor_chars);
    if end > 0 {
        assert(start == end - 1);
        assert(hint_parts(text, table, start, end - 1) == Seq::<Seq<char>>::empty());
    }
}

} // verus!
