//! The text side of correction learning: character views, the tag filter, the
//! length-prefixed frames that key learning records, and the record hash.

use vstd::prelude::*;
use vstd::string::StringSliceAdditionalSpecFns;
use vstd::slice::slice_subrange;
use vstd::utf8::{decode_utf8, encode_utf8, is_char_boundary, valid_utf8};
use crate::tables::{position_table_contents, PositionTable};
use crate::text::{decimal_digits, hex_digits, push_char, push_decimal, push_hex, push_str, str_eq, zero_pad};

verus! {

/// Longest part that a frame accepts (bytes).
pub const MAX_FRAME_PART: usize = 8192;

/// Path node of a diff candidate (raw and text lengths at a segment end).
#[derive(Clone, Debug)]
pub struct DiffPathNode {
    pub raw_length: usize,
    pub text_length: usize,
}

/// Diff candidate: text plus its path (`path[0]` is the outermost node).
#[derive(Clone, Debug)]
pub struct DiffItem {
    pub text: String,
    pub path: Vec<DiffPathNode>,
}

// ---------------------------------------------------------------- UTF-8

pub open spec fn in_range(byte: u8, low: u8, high: u8) -> bool {
    low <= byte <= high
}

/// `bytes[index]` exists and is a continuation byte.
pub open spec fn continuation_at(bytes: Seq<u8>, index: int) -> bool {
    0 <= index < bytes.len() && in_range(bytes[index], 0x80, 0xBF)
}

/// Length of the strictly valid UTF-8 sequence starting at `index`, if one starts there.
pub open spec fn spec_utf8_len_at(bytes: Seq<u8>, index: int) -> Option<usize> {
    if !(0 <= index < bytes.len()) {
        None
    } else {
        let a = bytes[index];
        if a < 0x80 {
            Some(1)
        } else if in_range(a, 0xC2, 0xDF) && continuation_at(bytes, index + 1) {
            Some(2)
        } else if in_range(a, 0xE0, 0xEF) && continuation_at(bytes, index + 1) && continuation_at(
            bytes,
            index + 2,
        ) {
            let b = bytes[index + 1];
            if !(a == 0xE0 && b < 0xA0) && !(a == 0xED && b >= 0xA0) {
                Some(3)
            } else {
                None
            }
        } else if in_range(a, 0xF0, 0xF4) && continuation_at(bytes, index + 1) && continuation_at(
            bytes,
            index + 2,
        ) && continuation_at(bytes, index + 3) {
            let b = bytes[index + 1];
            if !(a == 0xF0 && b < 0x90) && !(a == 0xF4 && b >= 0x90) {
                Some(4)
            } else {
                None
            }
        } else {
            None
        }
    }
}

fn continuation(bytes: &[u8], index: usize) -> (found: bool)
    ensures
        found == continuation_at(bytes@, index as int),
{
    index < bytes.len() && 0x80 <= bytes[index] && bytes[index] <= 0xBF
}

/// Length of the strict UTF-8 sequence at `index` (`None` when none starts there).
pub fn utf8_len_at(bytes: &[u8], index: usize) -> (length: Option<usize>)
    ensures
        length == spec_utf8_len_at(bytes@, index as int),
{
    if index >= bytes.len() {
        return None;
    }
    let a = bytes[index];
    if a < 0x80 {
        return Some(1);
    }
    if 0xC2 <= a && a <= 0xDF && continuation(bytes, index + 1) {
        return Some(2);
    }
    if 0xE0 <= a && a <= 0xEF && continuation(bytes, index + 1) && continuation(bytes, index + 2) {
        let b = bytes[index + 1];
        if !(a == 0xE0 && b < 0xA0) && !(a == 0xED && b >= 0xA0) {
            return Some(3);
        }
        return None;
    }
    if 0xF0 <= a && a <= 0xF4 && continuation(bytes, index + 1) && continuation(bytes, index + 2)
        && continuation(bytes, index + 3) {
        let b = bytes[index + 1];
        if !(a == 0xF0 && b < 0x90) && !(a == 0xF4 && b >= 0x90) {
            return Some(4);
        }
        return None;
    }
    None
}

/// The characters of `text`, in order.
pub fn char_vec(text: &str) -> (list: Vec<char>)
    ensures
        list@ == text@,
{
    let mut list: Vec<char> = Vec::new();
    for c in it: text.chars()
        invariant
            it.seq() == text@,
            list@ == text@.take(it.index()),
    {
        proof {
            assert(text@.take(it.index() + 1) =~= list@.push(c));
        }
        list.push(c);
    }
    proof {
        assert(text@.take(text@.len() as int) =~= text@);
    }
    list
}

/// The characters of `text`; a string slice is always well-formed UTF-8, so this is never `None`.
pub fn chars(text: &str) -> (list: Option<Vec<char>>)
    ensures
        list matches Some(l) && l@ == text@,
{
    Some(char_vec(text))
}

/// Number of characters in `text`.
pub fn character_count(text: &str) -> (count: usize)
    ensures
        count == text@.len(),
{
    char_vec(text).len()
}

// ---------------------------------------------------------------- tag filter

/// Bytes that a tag may not hold: NUL, C0 controls, DEL and braces.
pub open spec fn forbidden_byte(byte: u8) -> bool {
    byte == 0 || in_range(byte, 0x01, 0x1F) || byte == 0x7F || byte == 0x7B || byte == 0x7D
}

/// A private-use sequence (`U+E000..U+F8FF` shapes) starts at byte `index`.
pub open spec fn private_use_at(bytes: Seq<u8>, index: int) -> bool {
    ||| (bytes[index] == 0xEE && index + 2 < bytes.len() && in_range(bytes[index + 1], 0x80, 0xBF)
        && in_range(bytes[index + 2], 0x80, 0xBF))
    ||| (bytes[index] == 0xEF && index + 2 < bytes.len() && in_range(bytes[index + 1], 0x80, 0xA3)
        && in_range(bytes[index + 2], 0x80, 0xBF))
}

/// Characters usable as a learning tag: 1 to 16 characters, no control bytes, no braces,
/// no private-use characters.
pub open spec fn static_chars(text: Seq<char>) -> bool {
    &&& 1 <= text.len() <= 16
    &&& forall|i: int|
        0 <= i < encode_utf8(text).len() ==> !forbidden_byte(#[trigger] encode_utf8(text)[i])
            && !private_use_at(encode_utf8(text), i)
}

/// A text usable as a learning tag.
pub open spec fn spec_static_text(text: &str) -> bool {
    static_chars(text@)
}

/// Whether `text` may be learned as a tag.
pub fn static_text(text: &str) -> (accepted: bool)
    ensures
        accepted == spec_static_text(text),
{
    let count = character_count(text);
    if count == 0 || count > 16 {
        return false;
    }
    let bytes = text.as_bytes();
    let mut index: usize = 0;
    while index < bytes.len()
        invariant
            bytes@ == text.spec_bytes(),
            index <= bytes.len(),
            forall|i: int|
                0 <= i < index ==> !forbidden_byte(#[trigger] bytes@[i]) && !private_use_at(
                    bytes@,
                    i,
                ),
        decreases bytes.len() - index,
    {
        let byte = bytes[index];
        if byte == 0 || (0x01 <= byte && byte <= 0x1F) || byte == 0x7F || byte == 0x7B || byte
            == 0x7D {
            assert(forbidden_byte(bytes@[index as int]));
            return false;
        }
        if byte == 0xEE && bytes.len() - index > 2 && 0x80 <= bytes[index + 1] && bytes[index + 1]
            <= 0xBF && 0x80 <= bytes[index + 2] && bytes[index + 2] <= 0xBF {
            assert(private_use_at(bytes@, index as int));
            return false;
        }
        if byte == 0xEF && bytes.len() - index > 2 && 0x80 <= bytes[index + 1] && bytes[index + 1]
            <= 0xA3 && 0x80 <= bytes[index + 2] && bytes[index + 2] <= 0xBF {
            assert(private_use_at(bytes@, index as int));
            return false;
        }
        index = index + 1;
    }
    true
}

// ---------------------------------------------------------------- context

/// The last two characters of `text` (the whole text when it is shorter).
pub open spec fn spec_context(text: Seq<char>) -> Seq<char> {
    if text.len() <= 2 {
        text
    } else {
        text.subrange(text.len() - 2, text.len() as int)
    }
}

/// The learning context of a text: its last two characters.
pub fn context(text: &str) -> (tail: String)
    ensures
        tail@ == spec_context(text@),
{
    let list = char_vec(text);
    let start = if list.len() > 2 { list.len() - 2 } else { 0 };
    let mut out = String::new();
    let mut index = start;
    while index < list.len()
        invariant
            list@ == text@,
            start <= index <= list.len(),
            start == (if list.len() > 2 { list.len() - 2 } else { 0 }),
            out@ == list@.subrange(start as int, index as int),
        decreases list.len() - index,
    {
        push_char(&mut out, list[index]);
        index = index + 1;
        assert(out@ =~= list@.subrange(start as int, index as int));
    }
    assert(out@ =~= spec_context(text@));
    out
}

// ---------------------------------------------------------------- frames

/// One frame part: the byte length in decimal, `:`, then the part itself.
pub open spec fn frame_part(part: Seq<char>) -> Seq<char> {
    decimal_digits(encode_utf8(part).len()).push(':') + part
}

/// The frame of `parts`: each part framed, in order.
pub open spec fn spec_frame(parts: Seq<Seq<char>>) -> Seq<char>
    decreases parts.len(),
{
    if parts.len() == 0 {
        seq![]
    } else {
        spec_frame(parts.drop_last()) + frame_part(parts.last())
    }
}

/// Frames a list of string slices (the record key format).
pub fn key(parts: &[&str]) -> (framed: String)
    ensures
        framed@ == spec_frame(parts@.map_values(|p: &str| p@)),
{
    let mut out = String::new();
    let mut index: usize = 0;
    let ghost views = parts@.map_values(|p: &str| p@);
    while index < parts.len()
        invariant
            index <= parts.len(),
            views == parts@.map_values(|p: &str| p@),
            out@ == spec_frame(views.take(index as int)),
        decreases parts.len() - index,
    {
        let part = parts[index];
        let ghost before = out@;
        let byte_length = part.as_bytes().len();
        push_decimal(&mut out, byte_length as u64);
        push_char(&mut out, ':');
        push_str(&mut out, part);
        proof {
            assert(views.take(index as int + 1).drop_last() =~= views.take(index as int));
            assert(views.take(index as int + 1).last() == part@);
            assert(byte_length == encode_utf8(part@).len());
            assert(out@ =~= before + frame_part(part@));
            assert(out@ =~= spec_frame(views.take(index as int + 1)));
        }
        index = index + 1;
    }
    assert(views.take(parts.len() as int) =~= views);
    out
}

/// Frames a list of strings.
pub fn frame(values: &[String]) -> (framed: String)
    ensures
        framed@ == spec_frame(values@.map_values(|v: String| v@)),
{
    let mut out = String::new();
    let mut index: usize = 0;
    let ghost views = values@.map_values(|v: String| v@);
    while index < values.len()
        invariant
            index <= values.len(),
            views == values@.map_values(|v: String| v@),
            out@ == spec_frame(views.take(index as int)),
        decreases values.len() - index,
    {
        let part = values[index].as_str();
        let ghost before = out@;
        let byte_length = part.as_bytes().len();
        push_decimal(&mut out, byte_length as u64);
        push_char(&mut out, ':');
        push_str(&mut out, part);
        proof {
            assert(byte_length == encode_utf8(part@).len());
            assert(out@ =~= before + frame_part(part@));
            assert(views.take(index as int + 1).drop_last() =~= views.take(index as int));
            assert(views.take(index as int + 1).last() == part@);
            assert(out@ =~= spec_frame(views.take(index as int + 1)));
        }
        index = index + 1;
    }
    assert(views.take(values.len() as int) =~= views);
    out
}

/// First index at or after `pos` that does not hold an ASCII digit.
pub open spec fn digit_run_end(bytes: Seq<u8>, pos: int) -> int
    decreases bytes.len() - pos,
{
    if pos < 0 || pos >= bytes.len() || !in_range(bytes[pos], 0x30, 0x39) {
        pos
    } else {
        digit_run_end(bytes, pos + 1)
    }
}

/// Value of the ASCII decimal digits `bytes[start..end]`.
pub open spec fn decimal_value(bytes: Seq<u8>, start: int, end: int) -> nat
    decreases end - start,
{
    if end <= start {
        0
    } else {
        decimal_value(bytes, start, end - 1) * 10 + (bytes[end - 1] - 0x30) as nat
    }
}

/// The parts of a frame, as byte ranges of `bytes`, read from `pos`; `None` for a
/// malformed frame, an over-long part or a part that does not fall on character boundaries.
pub open spec fn unframe_from(bytes: Seq<u8>, pos: int) -> Option<Seq<Seq<u8>>>
    decreases bytes.len() - pos,
{
    if pos < 0 || pos >= bytes.len() {
        Some(seq![])
    } else {
        let digits_end = digit_run_end(bytes, pos);
        proof {
            lemma_digit_run_end_bounds(bytes, pos);
        }
        if digits_end == pos || digits_end >= bytes.len() || bytes[digits_end] != 0x3A {
            None
        } else {
            let length = decimal_value(bytes, pos, digits_end);
            let start = digits_end + 1;
            let end = start + length;
            if length > MAX_FRAME_PART || end > bytes.len() || !is_char_boundary(bytes, start)
                || !is_char_boundary(bytes, end) {
                None
            } else {
                match unframe_from(bytes, end) {
                    None => None,
                    Some(rest) => Some(seq![bytes.subrange(start, end)] + rest),
                }
            }
        }
    }
}

pub proof fn lemma_digit_run_end_bounds(bytes: Seq<u8>, pos: int)
    requires
        0 <= pos <= bytes.len(),
    ensures
        pos <= digit_run_end(bytes, pos) <= bytes.len(),
        forall|i: int| pos <= i < digit_run_end(bytes, pos) ==> in_range(#[trigger] bytes[i], 0x30, 0x39),
        digit_run_end(bytes, pos) < bytes.len() ==> !in_range(bytes[digit_run_end(bytes, pos)], 0x30, 0x39),
    decreases bytes.len() - pos,
{
    if pos < bytes.len() && in_range(bytes[pos], 0x30, 0x39) {
        lemma_digit_run_end_bounds(bytes, pos + 1);
    }
}

/// `std::str::get`: the sub-slice `s[start..end]`, `None` unless both ends are character
/// boundaries within the string.
#[verifier::external_body]
pub(crate) fn str_get(s: &str, start: usize, end: usize) -> (part: Option<&str>)
    ensures
        part is Some <==> (start <= end <= s.spec_bytes().len() && is_char_boundary(s.spec_bytes(), start as int) && is_char_boundary(s.spec_bytes(), end as int)),
        part matches Some(p) ==> p.spec_bytes() == s.spec_bytes().subrange(start as int, end as int),
{
    s.get(start..end)
}

/// Splits a frame back into its parts (`None` for a malformed frame).
pub fn unframe(value: &str) -> (parts: Option<Vec<String>>)
    ensures
        match parts {
            None => unframe_from(value.spec_bytes(), 0) is None,
            Some(list) => unframe_from(value.spec_bytes(), 0) matches Some(ranges) && list.len()
                == ranges.len() && forall|i: int|
                0 <= i < list.len() ==> encode_utf8(#[trigger] list@[i]@) == ranges[i],
        },
{
    let bytes = value.as_bytes();
    let ghost all = value.spec_bytes();
    let mut result: Vec<String> = Vec::new();
    let mut position: usize = 0;
    while position < bytes.len()
        invariant
            bytes@ == all,
            all == value.spec_bytes(),
            position <= bytes.len(),
            unframe_from(all, 0) is Some <==> unframe_from(all, position as int) is Some,
            unframe_from(all, position as int) matches Some(rest) ==> unframe_from(all, 0)
                == Some(result@.map_values(|s: String| encode_utf8(s@)) + rest),
        decreases bytes.len() - position,
    {
        proof {
            lemma_digit_run_end_bounds(all, position as int);
        }
        let mut digit_end = position;
        let mut length: usize = 0;
        while digit_end < bytes.len() && 0x30 <= bytes[digit_end] && bytes[digit_end] <= 0x39
            invariant
                bytes@ == all,
                position <= digit_end <= bytes.len(),
                digit_run_end(all, position as int) == digit_run_end(all, digit_end as int),
                length as nat == if decimal_value(all, position as int, digit_end as int) > 8193 {
                    8193
                } else {
                    decimal_value(all, position as int, digit_end as int)
                },
            decreases bytes.len() - digit_end,
        {
            let digit = (bytes[digit_end] - 0x30) as usize;
            length = if length > 819 { 8193 } else {
                let next = length * 10 + digit;
                if next > 8193 { 8193 } else { next }
            };
            digit_end = digit_end + 1;
        }
        if digit_end == position || digit_end >= bytes.len() || bytes[digit_end] != 0x3A {
            return None;
        }
        if length > MAX_FRAME_PART || length > bytes.len() - (digit_end + 1) {
            return None;
        }
        let start = digit_end + 1;
        let end = start + length;
        match str_get(value, start, end) {
            None => {
                return None;
            },
            Some(part) => {
                let owned = crate::text::to_owned_string(part);
                proof {
                    let rest = unframe_from(all, end as int);
                    assert(owned@ == part@);
                    assert(encode_utf8(owned@) == part.spec_bytes());
                    if let Some(tail) = rest {
                        let left = result@.push(owned).map_values(|s: String| encode_utf8(s@));
                        assert(left =~= result@.map_values(|s: String| encode_utf8(s@)).push(
                            all.subrange(start as int, end as int),
                        ));
                        assert(left + tail =~= result@.map_values(|s: String| encode_utf8(s@))
                            + (seq![all.subrange(start as int, end as int)] + tail));
                    }
                }
                result.push(owned);
                position = end;
            },
        }
    }
    proof {
        assert(result@.map_values(|s: String| encode_utf8(s@)) + Seq::<Seq<u8>>::empty()
            =~= result@.map_values(|s: String| encode_utf8(s@)));
    }
    Some(result)
}

// ---------------------------------------------------------------- hash

/// First accumulator of the record hash (FNV-like, modulo 2^32).
pub open spec fn hash_a(bytes: Seq<u8>) -> nat
    decreases bytes.len(),
{
    if bytes.len() == 0 {
        2166136261
    } else {
        ((hash_a(bytes.drop_last()) * 65599 + bytes.last()) % 4294967296) as nat
    }
}

/// Second accumulator of the record hash (djb2-like, modulo 2^32).
pub open spec fn hash_b(bytes: Seq<u8>) -> nat
    decreases bytes.len(),
{
    if bytes.len() == 0 {
        5381
    } else {
        ((hash_b(bytes.drop_last()) * 33 + bytes.last()) % 4294967296) as nat
    }
}

/// The record hash as text: both accumulators in 8-digit lower-case hex.
pub open spec fn spec_hash(bytes: Seq<u8>) -> Seq<char> {
    zero_pad(hex_digits(hash_a(bytes)), 8) + zero_pad(hex_digits(hash_b(bytes)), 8)
}

/// Hashes raw bytes (any bytes, not only UTF-8).
pub fn hash_bytes(text: &[u8]) -> (digest: String)
    ensures
        digest@ == spec_hash(text@),
{
    let mut a: u64 = 2166136261;
    let mut b: u64 = 5381;
    let mut index: usize = 0;
    while index < text.len()
        invariant
            index <= text.len(),
            a == hash_a(text@.take(index as int)),
            b == hash_b(text@.take(index as int)),
            a < 4294967296,
            b < 4294967296,
        decreases text.len() - index,
    {
        proof {
            assert(text@.take(index as int + 1).drop_last() =~= text@.take(index as int));
        }
        let byte = text[index] as u64;
        a = (a * 65599 + byte) % 4294967296;
        b = (b * 33 + byte) % 4294967296;
        index = index + 1;
    }
    assert(text@.take(text.len() as int) =~= text@);
    let mut out = String::new();
    push_hex(&mut out, a, 8);
    push_hex(&mut out, b, 8);
    assert(out@ =~= spec_hash(text@));
    out
}

/// Hashes the UTF-8 bytes of a text.
pub fn hash(text: &str) -> (digest: String)
    ensures
        digest@ == spec_hash(text.spec_bytes()),
{
    hash_bytes(text.as_bytes())
}

// ---------------------------------------------------------------- fusion keys

/// Mode of pairwise fusion records: empty stays empty (no learning), else `fusion-v1|mode`.
pub open spec fn spec_fusion_mode(mode: Seq<char>) -> Seq<char> {
    if mode.len() == 0 {
        seq![]
    } else {
        seq!['f', 'u', 's', 'i', 'o', 'n', '-', 'v', '1', '|'] + mode
    }
}

pub fn fusion_mode(mode: &str) -> (fused: String)
    ensures
        fused@ == spec_fusion_mode(mode@),
{
    let mut out = String::new();
    if mode.is_empty() {
        return out;
    }
    push_str(&mut out, "fusion-v1|");
    push_str(&mut out, mode);
    proof {
        reveal_strlit("fusion-v1|");
    }
    assert(out@ =~= spec_fusion_mode(mode@));
    out
}

/// Bytes hashed for a pair record: `raw \0D\0 direct \0C\0 composed`.
pub open spec fn pair_bytes(raw: Seq<u8>, direct: Seq<u8>, composed: Seq<u8>) -> Seq<u8> {
    raw + seq![0u8, 0x44u8, 0u8] + direct + seq![0u8, 0x43u8, 0u8] + composed
}

/// Record code of a direct/composed preference pair: `~f` and the hash of the pair bytes.
pub fn fusion_pair_code(raw: &[u8], direct: &str, composed: &str) -> (code: String)
    ensures
        code@ == seq!['~', 'f'] + spec_hash(pair_bytes(raw@, direct.spec_bytes(), composed.spec_bytes())),
{
    let mut framed: Vec<u8> = Vec::new();
    framed.extend_from_slice(raw);
    framed.push(0);
    framed.push(0x44);
    framed.push(0);
    framed.extend_from_slice(direct.as_bytes());
    framed.push(0);
    framed.push(0x43);
    framed.push(0);
    framed.extend_from_slice(composed.as_bytes());
    assert(framed@ =~= pair_bytes(raw@, direct.spec_bytes(), composed.spec_bytes()));
    let digest = hash_bytes(framed.as_slice());
    let mut out = String::new();
    push_char(&mut out, '~');
    push_char(&mut out, 'f');
    push_str(&mut out, digest.as_str());
    assert(out@ =~= seq!['~', 'f'] + spec_hash(framed@));
    out
}

/// The preference event of a direct/composed pair (its time is stamped by the caller):
/// mode `fusion-v1|mode`, the pair's record code, text `D` when the direct side wins and
/// `C` otherwise, an empty context, input `[0, raw_end)` and text `[0, 1)`. No event
/// without a mode.
pub fn fusion_event(
    mode: &str,
    raw: &[u8],
    direct: &str,
    composed: &str,
    direct_wins: bool,
    raw_end: usize,
) -> (event: Option<DiffEvent>)
    ensures
        event is None <==> mode@.len() == 0,
        event matches Some(e) ==> {
            &&& e.mode@ == spec_fusion_mode(mode@)
            &&& e.code@ == seq!['~', 'f'] + spec_hash(pair_bytes(raw@, direct.spec_bytes(), composed.spec_bytes()))
            &&& e.text@ == (if direct_wins { seq!['D'] } else { seq!['C'] })
            &&& e.context@.len() == 0
            &&& e.raw_start == 0
            &&& e.raw_end == raw_end
            &&& e.text_start == 0
            &&& e.text_end == 1
        },
{
    if mode.is_empty() {
        return None;
    }
    let mut text = String::new();
    push_char(&mut text, if direct_wins { 'D' } else { 'C' });
    Some(DiffEvent {
        mode: fusion_mode(mode),
        code: fusion_pair_code(raw, direct, composed),
        text,
        context: String::new(),
        raw_start: 0,
        raw_end,
        text_start: 0,
        text_end: 1,
    })
}

// ---------------------------------------------------------------- record checks

/// A mode is 1 to 512 bytes long.
pub fn mode_valid(mode: &str) -> (valid: bool)
    ensures
        valid == (mode@.len() != 0 && mode.spec_bytes().len() <= 512),
{
    !mode.is_empty() && mode.as_bytes().len() <= 512
}

/// A code is 1 to 128 bytes long.
pub fn code_valid(code: &str) -> (valid: bool)
    ensures
        valid == (code@.len() != 0 && code.spec_bytes().len() <= 128),
{
    !code.is_empty() && code.as_bytes().len() <= 128
}

/// A context is empty or one or two characters.
pub fn context_valid(context: &str) -> (valid: bool)
    ensures
        valid == (context@.len() <= 2),
{
    if context.is_empty() {
        return true;
    }
    let count = character_count(context);
    count != 0 && count <= 2
}

/// The code of a summary key: its first frame part (empty when the key is no frame).
pub fn summary_code(summary_key: &str) -> (code: String)
    ensures
        match unframe_from(summary_key.spec_bytes(), 0) {
            Some(parts) if parts.len() > 0 => encode_utf8(code@) == parts[0],
            _ => code@.len() == 0,
        },
{
    match unframe(summary_key) {
        Some(parts) => {
            if parts.len() > 0 {
                parts[0].clone()
            } else {
                String::new()
            }
        },
        None => String::new(),
    }
}

/// `text[start..end]`, or empty when the range does not fall on character boundaries.
pub fn slice(text: &str, start: usize, end: usize) -> (part: String)
    ensures
        if start <= end <= text.spec_bytes().len() && is_char_boundary(text.spec_bytes(), start as int) && is_char_boundary(text.spec_bytes(), end as int) {
            encode_utf8(part@) == text.spec_bytes().subrange(start as int, end as int)
        } else {
            part@.len() == 0
        },
{
    match str_get(text, start, end) {
        Some(piece) => crate::text::to_owned_string(piece),
        None => String::new(),
    }
}

// ---------------------------------------------------------------- corrections

/// A correction found by `diff`: the learning mode, the input code (lower case), the
/// corrected text, its context, and the input and text byte ranges it covers.
#[derive(Clone, Debug, PartialEq)]
pub struct DiffEvent {
    pub mode: String,
    pub code: String,
    pub text: String,
    pub context: String,
    pub raw_start: usize,
    pub raw_end: usize,
    pub text_start: usize,
    pub text_end: usize,
}

/// An event without its code: mode, text, context, input range and text range.
pub open spec fn event_fields(event: DiffEvent) -> (Seq<char>, Seq<char>, Seq<char>, usize, usize, usize, usize) {
    (event.mode@, event.text@, event.context@, event.raw_start, event.raw_end, event.text_start, event.text_end)
}

/// The positive input lengths of a path's nodes, in path order.
pub open spec fn raw_ends(path: Seq<DiffPathNode>) -> Seq<usize>
    decreases path.len(),
{
    if path.len() == 0 {
        Seq::empty()
    } else if path.last().raw_length > 0 {
        raw_ends(path.drop_last()).push(path.last().raw_length)
    } else {
        raw_ends(path.drop_last())
    }
}

/// Input length → text length along a path: `0 → 0`, then each node with a positive input
/// length (a later node replaces an earlier one).
pub open spec fn boundary_map(path: Seq<DiffPathNode>) -> Map<usize, usize>
    decreases path.len(),
{
    if path.len() == 0 {
        map![0usize => 0usize]
    } else if path.last().raw_length > 0 {
        boundary_map(path.drop_last()).insert(path.last().raw_length, path.last().text_length)
    } else {
        boundary_map(path.drop_last())
    }
}

/// `sorted` with `value` placed before the first larger element.
pub open spec fn insert_sorted(sorted: Seq<usize>, value: usize) -> Seq<usize>
    decreases sorted.len(),
{
    if sorted.len() == 0 {
        seq![value]
    } else if sorted[0] > value {
        seq![value] + sorted
    } else {
        seq![sorted[0]] + insert_sorted(sorted.drop_first(), value)
    }
}

/// The values in ascending order.
pub open spec fn ascending(values: Seq<usize>) -> Seq<usize>
    decreases values.len(),
{
    if values.len() == 0 {
        Seq::empty()
    } else {
        insert_sorted(ascending(values.drop_last()), values.last())
    }
}

/// Walking the ends from index `i` (having reached input `raw_at` and text `text_at`), each
/// end moves both positions strictly forward within the text, and the walk ends at the end
/// of input and text.
pub open spec fn ends_walk(ends: Seq<usize>, map: Map<usize, usize>, i: int, raw_at: int, text_at: int, raw_len: int, text_len: int) -> bool
    decreases ends.len() - i,
{
    if i < 0 || i >= ends.len() {
        raw_at == raw_len && text_at == text_len
    } else {
        &&& map.contains_key(ends[i])
        &&& raw_at < ends[i]
        &&& text_at < map[ends[i]] <= text_len
        &&& ends_walk(ends, map, i + 1, ends[i] as int, map[ends[i]] as int, raw_len, text_len)
    }
}

/// The segment boundaries of a candidate over an input of `raw_len` bytes: the position
/// map and the ascending input ends, when they cover input and text consistently.
pub open spec fn spec_boundaries(item: DiffItem, raw_len: int) -> Option<(Map<usize, usize>, Seq<usize>)> {
    let map = boundary_map(item.path@);
    let ends = ascending(raw_ends(item.path@));
    if ends_walk(ends, map, 0, 0, 0, raw_len, encode_utf8(item.text@).len() as int) {
        Some((map, ends))
    } else {
        None
    }
}

/// `text[start..end]` by bytes, empty unless both ends are character boundaries.
pub open spec fn text_slice(text: Seq<char>, start: int, end: int) -> Seq<char> {
    let bytes = encode_utf8(text);
    if 0 <= start <= end <= bytes.len() && is_char_boundary(bytes, start) && is_char_boundary(bytes, end) {
        decode_utf8(bytes.subrange(start, end))
    } else {
        Seq::empty()
    }
}

/// The value under `key`, 0 when absent.
pub open spec fn position_or_zero(map: Map<usize, usize>, key: usize) -> usize {
    if map.contains_key(key) {
        map[key]
    } else {
        0
    }
}

/// The events of the ends from index `i` on, the previous shared end being `first`: at
/// each end both candidates share, the selected text between the shared ends becomes an
/// event when it starts at or after `floor`, differs from the replaced text and may be
/// learned.
pub open spec fn diff_from(
    before: Seq<char>,
    selected: Seq<char>,
    floor: usize,
    mode: Seq<char>,
    a: Map<usize, usize>,
    ends: Seq<usize>,
    b: Map<usize, usize>,
    i: int,
    first: usize,
) -> Seq<(Seq<char>, Seq<char>, Seq<char>, usize, usize, usize, usize)>
    decreases ends.len() - i,
{
    if i < 0 || i >= ends.len() {
        Seq::empty()
    } else {
        let last = ends[i];
        if b.contains_key(last) {
            let b_first = position_or_zero(b, first);
            let text = text_slice(selected, b_first as int, b[last] as int);
            let rest = diff_from(before, selected, floor, mode, a, ends, b, i + 1, last);
            if first >= floor && text != text_slice(before, position_or_zero(a, first) as int, position_or_zero(a, last) as int)
                && static_chars(text) {
                seq![(mode, text, spec_context(text_slice(selected, 0, b_first as int)), first, last, b_first, b[last])] + rest
            } else {
                rest
            }
        } else {
            diff_from(before, selected, floor, mode, a, ends, b, i + 1, first)
        }
    }
}

/// The corrections between the candidate shown before and the one selected over input of
/// `raw_len` bytes: none unless both exist, differ in text and have consistent boundaries.
pub open spec fn spec_diff(raw_len: int, before: Option<DiffItem>, selected: Option<DiffItem>, floor: usize, mode: Seq<char>)
    -> Seq<(Seq<char>, Seq<char>, Seq<char>, usize, usize, usize, usize)> {
    match (before, selected) {
        (Some(old_item), Some(new_item)) => if old_item.text@ == new_item.text@ {
            Seq::empty()
        } else {
            match (spec_boundaries(old_item, raw_len), spec_boundaries(new_item, raw_len)) {
                (Some(a), Some(b)) => diff_from(old_item.text@, new_item.text@, floor, mode, a.0, a.1, b.0, 0, 0),
                _ => Seq::empty(),
            }
        },
        _ => Seq::empty(),
    }
}

/// ASCII lower case of each byte.
pub open spec fn lower_bytes(bytes: Seq<u8>) -> Seq<u8> {
    bytes.map_values(|byte: u8| crate::decode::ascii_lower(byte))
}

/// An event covers input bytes, and its code is the lossy decoding of their ASCII lower
/// case (for UTF-8 input, their lower case).
pub open spec fn event_in_input(raw: Seq<u8>, event: DiffEvent) -> bool {
    &&& event.raw_start <= event.raw_end <= raw.len()
    &&& event.code@ == crate::session::lossy_text(lower_bytes(raw.subrange(event.raw_start as int, event.raw_end as int)))
    &&& valid_utf8(lower_bytes(raw.subrange(event.raw_start as int, event.raw_end as int))) ==> encode_utf8(event.code@)
        == lower_bytes(raw.subrange(event.raw_start as int, event.raw_end as int))
}

/// The fields of a list of events.
pub open spec fn events_fields(events: Seq<DiffEvent>) -> Seq<(Seq<char>, Seq<char>, Seq<char>, usize, usize, usize, usize)> {
    events.map_values(|event: DiffEvent| event_fields(event))
}

/// Inserting before the first larger element, found at `k`.
proof fn lemma_insert_at(sorted: Seq<usize>, value: usize, k: int)
    requires
        0 <= k <= sorted.len(),
        forall|j: int| 0 <= j < k ==> sorted[j] <= value,
        k < sorted.len() ==> sorted[k] > value,
    ensures
        insert_sorted(sorted, value) == sorted.take(k).push(value) + sorted.skip(k),
    decreases k,
{
    if k == 0 {
        assert(sorted.take(0).push(value) + sorted.skip(0) =~= insert_sorted(sorted, value));
    } else {
        lemma_insert_at(sorted.drop_first(), value, k - 1);
        assert(seq![sorted[0]] + (sorted.drop_first().take(k - 1).push(value) + sorted.drop_first().skip(k - 1))
            =~= sorted.take(k).push(value) + sorted.skip(k));
    }
}

/// A walk keeps the ends ascending and within the input.
proof fn lemma_walk_bounds(ends: Seq<usize>, map: Map<usize, usize>, i: int, raw_at: int, text_at: int, raw_len: int, text_len: int)
    requires
        0 <= i,
        ends_walk(ends, map, i, raw_at, text_at, raw_len, text_len),
    ensures
        forall|j: int| i <= j < ends.len() ==> raw_at < #[trigger] ends[j] <= raw_len,
        forall|j: int, k: int| i <= j < k < ends.len() ==> ends[j] < ends[k],
    decreases ends.len() - i,
{
    if i < ends.len() {
        lemma_walk_bounds(ends, map, i + 1, ends[i] as int, map[ends[i]] as int, raw_len, text_len);
        if i + 1 < ends.len() {
            assert(ends[i] < ends[i + 1]);
        } else {
            assert(ends_walk(ends, map, i + 1, ends[i] as int, map[ends[i]] as int, raw_len, text_len));
            assert(ends[i] == raw_len);
        }
    }
}

/// Inserts `value` into an ascending list before its first larger element.
fn insert_in_order(list: &mut Vec<usize>, value: usize)
    ensures
        final(list)@ == insert_sorted(old(list)@, value),
{
    let mut k: usize = 0;
    while k < list.len() && list[k] <= value
        invariant
            k <= list.len(),
            list@ == old(list)@,
            forall|j: int| 0 <= j < k ==> list@[j] <= value,
        decreases list.len() - k,
    {
        k = k + 1;
    }
    proof {
        lemma_insert_at(list@, value, k as int);
    }
    list.insert(k, value);
    assert(list@ =~= old(list)@.take(k as int).push(value) + old(list)@.skip(k as int));
}

/// The segment boundaries of a candidate (`spec_boundaries`).
fn boundaries(item: &DiffItem, raw_len: usize) -> (found: Option<(PositionTable, Vec<usize>)>)
    ensures
        match found {
            Some(parts) => spec_boundaries(*item, raw_len as int) == Some((position_table_contents(parts.0), parts.1@)),
            None => spec_boundaries(*item, raw_len as int) is None,
        },
{
    let mut map = PositionTable::new();
    map.insert(0, 0);
    let mut ends: Vec<usize> = Vec::new();
    let mut i: usize = 0;
    assert(position_table_contents(map) =~= boundary_map(item.path@.take(0)));
    assert(ends@ =~= ascending(raw_ends(item.path@.take(0))));
    while i < item.path.len()
        invariant
            i <= item.path@.len(),
            position_table_contents(map) == boundary_map(item.path@.take(i as int)),
            ends@ == ascending(raw_ends(item.path@.take(i as int))),
        decreases item.path.len() - i,
    {
        let node = &item.path[i];
        proof {
            assert(item.path@.take(i + 1).drop_last() =~= item.path@.take(i as int));
            assert(item.path@.take(i + 1).last() == item.path@[i as int]);
        }
        let ghost prior = raw_ends(item.path@.take(i as int));
        if node.raw_length > 0 {
            map.insert(node.raw_length, node.text_length);
            insert_in_order(&mut ends, node.raw_length);
            proof {
                assert(raw_ends(item.path@.take(i + 1)) == prior.push(node.raw_length));
                assert(prior.push(node.raw_length).drop_last() =~= prior);
            }
        } else {
            assert(raw_ends(item.path@.take(i + 1)) == prior);
        }
        i = i + 1;
    }
    assert(item.path@.take(i as int) =~= item.path@);
    let ghost table = position_table_contents(map);
    let text_len = item.text.as_str().as_bytes().len();
    let mut raw_at: usize = 0;
    let mut text_at: usize = 0;
    let mut k: usize = 0;
    while k < ends.len()
        invariant
            k <= ends@.len(),
            table == position_table_contents(map),
            table == boundary_map(item.path@),
            ends@ == ascending(raw_ends(item.path@)),
            text_len == encode_utf8(item.text@).len(),
            ends_walk(ends@, table, 0, 0, 0, raw_len as int, text_len as int) == ends_walk(
                ends@,
                table,
                k as int,
                raw_at as int,
                text_at as int,
                raw_len as int,
                text_len as int,
            ),
        decreases ends.len() - k,
    {
        let last = ends[k];
        let mapped = match map.get(last) {
            Some(value) => value,
            None => {
                assert(!ends_walk(ends@, table, k as int, raw_at as int, text_at as int, raw_len as int, text_len as int));
                return None;
            },
        };
        if last <= raw_at || mapped <= text_at || mapped > text_len {
            assert(!ends_walk(ends@, table, k as int, raw_at as int, text_at as int, raw_len as int, text_len as int));
            return None;
        }
        raw_at = last;
        text_at = mapped;
        k = k + 1;
    }
    if raw_at != raw_len || text_at != text_len {
        return None;
    }
    Some((map, ends))
}

/// ASCII lower case of each byte.
fn lowercase_bytes(bytes: &[u8]) -> (lowered: Vec<u8>)
    ensures
        lowered@ == lower_bytes(bytes@),
{
    let mut out: Vec<u8> = Vec::new();
    let mut i: usize = 0;
    while i < bytes.len()
        invariant
            i <= bytes.len(),
            out@ == lower_bytes(bytes@.take(i as int)),
        decreases bytes.len() - i,
    {
        let byte = bytes[i];
        let lower = if 0x41 <= byte && byte <= 0x5a { byte + 0x20 } else { byte };
        out.push(lower);
        assert(lower_bytes(bytes@.take(i + 1)) =~= lower_bytes(bytes@.take(i as int)).push(lower));
        i = i + 1;
    }
    assert(bytes@.take(i as int) =~= bytes@);
    out
}

/// The corrections between the candidate shown before and the one selected (`spec_diff`);
/// each event's code is the lower-cased input it covers.
pub fn diff(raw: &[u8], before: Option<&DiffItem>, selected: Option<&DiffItem>, floor: usize, mode: &str) -> (events: Vec<DiffEvent>)
    ensures
        events_fields(events@) == spec_diff(
            raw@.len() as int,
            match before { Some(item) => Some(*item), None => None },
            match selected { Some(item) => Some(*item), None => None },
            floor,
            mode@,
        ),
        forall|k: int| 0 <= k < events@.len() ==> event_in_input(raw@, #[trigger] events@[k]),
{
    let (before, selected) = match (before, selected) {
        (Some(b), Some(s)) => (b, s),
        _ => {
            return Vec::new();
        },
    };
    if str_eq(before.text.as_str(), selected.text.as_str()) {
        return Vec::new();
    }
    let (a, ends) = match boundaries(before, raw.len()) {
        Some(found) => found,
        None => {
            return Vec::new();
        },
    };
    let (b, _) = match boundaries(selected, raw.len()) {
        Some(found) => found,
        None => {
            return Vec::new();
        },
    };
    let ghost a_map = position_table_contents(a);
    let ghost b_map = position_table_contents(b);
    let ghost all = diff_from(before.text@, selected.text@, floor, mode@, a_map, ends@, b_map, 0, 0);
    proof {
        lemma_walk_bounds(ends@, a_map, 0, 0, 0, raw@.len() as int, encode_utf8(before.text@).len() as int);
    }
    let mut result: Vec<DiffEvent> = Vec::new();
    let mut first: usize = 0;
    let mut i: usize = 0;
    while i < ends.len()
        invariant
            i <= ends@.len(),
            a_map == position_table_contents(a),
            b_map == position_table_contents(b),
            forall|j: int| 0 <= j < ends@.len() ==> 0 < #[trigger] ends@[j] <= raw@.len(),
            forall|j: int, k: int| 0 <= j < k < ends@.len() ==> ends@[j] < ends@[k],
            i == 0 ==> first == 0,
            i > 0 ==> first <= ends@[i - 1],
            all == events_fields(result@) + diff_from(before.text@, selected.text@, floor, mode@, a_map, ends@, b_map, i as int, first),
            forall|k: int| 0 <= k < result@.len() ==> event_in_input(raw@, #[trigger] result@[k]),
        decreases ends.len() - i,
    {
        let last = ends[i];
        proof {
            if i > 0 {
                assert(ends@[i - 1] < ends@[i as int]);
            }
        }
        match b.get(last) {
            Some(b_last) => {
                let b_first = match b.get(first) {
                    Some(value) => value,
                    None => 0,
                };
                let a_first = match a.get(first) {
                    Some(value) => value,
                    None => 0,
                };
                let a_last = match a.get(last) {
                    Some(value) => value,
                    None => 0,
                };
                let text = slice(selected.text.as_str(), b_first, b_last);
                let replaced = slice(before.text.as_str(), a_first, a_last);
                proof {
                    vstd::utf8::encode_utf8_decode_utf8(text@);
                    vstd::utf8::encode_utf8_decode_utf8(replaced@);
                    assert(text@ == text_slice(selected.text@, b_first as int, b_last as int));
                    assert(replaced@ == text_slice(before.text@, a_first as int, a_last as int));
                }
                let ghost rest = diff_from(before.text@, selected.text@, floor, mode@, a_map, ends@, b_map, i + 1, last);
                if first >= floor && !str_eq(text.as_str(), replaced.as_str()) && static_text(text.as_str()) {
                    assert(first <= last && last <= raw@.len());
                    let lowered = lowercase_bytes(slice_subrange(raw, first, last));
                    let code = crate::session::string_from_utf8_lossy(lowered.as_slice());
                    let prefix: &str = match str_get(selected.text.as_str(), 0, b_first) {
                        Some(part) => part,
                        None => "",
                    };
                    proof {
                        reveal_strlit("");
                        vstd::utf8::encode_utf8_decode_utf8(prefix@);
                        assert(prefix@ == text_slice(selected.text@, 0, b_first as int));
                    }
                    let tail = context(prefix);
                    let event = DiffEvent {
                        mode: crate::text::to_owned_string(mode),
                        code,
                        text,
                        context: tail,
                        raw_start: first,
                        raw_end: last,
                        text_start: b_first,
                        text_end: b_last,
                    };
                    let ghost before_events = result@;
                    assert(event_in_input(raw@, event));
                    result.push(event);
                    proof {
                        assert forall|k: int| 0 <= k < result@.len() implies event_in_input(raw@, #[trigger] result@[k]) by {
                            if k < before_events.len() {
                                assert(result@[k] == before_events[k]);
                            }
                        }
                        assert(events_fields(result@) =~= events_fields(before_events).push(event_fields(event)));
                        assert(events_fields(result@) + rest =~= events_fields(before_events) + (seq![event_fields(event)] + rest));
                    }
                }
                first = last;
            },
            None => {},
        }
        i = i + 1;
    }
    assert(events_fields(result@) + Seq::empty() =~= events_fields(result@));
    result
}

// ---------------------------------------------------------------- frame laws

/// Encoding a concatenation encodes each part.
pub proof fn lemma_encode_concat(a: Seq<char>, b: Seq<char>)
    ensures
        encode_utf8(a + b) == encode_utf8(a) + encode_utf8(b),
    decreases a.len(),
{
    if a.len() == 0 {
        assert(a + b =~= b);
        assert(encode_utf8(a) + encode_utf8(b) =~= encode_utf8(b));
    } else {
        assert((a + b).drop_first() =~= a.drop_first() + b);
        assert((a + b)[0] == a[0]);
        lemma_encode_concat(a.drop_first(), b);
        assert(encode_utf8(a + b) =~= encode_utf8(a) + encode_utf8(b));
    }
}

/// The UTF-8 byte of a decimal digit character.
pub proof fn lemma_digit_byte(d: int)
    requires
        0 <= d < 10,
    ensures
        encode_utf8(seq![crate::text::hex_char(d)]) == seq![(0x30 + d) as u8],
{
    let c = crate::text::hex_char(d);
    assert(seq![c].drop_first() =~= Seq::<char>::empty());
    let v = c as u32;
    assert(v == 0x30 + d);
    assert(v & 0x7f == v) by (bit_vector)
        requires
            v < 0x80,
    ;
    assert(vstd::utf8::encode_scalar(v) == seq![vstd::utf8::leading_byte_width_1(v)]);
    assert(vstd::utf8::leading_byte_width_1(v) == (0x30 + d) as u8);
    assert(encode_utf8(seq![c]) =~= vstd::utf8::encode_scalar(v) + encode_utf8(Seq::<char>::empty()));
    assert(encode_utf8(seq![c]) =~= seq![(0x30 + d) as u8]);
}

/// The bytes of `decimal_digits(n)`: ASCII digits whose decimal value is `n`.
pub proof fn lemma_decimal_bytes(n: nat)
    ensures
        encode_utf8(decimal_digits(n)).len() >= 1,
        forall|i: int| 0 <= i < encode_utf8(decimal_digits(n)).len() ==> in_range(#[trigger] encode_utf8(decimal_digits(n))[i], 0x30, 0x39),
        decimal_value(encode_utf8(decimal_digits(n)), 0, encode_utf8(decimal_digits(n)).len() as int) == n,
    decreases n,
{
    if n < 10 {
        lemma_digit_byte(n as int);
        let bytes = encode_utf8(decimal_digits(n));
        assert(bytes == seq![(0x30 + n) as u8]);
        assert(decimal_value(bytes, 0, 0) == 0);
    } else {
        lemma_decimal_bytes(n / 10);
        lemma_digit_byte((n % 10) as int);
        let head = decimal_digits(n / 10);
        let last = crate::text::hex_char((n % 10) as int);
        assert(decimal_digits(n) == head.push(last));
        assert(head.push(last) =~= head + seq![last]);
        lemma_encode_concat(head, seq![last]);
        let bytes = encode_utf8(decimal_digits(n));
        let front = encode_utf8(head);
        assert(bytes =~= front + seq![(0x30 + n % 10) as u8]);
        lemma_decimal_value_window(bytes, 0, front.len() as int, front);
        assert(decimal_value(bytes, 0, bytes.len() as int) == decimal_value(bytes, 0, front.len() as int) * 10 + (n % 10));
    }
}

/// The decimal value of a window depends only on the bytes in it.
pub proof fn lemma_decimal_value_window(bytes: Seq<u8>, start: int, end: int, window: Seq<u8>)
    requires
        0 <= start <= end <= bytes.len(),
        window.len() >= end - start,
        forall|i: int| 0 <= i < end - start ==> bytes[start + i] == window[i],
    ensures
        decimal_value(bytes, start, end) == decimal_value(window, 0, end - start),
    decreases end - start,
{
    if end > start {
        lemma_decimal_value_window(bytes, start, end - 1, window);
        assert(bytes[end - 1] == window[end - start - 1]);
    }
}

/// A run of digits ends at the first byte that is not a digit.
pub proof fn lemma_digit_run(bytes: Seq<u8>, start: int, end: int)
    requires
        0 <= start <= end < bytes.len(),
        forall|i: int| start <= i < end ==> in_range(#[trigger] bytes[i], 0x30, 0x39),
        !in_range(bytes[end], 0x30, 0x39),
    ensures
        digit_run_end(bytes, start) == end,
    decreases end - start,
{
    if start < end {
        lemma_digit_run(bytes, start + 1, end);
    }
}

/// Where one valid encoding meets another is a character boundary of the whole.
pub proof fn lemma_boundary_at_join(a: Seq<u8>, b: Seq<u8>)
    requires
        valid_utf8(a),
        valid_utf8(b),
    ensures
        valid_utf8(a + b),
        is_char_boundary(a + b, a.len() as int),
{
    vstd::utf8::valid_utf8_concat(a, b);
    if b.len() == 0 {
        assert(a + b =~= a);
        vstd::utf8::is_char_boundary_start_end_of_seq(a);
    } else {
        assert(is_char_boundary(b, 0));
        vstd::utf8::is_char_boundary_iff_is_leading_byte(b, 0);
        assert((a + b)[a.len() as int] == b[0]);
        vstd::utf8::is_char_boundary_iff_is_leading_byte(a + b, a.len() as int);
    }
}

/// A frame split at its first part.
pub proof fn lemma_frame_front(parts: Seq<Seq<char>>)
    requires
        parts.len() > 0,
    ensures
        spec_frame(parts) == frame_part(parts[0]) + spec_frame(parts.drop_first()),
    decreases parts.len(),
{
    if parts.len() == 1 {
        assert(parts.drop_first() =~= Seq::<Seq<char>>::empty());
        assert(parts.drop_last() =~= Seq::<Seq<char>>::empty());
        assert(spec_frame(parts) =~= frame_part(parts[0]) + spec_frame(parts.drop_first()));
    } else {
        lemma_frame_front(parts.drop_last());
        assert(parts.drop_last().drop_first() =~= parts.drop_first().drop_last());
        assert(parts.drop_first().last() == parts.last());
        assert(parts.drop_last()[0] == parts[0]);
        assert(spec_frame(parts) =~= frame_part(parts[0]) + spec_frame(parts.drop_first()));
    }
}

/// The frame of `parts` read back from position `prefix.len()` of `prefix + frame`.
proof fn lemma_unframe_after(prefix: Seq<u8>, parts: Seq<Seq<char>>)
    requires
        valid_utf8(prefix),
        forall|i: int| 0 <= i < parts.len() ==> encode_utf8(#[trigger] parts[i]).len() <= MAX_FRAME_PART,
    ensures
        unframe_from(prefix + encode_utf8(spec_frame(parts)), prefix.len() as int)
            == Some(parts.map_values(|p: Seq<char>| encode_utf8(p))),
    decreases parts.len(),
{
    let whole = prefix + encode_utf8(spec_frame(parts));
    vstd::utf8::encode_utf8_valid_utf8(spec_frame(parts));
    if parts.len() == 0 {
        assert(parts.map_values(|p: Seq<char>| encode_utf8(p)) =~= Seq::<Seq<u8>>::empty());
        assert(encode_utf8(spec_frame(parts)) =~= Seq::<u8>::empty());
    } else {
        let part = parts[0];
        let rest = parts.drop_first();
        let encoded = encode_utf8(part);
        let length = encoded.len();
        let digits = encode_utf8(decimal_digits(length));
        lemma_frame_front(parts);
        lemma_encode_concat(frame_part(part), spec_frame(rest));
        lemma_encode_concat(decimal_digits(length).push(':'), part);
        assert(decimal_digits(length).push(':') =~= decimal_digits(length) + seq![':']);
        lemma_encode_concat(decimal_digits(length), seq![':']);
        assert(encode_utf8(seq![':']) == seq![0x3au8]) by {
            let c = ':';
            assert(seq![c].drop_first() =~= Seq::<char>::empty());
            let v = c as u32;
            assert(v == 0x3a);
            assert(v & 0x7f == v) by (bit_vector)
                requires
                    v < 0x80,
            ;
            assert(vstd::utf8::encode_scalar(v) == seq![vstd::utf8::leading_byte_width_1(v)]);
            assert(vstd::utf8::leading_byte_width_1(v) == 0x3au8);
            assert(encode_utf8(seq![c]) =~= vstd::utf8::encode_scalar(v) + encode_utf8(Seq::<char>::empty()));
            assert(encode_utf8(seq![c]) =~= seq![0x3au8]);
        }
        let head = prefix + digits + seq![0x3au8];
        let tail = encode_utf8(spec_frame(rest));
        assert(whole =~= head + encoded + tail);
        let pos = prefix.len() as int;
        let digits_end = pos + digits.len();
        lemma_decimal_bytes(length);
        assert forall|i: int| pos <= i < digits_end implies in_range(#[trigger] whole[i], 0x30, 0x39) by {
            assert(whole[i] == digits[i - pos]);
        }
        assert(whole[digits_end] == 0x3a);
        lemma_digit_run(whole, pos, digits_end);
        lemma_decimal_value_window(whole, pos, digits_end, digits);
        let start = digits_end + 1;
        let end = start + length;
        vstd::utf8::encode_utf8_valid_utf8(decimal_digits(length));
        vstd::utf8::encode_utf8_valid_utf8(seq![':']);
        vstd::utf8::encode_utf8_valid_utf8(part);
        lemma_boundary_at_join(prefix, digits);
        lemma_boundary_at_join(prefix + digits, seq![0x3au8]);
        assert(head =~= prefix + digits + seq![0x3au8]);
        vstd::utf8::encode_utf8_valid_utf8(spec_frame(rest));
        vstd::utf8::valid_utf8_concat(encoded, tail);
        lemma_boundary_at_join(head, encoded + tail);
        vstd::utf8::valid_utf8_concat(head, encoded);
        assert(whole =~= head + (encoded + tail));
        lemma_boundary_at_join(head + encoded, tail);
        assert(whole =~= (head + encoded) + tail);
        assert(whole.subrange(start, end) =~= encoded);
        assert forall|i: int| 0 <= i < rest.len() implies encode_utf8(#[trigger] rest[i]).len() <= MAX_FRAME_PART by {
            assert(rest[i] == parts[i + 1]);
        }
        vstd::utf8::valid_utf8_concat(head, encoded);
        lemma_unframe_after(head + encoded, rest);
        assert(parts.map_values(|p: Seq<char>| encode_utf8(p)) =~= seq![encoded] + rest.map_values(
            |p: Seq<char>| encode_utf8(p),
        ));
    }
}

/// Law: a frame reads back into the parts it was made of, as long as no part exceeds
/// [`MAX_FRAME_PART`] bytes.
pub proof fn law_unframe_frame(parts: Seq<Seq<char>>)
    requires
        forall|i: int| 0 <= i < parts.len() ==> encode_utf8(#[trigger] parts[i]).len() <= MAX_FRAME_PART,
    ensures
        unframe_from(encode_utf8(spec_frame(parts)), 0) == Some(parts.map_values(|p: Seq<char>| encode_utf8(p))),
{
    lemma_unframe_after(Seq::empty(), parts);
    assert(Seq::<u8>::empty() + encode_utf8(spec_frame(parts)) =~= encode_utf8(spec_frame(parts)));
}

/// A lower-case hexadecimal digit.
pub open spec fn is_hex_digit(c: char) -> bool {
    (0x30 <= (c as u32) && (c as u32) <= 0x39) || (0x61 <= (c as u32) && (c as u32) <= 0x66)
}

proof fn lemma_hex_char(d: int)
    requires
        0 <= d < 16,
    ensures
        is_hex_digit(crate::text::hex_char(d)),
{
    assert(('0' as u32) == 0x30 && ('9' as u32) == 0x39 && ('a' as u32) == 0x61 && ('f' as u32) == 0x66);
    assert(('1' as u32) == 0x31 && ('2' as u32) == 0x32 && ('3' as u32) == 0x33 && ('4' as u32) == 0x34);
    assert(('5' as u32) == 0x35 && ('6' as u32) == 0x36 && ('7' as u32) == 0x37 && ('8' as u32) == 0x38);
    assert(('b' as u32) == 0x62 && ('c' as u32) == 0x63 && ('d' as u32) == 0x64 && ('e' as u32) == 0x65);
}

proof fn lemma_hex_digits_are_hex(n: nat)
    ensures
        forall|i: int| 0 <= i < hex_digits(n).len() ==> is_hex_digit(#[trigger] hex_digits(n)[i]),
    decreases n,
{
    if n >= 16 {
        lemma_hex_digits_are_hex(n / 16);
        lemma_hex_char((n % 16) as int);
        let head = hex_digits(n / 16);
        assert forall|i: int| 0 <= i < hex_digits(n).len() implies is_hex_digit(#[trigger] hex_digits(n)[i]) by {
            if i < head.len() {
                assert(hex_digits(n)[i] == head[i]);
            }
        }
    } else {
        lemma_hex_char(n as int);
    }
}

proof fn lemma_padded_hex(n: nat)
    requires
        n < 4294967296,
    ensures
        zero_pad(hex_digits(n), 8).len() == 8,
        forall|i: int| 0 <= i < 8 ==> is_hex_digit(#[trigger] zero_pad(hex_digits(n), 8)[i]),
{
    assert(crate::text::pow_nat(16, 8) == 4294967296) by {
        reveal_with_fuel(crate::text::pow_nat, 9);
    }
    crate::text::lemma_digits_len_log(n, 16, 4294967296, 8);
    lemma_hex_digits_are_hex(n);
    let digits = hex_digits(n);
    assert(digits.len() >= 1) by {
        reveal_with_fuel(hex_digits, 2);
    }
    if digits.len() < 8 {
        let pad = Seq::new((8 - digits.len()) as nat, |i: int| '0');
        assert forall|i: int| 0 <= i < 8 implies is_hex_digit(#[trigger] zero_pad(digits, 8)[i]) by {
            if i < pad.len() {
                assert(zero_pad(digits, 8)[i] == '0');
            } else {
                assert(zero_pad(digits, 8)[i] == digits[i - pad.len()]);
            }
        }
    }
}

proof fn lemma_hash_bounds(bytes: Seq<u8>)
    ensures
        hash_a(bytes) < 4294967296,
        hash_b(bytes) < 4294967296,
{
}

/// Law: a record hash is sixteen lower-case hexadecimal digits, whatever the bytes
/// (the hash of a text is that of its UTF-8 bytes: `hash` and `hash_bytes` share
/// [`spec_hash`]).
pub proof fn law_hash_is_sixteen_hex_digits(bytes: Seq<u8>)
    ensures
        spec_hash(bytes).len() == 16,
        forall|i: int| 0 <= i < 16 ==> is_hex_digit(#[trigger] spec_hash(bytes)[i]),
{
    lemma_hash_bounds(bytes);
    lemma_padded_hex(hash_a(bytes));
    lemma_padded_hex(hash_b(bytes));
    let left = zero_pad(hex_digits(hash_a(bytes)), 8);
    let right = zero_pad(hex_digits(hash_b(bytes)), 8);
    assert forall|i: int| 0 <= i < 16 implies is_hex_digit(#[trigger] spec_hash(bytes)[i]) by {
        if i < 8 {
            assert(spec_hash(bytes)[i] == left[i]);
        } else {
            assert(spec_hash(bytes)[i] == right[i - 8]);
        }
    }
}

/// A walk that reached input position `raw_at` has not passed the end of the input.
proof fn lemma_walk_within(ends: Seq<usize>, map: Map<usize, usize>, i: int, raw_at: int, text_at: int, raw_len: int, text_len: int)
    requires
        0 <= i,
        ends_walk(ends, map, i, raw_at, text_at, raw_len, text_len),
    ensures
        raw_at <= raw_len,
    decreases ends.len() - i,
{
    if i < ends.len() {
        lemma_walk_within(ends, map, i + 1, ends[i] as int, map[ends[i]] as int, raw_len, text_len);
    }
}

/// The shape of the events of `diff_from` from index `i` on, the walk of `before`'s
/// boundaries having reached `raw_at` and the previous shared end being `first`.
proof fn lemma_diff_from_shape(
    before: Seq<char>,
    selected: Seq<char>,
    floor: usize,
    mode: Seq<char>,
    a: Map<usize, usize>,
    ends: Seq<usize>,
    b: Map<usize, usize>,
    i: int,
    first: usize,
    raw_at: int,
    text_at: int,
    raw_len: int,
    text_len: int,
)
    requires
        0 <= i,
        first <= raw_at,
        ends_walk(ends, a, i, raw_at, text_at, raw_len, text_len),
    ensures
        ({
            let events = diff_from(before, selected, floor, mode, a, ends, b, i, first);
            &&& forall|k: int| 0 <= k < events.len() ==> {
                let e = #[trigger] events[k];
                &&& first <= e.3
                &&& floor <= e.3 < e.4 <= raw_len
                &&& e.0 == mode
                &&& static_chars(e.1)
                &&& e.1 == text_slice(selected, e.5 as int, e.6 as int)
                &&& e.2 == spec_context(text_slice(selected, 0, e.5 as int))
            }
            &&& forall|k: int| 0 <= k < events.len() - 1 ==> (#[trigger] events[k]).4 <= events[k + 1].3
        }),
    decreases ends.len() - i,
{
    if i < ends.len() {
        let last = ends[i];
        lemma_walk_within(ends, a, i + 1, last as int, a[last] as int, raw_len, text_len);
        assert(raw_at < last);
        if b.contains_key(last) {
            lemma_diff_from_shape(before, selected, floor, mode, a, ends, b, i + 1, last, last as int, a[last] as int, raw_len, text_len);
            let b_first = position_or_zero(b, first);
            let text = text_slice(selected, b_first as int, b[last] as int);
            let rest = diff_from(before, selected, floor, mode, a, ends, b, i + 1, last);
            let events = diff_from(before, selected, floor, mode, a, ends, b, i, first);
            if first >= floor && text != text_slice(before, position_or_zero(a, first) as int, position_or_zero(a, last) as int)
                && static_chars(text) {
                let head = (mode, text, spec_context(text_slice(selected, 0, b_first as int)), first, last, b_first, b[last]);
                assert(events == seq![head] + rest);
                assert forall|k: int| 0 <= k < events.len() implies {
                    let e = #[trigger] events[k];
                    &&& first <= e.3
                    &&& floor <= e.3 < e.4 <= raw_len
                    &&& e.0 == mode
                    &&& static_chars(e.1)
                    &&& e.1 == text_slice(selected, e.5 as int, e.6 as int)
                    &&& e.2 == spec_context(text_slice(selected, 0, e.5 as int))
                } by {
                    if k > 0 {
                        assert(events[k] == rest[k - 1]);
                    }
                }
                assert forall|k: int| 0 <= k < events.len() - 1 implies (#[trigger] events[k]).4 <= events[k + 1].3 by {
                    assert(events[k + 1] == rest[k]);
                    if k > 0 {
                        assert(events[k] == rest[k - 1]);
                    }
                }
            } else {
                assert(events == rest);
            }
        } else {
            assert(raw_at < last);
            lemma_diff_from_shape(before, selected, floor, mode, a, ends, b, i + 1, first, last as int, a[last] as int, raw_len, text_len);
            assert(diff_from(before, selected, floor, mode, a, ends, b, i, first) == diff_from(before, selected, floor, mode, a, ends, b, i + 1, first));
        }
    }
}

/// Law: no correction comes of a missing candidate or of an unchanged text, and the
/// corrections that do come are in input order, each covering input from at or after
/// `floor` to within the input, in the given mode, with learnable text taken from the
/// selected candidate's text at the event's text range, and with the last two characters
/// (or fewer) of the selected text before that range as its context.
pub proof fn law_diff_events_in_order(
    raw_len: int,
    before: Option<DiffItem>,
    selected: Option<DiffItem>,
    floor: usize,
    mode: Seq<char>,
)
    ensures
        ({
            let events = spec_diff(raw_len, before, selected, floor, mode);
            &&& (before is None || selected is None || (before matches Some(x) && selected matches Some(y)
                && x.text@ == y.text@)) ==> events.len() == 0
            &&& forall|k: int| 0 <= k < events.len() ==> {
                let e = #[trigger] events[k];
                &&& floor <= e.3 < e.4 <= raw_len
                &&& e.0 == mode
                &&& static_chars(e.1)
                &&& e.1 == text_slice(selected->Some_0.text@, e.5 as int, e.6 as int)
                &&& ({
                    let head = text_slice(selected->Some_0.text@, 0, e.5 as int);
                    e.2 == if head.len() <= 2 {
                        head
                    } else {
                        head.subrange(head.len() - 2, head.len() as int)
                    }
                })
            }
            &&& forall|k: int| 0 <= k < events.len() - 1 ==> (#[trigger] events[k]).4 <= events[k + 1].3
        }),
{
    if let (Some(old_item), Some(new_item)) = (before, selected) {
        if old_item.text@ != new_item.text@ {
            if let (Some(a), Some(b)) = (spec_boundaries(old_item, raw_len), spec_boundaries(new_item, raw_len)) {
                lemma_diff_from_shape(
                    old_item.text@,
                    new_item.text@,
                    floor,
                    mode,
                    a.0,
                    a.1,
                    b.0,
                    0,
                    0,
                    0,
                    0,
                    raw_len,
                    encode_utf8(old_item.text@).len() as int,
                );
            }
        }
    }
}

} // verus!
