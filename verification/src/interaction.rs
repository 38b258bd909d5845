//! Interaction layer helpers: early-commit predicates, the committed/lock properties of the
//! sentence state, and the buffered view of the input.

use vstd::prelude::*;
use vstd::utf8::{encode_utf8, valid_utf8};
use crate::host::decodes_to;
use crate::learning::char_vec;
use crate::session::{highlighted, option_value, property_written, spec_live_input, string_from_utf8_lossy, Context, Event};
use crate::text::{push_char, push_decimal, push_str, to_owned_string};
use vstd::string::StringSliceAdditionalSpecFns;

verus! {

/// Option: duplicate single characters take part in sentences.
pub const OPTION_ALLOW_DUPLICATE_SINGLE: &'static str = "tiger_sentence_allow_duplicate_single";
/// Option: early commits go to the preedit.
pub const OPTION_EARLY_COMMIT_TO_PREEDIT: &'static str = "tiger_sentence_early_commit_to_preedit";
/// Option: early commit master switch.
pub const OPTION_EARLY_COMMIT: &'static str = "tiger_sentence_early_commit";
/// Option: digits pick candidates of the current page.
pub const OPTION_DIGIT_SELECT: &'static str = "tiger_sentence_digit_select";
/// Candidates kept per menu.
pub const CANDIDATE_LIMIT: usize = 20;
/// Longest live input accepted.
pub const MAX_RAW_LENGTH: usize = 128;
/// Evidence rounds an early commit needs.
pub const EARLY_COMMIT_REQUIRED_EVIDENCE: usize = 3;
/// Strong evidence rounds that suffice for an early commit.
pub const EARLY_COMMIT_REQUIRED_STRONG: usize = 2;
/// Rounds a tracker may go without evidence.
pub const EARLY_COMMIT_MAXIMUM_NEUTRAL_GAP: usize = 3;
/// Input an early commit leaves in the composition.
pub const EARLY_COMMIT_RETAINED_RAW_LENGTH: usize = 3;

/// Context property holding the committed prefix as `raw\ttext`.
pub const K_COMMITTED: &'static str = "tiger_sentence_committed";
/// Context property holding the text buffered in the preedit.
pub const K_BUFFERED: &'static str = "tiger_sentence_buffered";
/// Context property holding the framed locks.
pub const K_LOCKS: &'static str = "tiger_sentence_locks";

/// Shared parameters of an early commit.
#[derive(Clone, Copy, Debug)]
pub struct EarlyCommitParams {
    pub allow_duplicate_single: bool,
    pub generation: u64,
    pub min_retained: usize,
}

// ---------------------------------------------------------------- early commit predicates

/// A byte that marks an explicit selection: `;`, `'` or a digit.
pub open spec fn selection_byte(byte: u8) -> bool {
    byte == 0x3b || byte == 0x27 || (0x30 <= byte && byte <= 0x39)
}

/// The input carries an explicit selection suffix (`;`, `'` or a digit anywhere).
pub fn has_selection_suffix(raw: &[u8]) -> (found: bool)
    ensures
        found == exists|i: int| 0 <= i < raw@.len() && selection_byte(#[trigger] raw@[i]),
{
    let mut i: usize = 0;
    while i < raw.len()
        invariant
            i <= raw.len(),
            forall|j: int| 0 <= j < i ==> !selection_byte(#[trigger] raw@[j]),
        decreases raw.len() - i,
    {
        let byte = raw[i];
        if byte == 0x3b || byte == 0x27 || (0x30 <= byte && byte <= 0x39) {
            assert(selection_byte(raw@[i as int]));
            return true;
        }
        i = i + 1;
    }
    false
}

/// There is a text and it is not empty.
pub open spec fn nonempty_text(text: Option<&str>) -> bool {
    match text {
        Some(t) => t@.len() > 0,
        None => false,
    }
}

/// Whether a candidate may take part after an automatic empty-code commit: outside that
/// continuation always; inside it only on an explicit selection, a rank of at most one, or
/// (with duplicate singles allowed) a non-empty previous text on its path. The candidate
/// is given by what the rule reads of it: its path's previous text and its highest rank.
pub fn implicit_rank_allowed(
    previous_text: Option<&str>,
    max_rank: usize,
    raw: &[u8],
    continuation_after_auto_commit: bool,
    allow_duplicate_single: bool,
) -> (allowed: bool)
    ensures
        allowed == (!continuation_after_auto_commit || (exists|i: int|
            0 <= i < raw@.len() && selection_byte(#[trigger] raw@[i])) || max_rank <= 1 || (allow_duplicate_single
            && nonempty_text(previous_text))),
{
    if !continuation_after_auto_commit {
        return true;
    }
    let previous_nonempty = match previous_text {
        Some(text) => !text.is_empty(),
        None => false,
    };
    has_selection_suffix(raw) || max_rank <= 1 || (allow_duplicate_single && previous_nonempty)
}

/// The longest common prefix of `left` and `right`, character by character.
pub open spec fn is_common_prefix(prefix: Seq<char>, left: Seq<char>, right: Seq<char>) -> bool {
    let n = prefix.len() as int;
    &&& n <= left.len()
    &&& n <= right.len()
    &&& prefix == left.take(n)
    &&& prefix == right.take(n)
    &&& (n < left.len() && n < right.len() ==> left[n] != right[n])
}

/// The characters `left` and `right` share at their start.
pub fn common_text_prefix(left: &str, right: &str) -> (prefix: String)
    ensures
        is_common_prefix(prefix@, left@, right@),
{
    let a = char_vec(left);
    let b = char_vec(right);
    let mut out = String::new();
    let mut i: usize = 0;
    while i < a.len() && i < b.len() && a[i] == b[i]
        invariant
            i <= a@.len(),
            i <= b@.len(),
            a@ == left@,
            b@ == right@,
            out@ == left@.take(i as int),
            out@ == right@.take(i as int),
        decreases a.len() - i,
    {
        push_char(&mut out, a[i]);
        i = i + 1;
        assert(out@ =~= left@.take(i as int));
        assert(out@ =~= right@.take(i as int));
    }
    out
}

/// `prefix` starts `text`.
pub(crate) fn starts_with(text: &str, prefix: &str) -> (found: bool)
    ensures
        found == prefix@.is_prefix_of(text@),
{
    let a = char_vec(text);
    let b = char_vec(prefix);
    if b.len() > a.len() {
        return false;
    }
    let mut i: usize = 0;
    while i < b.len()
        invariant
            i <= b@.len() <= a@.len(),
            a@ == text@,
            b@ == prefix@,
            forall|j: int| 0 <= j < i ==> a@[j] == b@[j],
        decreases b.len() - i,
    {
        if a[i] != b[i] {
            return false;
        }
        i = i + 1;
    }
    assert(prefix@ =~= text@.take(prefix@.len() as int));
    true
}

/// One of the two texts starts the other.
pub fn prefix_extends(left: &str, right: &str) -> (extends: bool)
    ensures
        extends == (right@.is_prefix_of(left@) || left@.is_prefix_of(right@)),
{
    starts_with(left, right) || starts_with(right, left)
}

/// An early commit of `text` agrees with the displayed top candidate: that candidate
/// starts with `text`; without a displayed candidate there is no restriction.
pub fn auto_commit_matches_visible_top(visible_top: Option<&str>, text: &str) -> (matches: bool)
    ensures
        matches == match visible_top {
            None => true,
            Some(top) => text@.is_prefix_of(top@),
        },
{
    match visible_top {
        None => true,
        Some(top) => starts_with(top, text),
    }
}

/// The retained input length from a configured number: negative or absent counts as 0.
pub fn min_retained_raw_length(value: Option<i64>) -> (length: usize)
    ensures
        length == match value {
            Some(number) => if number >= 0 { number as usize } else { 0 },
            None => 0,
        },
{
    match value {
        Some(number) => if number >= 0 { number as usize } else { 0 },
        None => 0,
    }
}

// ---------------------------------------------------------------- sentence state records

/// A pending automatic commit of an empty code.
#[derive(Clone, Debug)]
pub struct EmptyCodePending {
    pub candidate_text: String,
    pub requires_uniqueness_check: bool,
    pub committed_text: String,
    pub base_raw_length: usize,
    pub last_segment_start: usize,
}

/// A confirmed, locked segment: its raw input, its text and its boundaries.
#[derive(Clone, Debug, PartialEq, Eq)]
pub struct Lock {
    pub raw: String,
    pub text: String,
    pub boundaries: String,
}

/// Index of the first `c` in `s` at or after `i` (`s.len()` when none).
pub open spec fn index_of_from(s: Seq<char>, c: char, i: int) -> int
    decreases s.len() - i,
{
    if i < 0 || i >= s.len() {
        s.len() as int
    } else if s[i] == c {
        i
    } else {
        index_of_from(s, c, i + 1)
    }
}

pub proof fn lemma_index_of_from(s: Seq<char>, c: char, i: int)
    requires
        0 <= i <= s.len(),
    ensures
        i <= index_of_from(s, c, i) <= s.len(),
        index_of_from(s, c, i) < s.len() ==> s[index_of_from(s, c, i)] == c,
        forall|j: int| i <= j < index_of_from(s, c, i) ==> s[j] != c,
    decreases s.len() - i,
{
    if i < s.len() && s[i] != c {
        lemma_index_of_from(s, c, i + 1);
    }
}

/// The committed property `raw\ttext` split at its first tab (both empty without a tab).
pub open spec fn spec_committed_property(value: Seq<char>) -> (Seq<char>, Seq<char>) {
    let k = index_of_from(value, '\t', 0);
    if k < value.len() {
        (value.take(k), value.skip(k + 1))
    } else {
        (Seq::empty(), Seq::empty())
    }
}

fn string_of(chars: &Vec<char>, start: usize, end: usize) -> (text: String)
    requires
        start <= end <= chars@.len(),
    ensures
        text@ == chars@.subrange(start as int, end as int),
{
    let mut out = String::new();
    let mut i = start;
    while i < end
        invariant
            start <= i <= end <= chars@.len(),
            out@ == chars@.subrange(start as int, i as int),
        decreases end - i,
    {
        push_char(&mut out, chars[i]);
        i = i + 1;
        assert(out@ =~= chars@.subrange(start as int, i as int));
    }
    out
}

/// Splits the committed property into raw input and text at the first tab.
pub fn parse_committed_property(value: &str) -> (parts: (String, String))
    ensures
        (parts.0@, parts.1@) == spec_committed_property(value@),
{
    let chars = char_vec(value);
    proof {
        lemma_index_of_from(value@, '\t', 0);
    }
    let mut i: usize = 0;
    while i < chars.len()
        invariant
            i <= chars@.len(),
            chars@ == value@,
            index_of_from(value@, '\t', 0) == index_of_from(value@, '\t', i as int),
        decreases chars.len() - i,
    {
        if chars[i] == '\t' {
            let raw = string_of(&chars, 0, i);
            let text = string_of(&chars, i + 1, chars.len());
            assert(raw@ =~= value@.take(i as int));
            assert(text@ =~= value@.skip(i + 1));
            return (raw, text);
        }
        i = i + 1;
    }
    (String::new(), String::new())
}

// ---------------------------------------------------------------- lock frames

/// A field length as `str::parse::<usize>` reads it from `bytes[start..end]`: an optional
/// `+`, then one or more ASCII digits, within `usize`.
pub open spec fn parsed_length(bytes: Seq<u8>, start: int, end: int) -> Option<nat> {
    let digits_start = if start < end && bytes[start] == 0x2b { start + 1 } else { start };
    if digits_start >= end {
        None
    } else if exists|i: int| digits_start <= i < end && !(0x30 <= #[trigger] bytes[i] && bytes[i] <= 0x39) {
        None
    } else {
        let value = crate::learning::decimal_value(bytes, digits_start, end);
        if value <= usize::MAX { Some(value) } else { None }
    }
}

/// First index of byte `b` in `bytes` at or after `i` (`bytes.len()` when none).
pub open spec fn byte_index_from(bytes: Seq<u8>, b: u8, i: int) -> int
    decreases bytes.len() - i,
{
    if i < 0 || i >= bytes.len() {
        bytes.len() as int
    } else if bytes[i] == b {
        i
    } else {
        byte_index_from(bytes, b, i + 1)
    }
}

pub proof fn lemma_byte_index_from(bytes: Seq<u8>, b: u8, i: int)
    requires
        0 <= i <= bytes.len(),
    ensures
        i <= byte_index_from(bytes, b, i) <= bytes.len(),
        byte_index_from(bytes, b, i) < bytes.len() ==> bytes[byte_index_from(bytes, b, i)] == b,
        forall|j: int| i <= j < byte_index_from(bytes, b, i) ==> bytes[j] != b,
    decreases bytes.len() - i,
{
    if i < bytes.len() && bytes[i] != b {
        lemma_byte_index_from(bytes, b, i + 1);
    }
}

/// The fields of a lock frame read from `pos`: each is a length, `:`, and that many bytes;
/// `None` when a field is malformed or runs past the end.
pub open spec fn lock_fields_from(bytes: Seq<u8>, pos: int) -> Option<Seq<Seq<u8>>>
    decreases bytes.len() - pos,
{
    if pos < 0 || pos >= bytes.len() {
        Some(Seq::empty())
    } else {
        let colon = byte_index_from(bytes, 0x3a, pos);
        proof {
            lemma_byte_index_from(bytes, 0x3a, pos);
        }
        if colon >= bytes.len() {
            None
        } else {
            match parsed_length(bytes, pos, colon) {
                None => None,
                Some(length) => {
                    let end = colon + 1 + length;
                    if end > bytes.len() {
                        None
                    } else {
                        match lock_fields_from(bytes, end) {
                            None => None,
                            Some(rest) => Some(seq![bytes.subrange(colon + 1, end)] + rest),
                        }
                    }
                },
            }
        }
    }
}

/// `locks` hold the fields three by three (a shorter tail is dropped), each field decoded.
pub open spec fn locks_of_fields(locks: Seq<Lock>, fields: Seq<Seq<u8>>) -> bool {
    &&& locks.len() == fields.len() / 3
    &&& forall|i: int|
        0 <= i < locks.len() ==> decodes_to(fields[3 * i], (#[trigger] locks[i]).raw@)
            && decodes_to(fields[3 * i + 1], locks[i].text@) && decodes_to(fields[3 * i + 2], locks[i].boundaries@)
}

fn parse_length(bytes: &[u8], start: usize, end: usize) -> (length: Option<usize>)
    requires
        start <= end <= bytes@.len(),
    ensures
        match length {
            Some(n) => parsed_length(bytes@, start as int, end as int) == Some(n as nat),
            None => parsed_length(bytes@, start as int, end as int) is None,
        },
{
    let digits_start = if start < end && bytes[start] == 0x2b { start + 1 } else { start };
    if digits_start >= end {
        return None;
    }
    let mut value: usize = 0;
    let mut i = digits_start;
    while i < end
        invariant
            digits_start <= i <= end <= bytes@.len(),
            digits_start < end,
            digits_start == if start < end && bytes@[start as int] == 0x2b { start + 1 } else { start as int },
            forall|j: int| digits_start <= j < i ==> 0x30 <= #[trigger] bytes@[j] && bytes@[j] <= 0x39,
            value as nat == crate::learning::decimal_value(bytes@, digits_start as int, i as int),
        decreases end - i,
    {
        let byte = bytes[i];
        if byte < 0x30 || byte > 0x39 {
            assert(!(0x30 <= bytes@[i as int] && bytes@[i as int] <= 0x39));
            assert(exists|j: int| digits_start <= j < end && !(0x30 <= #[trigger] bytes@[j] && bytes@[j] <= 0x39));
            return None;
        }
        let digit = (byte - 0x30) as usize;
        if value > (usize::MAX - digit) / 10 {
            proof {
                assert(value * 10 + digit > usize::MAX) by (nonlinear_arith)
                    requires
                        value > (usize::MAX - digit) / 10,
                        digit <= 9,
                ;
                assert(crate::learning::decimal_value(bytes@, digits_start as int, i as int + 1) == value * 10 + digit);
                if forall|j: int| digits_start <= j < end ==> 0x30 <= #[trigger] bytes@[j] && bytes@[j] <= 0x39 {
                    lemma_decimal_grows(bytes@, digits_start as int, i as int + 1, end as int);
                }
            }
            return None;
        }
        value = value * 10 + digit;
        i = i + 1;
    }
    Some(value)
}

/// A decimal value never shrinks when more digits follow.
pub proof fn lemma_decimal_grows(bytes: Seq<u8>, start: int, mid: int, end: int)
    requires
        start <= mid <= end <= bytes.len(),
        forall|j: int| start <= j < end ==> 0x30 <= #[trigger] bytes[j] && bytes[j] <= 0x39,
    ensures
        crate::learning::decimal_value(bytes, start, mid) <= crate::learning::decimal_value(bytes, start, end),
    decreases end - mid,
{
    if mid < end {
        lemma_decimal_grows(bytes, start, mid, end - 1);
    }
}

/// Reads the locks framed in `data` (empty when the frame is malformed).
pub fn parse_locks(data: &str) -> (locks: Vec<Lock>)
    ensures
        match lock_fields_from(data.spec_bytes(), 0) {
            None => locks@.len() == 0,
            Some(fields) => locks_of_fields(locks@, fields),
        },
{
    let bytes = data.as_bytes();
    let ghost all = data.spec_bytes();
    let mut fields: Vec<String> = Vec::new();
    let ghost mut ranges: Seq<Seq<u8>> = Seq::empty();
    let mut offset: usize = 0;
    while offset < bytes.len()
        invariant
            bytes@ == all,
            all == data.spec_bytes(),
            offset <= bytes.len(),
            fields@.len() == ranges.len(),
            forall|i: int| 0 <= i < ranges.len() ==> decodes_to(#[trigger] ranges[i], fields@[i]@),
            lock_fields_from(all, 0) is Some <==> lock_fields_from(all, offset as int) is Some,
            lock_fields_from(all, offset as int) matches Some(rest) ==> lock_fields_from(all, 0) == Some(ranges + rest),
        decreases bytes.len() - offset,
    {
        proof {
            lemma_byte_index_from(all, 0x3a, offset as int);
        }
        let mut colon = offset;
        while colon < bytes.len() && bytes[colon] != 0x3a
            invariant
                bytes@ == all,
                offset <= colon <= bytes.len(),
                byte_index_from(all, 0x3a, offset as int) == byte_index_from(all, 0x3a, colon as int),
            decreases bytes.len() - colon,
        {
            colon = colon + 1;
        }
        proof {
            lemma_byte_index_from(all, 0x3a, colon as int);
            assert(byte_index_from(all, 0x3a, offset as int) == colon as int);
        }
        if colon >= bytes.len() {
            assert(lock_fields_from(all, offset as int) is None);
            return Vec::new();
        }
        let length = match parse_length(bytes, offset, colon) {
            None => {
                assert(lock_fields_from(all, offset as int) is None);
                return Vec::new();
            },
            Some(length) => length,
        };
        if length > bytes.len() - (colon + 1) {
            assert(lock_fields_from(all, offset as int) is None);
            return Vec::new();
        }
        let end = colon + 1 + length;
        let mut part: Vec<u8> = Vec::new();
        crate::session::extend_range(&mut part, bytes, colon + 1, end);
        let field = string_from_utf8_lossy(part.as_slice());
        proof {
            let piece = all.subrange(colon + 1, end as int);
            assert(part@ == piece);
            assert(decodes_to(piece, field@));
            if let Some(rest) = lock_fields_from(all, end as int) {
                assert(ranges.push(piece) + rest =~= ranges + (seq![piece] + rest));
            }
            ranges = ranges.push(piece);
        }
        fields.push(field);
        offset = end;
    }
    assert(ranges + Seq::<Seq<u8>>::empty() =~= ranges);
    let mut locks: Vec<Lock> = Vec::new();
    let mut k: usize = 0;
    while fields.len() - k >= 3
        invariant
            fields@.len() == ranges.len(),
            forall|i: int| 0 <= i < ranges.len() ==> decodes_to(#[trigger] ranges[i], fields@[i]@),
            k % 3 == 0,
            k <= fields@.len(),
            locks@.len() == k / 3,
            forall|i: int|
                0 <= i < locks@.len() ==> decodes_to(ranges[3 * i], (#[trigger] locks@[i]).raw@)
                    && decodes_to(ranges[3 * i + 1], locks@[i].text@) && decodes_to(ranges[3 * i + 2], locks@[i].boundaries@),
        decreases fields.len() - k,
    {
        let raw = fields[k].clone();
        let text = fields[k + 1].clone();
        let boundaries = fields[k + 2].clone();
        proof {
            assert(decodes_to(ranges[k as int], fields@[k as int]@));
            assert(decodes_to(ranges[k + 1], fields@[k + 1]@));
            assert(decodes_to(ranges[k + 2], fields@[k + 2]@));
        }
        locks.push(Lock { raw, text, boundaries });
        k = k + 3;
    }
    proof {
        assert(locks@.len() == fields@.len() / 3) by (nonlinear_arith)
            requires
                k % 3 == 0,
                k <= fields@.len(),
                fields@.len() - k < 3,
                locks@.len() == k / 3,
        ;
    }
    locks
}

/// One lock field framed: its byte length in decimal, `:`, the field.
pub open spec fn lock_field_frame(field: Seq<char>) -> Seq<char> {
    crate::text::decimal_digits(encode_utf8(field).len()).push(':') + field
}

/// The frame of `locks`: raw, text and boundaries of each lock, in order.
pub open spec fn spec_lock_frame(locks: Seq<Lock>) -> Seq<char>
    decreases locks.len(),
{
    if locks.len() == 0 {
        Seq::empty()
    } else {
        let lock = locks.last();
        spec_lock_frame(locks.drop_last()) + lock_field_frame(lock.raw@) + lock_field_frame(lock.text@)
            + lock_field_frame(lock.boundaries@)
    }
}

fn push_field(out: &mut String, field: &str)
    ensures
        final(out)@ == old(out)@ + lock_field_frame(field@),
{
    let length = field.as_bytes().len();
    push_decimal(out, length as u64);
    push_char(out, ':');
    push_str(out, field);
    assert(final(out)@ =~= old(out)@ + lock_field_frame(field@));
}

/// Frames locks for the lock property.
pub fn frame_locks(locks: &[Lock]) -> (framed: String)
    ensures
        framed@ == spec_lock_frame(locks@),
{
    let mut out = String::new();
    let mut i: usize = 0;
    assert(locks@.take(0) =~= Seq::<Lock>::empty());
    while i < locks.len()
        invariant
            i <= locks.len(),
            out@ == spec_lock_frame(locks@.take(i as int)),
        decreases locks.len() - i,
    {
        proof {
            assert(locks@.take(i + 1).drop_last() =~= locks@.take(i as int));
            assert(locks@.take(i + 1).last() == locks@[i as int]);
        }
        push_field(&mut out, locks[i].raw.as_str());
        push_field(&mut out, locks[i].text.as_str());
        push_field(&mut out, locks[i].boundaries.as_str());
        i = i + 1;
    }
    assert(locks@.take(i as int) =~= locks@);
    out
}

/// The text stored under a property (empty when absent).
pub open spec fn property_text(context: Context, key: Seq<char>) -> Seq<char> {
    if context.properties@.contains_key(key) {
        context.properties@[key]
    } else {
        Seq::empty()
    }
}

pub(crate) fn property_or_empty(context: &Context, key: &str) -> (text: String)
    ensures
        text@ == property_text(*context, key@),
{
    match context.get_property(key) {
        Some(text) => to_owned_string(text),
        None => String::new(),
    }
}

/// The locks recorded in the context (empty when none or malformed).
pub fn read_locks(context: &Context) -> (locks: Vec<Lock>)
    ensures
        match lock_fields_from(encode_utf8(property_text(*context, K_LOCKS@)), 0) {
            None => locks@.len() == 0,
            Some(fields) => locks_of_fields(locks@, fields),
        },
{
    let data = property_or_empty(context, K_LOCKS);
    parse_locks(data.as_str())
}

/// Records the locks in the context (the property is written only when it changes).
pub fn save_locks(context: &mut Context, locks: &[Lock])
    ensures
        final(context).properties@ == property_written(old(context).properties@, K_LOCKS@, spec_lock_frame(locks@)),
        final(context).input == old(context).input,
        final(context).caret == old(context).caret,
        final(context).composition == old(context).composition,
        final(context).options@ == old(context).options@,
        final(context).buffered == old(context).buffered,
        final(context).punct_pairs == old(context).punct_pairs,
        final(context).last_commit == old(context).last_commit,
        final(context).events == old(context).events,
{
    let framed = frame_locks(locks);
    crate::session::set_property_if_changed(context, K_LOCKS, framed.as_str());
}

/// The text buffered in the preedit.
pub fn buffered_text(context: &Context) -> (text: String)
    ensures
        text@ == property_text(*context, K_BUFFERED@),
{
    property_or_empty(context, K_BUFFERED)
}

/// The input without the private `~` marker while text is buffered.
pub open spec fn spec_state_live_input(context: Context) -> Seq<u8> {
    spec_live_input(property_text(context, K_BUFFERED@).len() > 0, context.input@)
}

/// The live input: without the leading `~` while text is buffered.
pub fn live_input(context: &Context) -> (live: Vec<u8>)
    ensures
        live@ == spec_state_live_input(*context),
{
    let buffered = buffered_text(context);
    let value = context.input();
    let mut out: Vec<u8> = Vec::new();
    if !buffered.as_str().is_empty() && value.len() > 0 && value[0] == 0x7e {
        crate::session::extend_range(&mut out, value, 1, value.len());
    } else {
        crate::session::extend_range(&mut out, value, 0, value.len());
        assert(value@.subrange(0, value@.len() as int) =~= value@);
    }
    out
}

/// The caret in the live input: one less while buffered, and within the live input.
pub open spec fn spec_input_caret(context: Context) -> int {
    let shifted = if property_text(context, K_BUFFERED@).len() > 0 {
        if context.caret >= 1 { context.caret - 1 } else { 0 }
    } else {
        context.caret as int
    };
    let length = spec_state_live_input(context).len();
    if shifted < length { shifted } else { length as int }
}

/// The caret in the live input (one less while buffered, within the live input).
pub fn input_caret(context: &Context) -> (caret: usize)
    ensures
        caret == spec_input_caret(*context),
{
    let length = live_input(context).len();
    let buffered = buffered_text(context);
    let caret = if !buffered.as_str().is_empty() {
        if context.caret() >= 1 { context.caret() - 1 } else { 0 }
    } else {
        context.caret()
    };
    if caret < length { caret } else { length }
}

/// `post` is `pre` with `value` put back as the composition input (behind the `~` marker
/// while buffered); when buffered and the input is already that, the unconfirmed
/// composition is refreshed instead.
pub open spec fn composition_restored(pre: Context, post: Context, value: Seq<u8>) -> bool {
    let buffered = property_text(pre, K_BUFFERED@).len() > 0;
    let target = if buffered { seq![0x7eu8] + value } else { value };
    if buffered && pre.input@ == target && pre.composition.segments@.len() > 0
        && !pre.composition.segments@.last().selected {
        crate::session::refreshed(pre, post, true)
    } else {
        crate::session::input_set(pre, post, target)
    }
}

/// Puts `value` back as the composition input (behind the `~` marker while buffered); when
/// buffered and the input is already that, the unconfirmed composition is refreshed instead
/// if it can be.
pub fn restore_composition_input(context: &mut Context, value: &[u8])
    ensures
        composition_restored(*old(context), *final(context), value@),
{
    let buffered = !buffered_text(context).as_str().is_empty();
    let mut target: Vec<u8> = Vec::new();
    if buffered {
        target.push(0x7e);
    }
    target.extend_from_slice(value);
    assert(target@ =~= if buffered { seq![0x7eu8] + value@ } else { value@ });
    if buffered && bytes_equal(context.input(), target.as_slice()) {
        if context.refresh_non_confirmed_composition() {
            return;
        }
    }
    context.set_input(target.as_slice());
}

pub(crate) fn bytes_equal(a: &[u8], b: &[u8]) -> (equal: bool)
    ensures
        equal == (a@ == b@),
{
    if a.len() != b.len() {
        return false;
    }
    let mut i: usize = 0;
    while i < a.len()
        invariant
            i <= a.len() == b.len(),
            forall|j: int| 0 <= j < i ==> a@[j] == b@[j],
        decreases a.len() - i,
    {
        if a[i] != b[i] {
            return false;
        }
        i = i + 1;
    }
    assert(a@ =~= b@);
    true
}

/// Whether duplicate single characters take part in sentences (on unless switched off).
pub fn set_allow_duplicate_single(context: &Context) -> (allowed: bool)
    ensures
        allowed == option_value(context.options@, OPTION_ALLOW_DUPLICATE_SINGLE@, true),
{
    context.get_option_or(OPTION_ALLOW_DUPLICATE_SINGLE, true)
}

/// Moves the highlight of the menu by `step` candidates, wrapping around the first
/// [`CANDIDATE_LIMIT`] candidates; `false` without a menu.
pub fn cycle_candidate_highlight(context: &mut Context, step: i64) -> (moved: bool)
    ensures
        moved == (old(context).composition.segments@.len() > 0
            && old(context).composition.segments@.last().candidates@.len() > 0),
        !moved ==> *final(context) == *old(context),
        moved ==> ({
            let last = old(context).composition.segments@.last();
            let count = if last.candidates@.len() < CANDIDATE_LIMIT { last.candidates@.len() as int } else { CANDIDATE_LIMIT as int };
            let target = (last.selected_index + step) % count;
            highlighted(*old(context), *final(context), target, last.selected_index != target)
        }),
{
    if !context.has_menu() {
        return false;
    }
    let last = context.composition.segments.len() - 1;
    let selected = context.composition.segments[last].selected_index;
    let count = context.composition.segments[last].prepare(CANDIDATE_LIMIT);
    let sum: i128 = selected as i128 + step as i128;
    let c: u128 = count as u128;
    let index: usize = if sum >= 0 {
        (sum as u128 % c) as usize
    } else {
        let neg: u128 = (-sum) as u128;
        let m: u128 = neg % c;
        proof {
            let q = (neg / c) as int;
            vstd::arithmetic::div_mod::lemma_fundamental_div_mod(neg as int, c as int);
            assert(neg as int == (c as int) * q + (m as int));
            if m == 0 {
                assert(sum as int == (-q) * (c as int)) by (nonlinear_arith)
                    requires
                        neg as int == (c as int) * q + (m as int),
                        m == 0,
                        neg as int == -(sum as int),
                ;
                vstd::arithmetic::div_mod::lemma_fundamental_div_mod_converse(sum as int, c as int, -q, 0);
            } else {
                assert(sum as int == (-q - 1) * (c as int) + ((c - m) as int)) by (nonlinear_arith)
                    requires
                        neg as int == (c as int) * q + (m as int),
                        neg as int == -(sum as int),
                        0 < m < c,
                ;
                vstd::arithmetic::div_mod::lemma_fundamental_div_mod_converse(sum as int, c as int, -q - 1, (c - m) as int);
            }
        }
        if m == 0 { 0 } else { (c - m) as usize }
    };
    assert(index as int == (selected + step) % (count as int));
    context.highlight(index);
    true
}

// ---------------------------------------------------------------- lock frame law

/// The fields of locks in frame order: raw, text and boundaries of each lock.
pub open spec fn lock_field_texts(locks: Seq<Lock>) -> Seq<Seq<char>>
    decreases locks.len(),
{
    if locks.len() == 0 {
        Seq::empty()
    } else {
        let lock = locks.last();
        lock_field_texts(locks.drop_last()).push(lock.raw@).push(lock.text@).push(lock.boundaries@)
    }
}

/// The views of locks: raw, text and boundaries.
pub open spec fn lock_views(locks: Seq<Lock>) -> Seq<(Seq<char>, Seq<char>, Seq<char>)> {
    locks.map_values(|lock: Lock| (lock.raw@, lock.text@, lock.boundaries@))
}

proof fn lemma_lock_frame_is_frame(locks: Seq<Lock>)
    ensures
        spec_lock_frame(locks) == crate::learning::spec_frame(lock_field_texts(locks)),
        lock_field_texts(locks).len() == 3 * locks.len(),
        forall|i: int| 0 <= i < locks.len() ==> {
            &&& lock_field_texts(locks)[3 * i] == (#[trigger] locks[i]).raw@
            &&& lock_field_texts(locks)[3 * i + 1] == locks[i].text@
            &&& lock_field_texts(locks)[3 * i + 2] == locks[i].boundaries@
        },
    decreases locks.len(),
{
    if locks.len() > 0 {
        let rest = locks.drop_last();
        lemma_lock_frame_is_frame(rest);
        let f0 = lock_field_texts(rest);
        let f1 = f0.push(locks.last().raw@);
        let f2 = f1.push(locks.last().text@);
        let f3 = f2.push(locks.last().boundaries@);
        assert(f3.drop_last() == f2);
        assert(f2.drop_last() == f1);
        assert(f1.drop_last() == f0);
        let l = locks.last();
        assert(crate::learning::spec_frame(f1) == crate::learning::spec_frame(f0) + crate::learning::frame_part(l.raw@));
        assert(crate::learning::spec_frame(f2) == crate::learning::spec_frame(f1) + crate::learning::frame_part(l.text@));
        assert(crate::learning::spec_frame(f3) == crate::learning::spec_frame(f2) + crate::learning::frame_part(l.boundaries@));
        assert(lock_field_frame(l.raw@) == crate::learning::frame_part(l.raw@));
        assert(lock_field_frame(l.text@) == crate::learning::frame_part(l.text@));
        assert(lock_field_frame(l.boundaries@) == crate::learning::frame_part(l.boundaries@));
        assert(spec_lock_frame(locks) =~= crate::learning::spec_frame(f3));
        assert forall|i: int| 0 <= i < locks.len() implies {
            &&& lock_field_texts(locks)[3 * i] == (#[trigger] locks[i]).raw@
            &&& lock_field_texts(locks)[3 * i + 1] == locks[i].text@
            &&& lock_field_texts(locks)[3 * i + 2] == locks[i].boundaries@
        } by {
            if i < rest.len() {
                assert(locks[i] == rest[i]);
            }
        }
    }
}

proof fn lemma_byte_index_at(bytes: Seq<u8>, b: u8, start: int, end: int)
    requires
        0 <= start <= end < bytes.len(),
        forall|i: int| start <= i < end ==> #[trigger] bytes[i] != b,
        bytes[end] == b,
    ensures
        byte_index_from(bytes, b, start) == end,
    decreases end - start,
{
    if start < end {
        lemma_byte_index_at(bytes, b, start + 1, end);
    }
}

proof fn lemma_lock_fields_after(prefix: Seq<u8>, parts: Seq<Seq<char>>)
    requires
        forall|i: int| 0 <= i < parts.len() ==> encode_utf8(#[trigger] parts[i]).len() <= usize::MAX,
    ensures
        lock_fields_from(prefix + encode_utf8(crate::learning::spec_frame(parts)), prefix.len() as int)
            == Some(parts.map_values(|p: Seq<char>| encode_utf8(p))),
    decreases parts.len(),
{
    let whole = prefix + encode_utf8(crate::learning::spec_frame(parts));
    if parts.len() == 0 {
        assert(parts.map_values(|p: Seq<char>| encode_utf8(p)) =~= Seq::<Seq<u8>>::empty());
        assert(encode_utf8(crate::learning::spec_frame(parts)) =~= Seq::<u8>::empty());
    } else {
        let part = parts[0];
        let rest = parts.drop_first();
        let encoded = encode_utf8(part);
        let length = encoded.len();
        let digits = encode_utf8(crate::text::decimal_digits(length));
        crate::learning::lemma_frame_front(parts);
        crate::learning::lemma_encode_concat(crate::learning::frame_part(part), crate::learning::spec_frame(rest));
        crate::learning::lemma_encode_concat(crate::text::decimal_digits(length).push(':'), part);
        assert(crate::text::decimal_digits(length).push(':') =~= crate::text::decimal_digits(length) + seq![':']);
        crate::learning::lemma_encode_concat(crate::text::decimal_digits(length), seq![':']);
        assert(encode_utf8(seq![':']) == seq![0x3au8]) by {
            let c = ':';
            assert(seq![c].drop_first() =~= Seq::<char>::empty());
            let v = c as u32;
            assert(v == 0x3a);
            assert(v & 0x7f == v) by (bit_vector)
                requires
                    v < 0x80,
            ;
            assert(vstd::utf8::encode_scalar(v) == seq![vstd::utf8::leading_byte_width_1(v)]);
            assert(vstd::utf8::leading_byte_width_1(v) == 0x3au8);
            assert(encode_utf8(seq![c]) =~= vstd::utf8::encode_scalar(v) + encode_utf8(Seq::<char>::empty()));
            assert(encode_utf8(seq![c]) =~= seq![0x3au8]);
        }
        let head = prefix + digits + seq![0x3au8];
        let tail = encode_utf8(crate::learning::spec_frame(rest));
        assert(whole =~= head + encoded + tail);
        let pos = prefix.len() as int;
        let colon = pos + digits.len();
        crate::learning::lemma_decimal_bytes(length);
        assert forall|i: int| pos <= i < colon implies (#[trigger] whole[i]) != 0x3a && 0x30 <= whole[i] && whole[i] <= 0x39 by {
            assert(whole[i] == digits[i - pos]);
            assert(crate::learning::in_range(digits[i - pos], 0x30, 0x39));
        }
        assert(whole[colon] == 0x3a);
        lemma_byte_index_at(whole, 0x3a, pos, colon);
        crate::learning::lemma_decimal_value_window(whole, pos, colon, digits);
        assert(whole[pos] == digits[0]);
        assert(parsed_length(whole, pos, colon) == Some(length));
        let end = colon + 1 + length;
        assert(whole.subrange(colon + 1, end) =~= encoded);
        assert forall|i: int| 0 <= i < rest.len() implies encode_utf8(#[trigger] rest[i]).len() <= usize::MAX by {
            assert(rest[i] == parts[i + 1]);
        }
        lemma_lock_fields_after(head + encoded, rest);
        assert(whole =~= (head + encoded) + tail);
        assert(parts.map_values(|p: Seq<char>| encode_utf8(p)) =~= seq![encoded] + rest.map_values(
            |p: Seq<char>| encode_utf8(p),
        ));
    }
}

/// Law: the frame of locks always reads back, and the locks read from it are the locks
/// that were framed (field by field), as long as each field's byte length fits in `usize`.
pub proof fn law_locks_roundtrip(locks: Seq<Lock>, read: Seq<Lock>)
    requires
        forall|i: int| 0 <= i < locks.len() ==> {
            &&& encode_utf8((#[trigger] locks[i]).raw@).len() <= usize::MAX
            &&& encode_utf8(locks[i].text@).len() <= usize::MAX
            &&& encode_utf8(locks[i].boundaries@).len() <= usize::MAX
        },
    ensures
        lock_fields_from(encode_utf8(spec_lock_frame(locks)), 0) is Some,
        lock_fields_from(encode_utf8(spec_lock_frame(locks)), 0) matches Some(fields) ==> (locks_of_fields(
            read,
            fields,
        ) ==> lock_views(read) == lock_views(locks)),
{
    lemma_lock_frame_is_frame(locks);
    let parts = lock_field_texts(locks);
    assert forall|i: int| 0 <= i < parts.len() implies encode_utf8(#[trigger] parts[i]).len() <= usize::MAX by {
        let k = i / 3;
        let r = i % 3;
        assert(i == 3 * k + r && 0 <= r < 3 && 0 <= k < locks.len()) by (nonlinear_arith)
            requires
                0 <= i < 3 * locks.len(),
                k == i / 3,
                r == i % 3,
        ;
        let l = locks[k];
        if r == 0 {
            assert(parts[i] == l.raw@);
        } else if r == 1 {
            assert(parts[i] == l.text@);
        } else {
            assert(parts[i] == l.boundaries@);
        }
    }
    lemma_lock_fields_after(Seq::empty(), parts);
    assert(Seq::<u8>::empty() + encode_utf8(spec_lock_frame(locks)) =~= encode_utf8(spec_lock_frame(locks)));
    let fields = parts.map_values(|p: Seq<char>| encode_utf8(p));
    if locks_of_fields(read, fields) {
        assert(read.len() == locks.len());
        assert forall|i: int| 0 <= i < read.len() implies lock_views(read)[i] == lock_views(locks)[i] by {
            let r = read[i];
            let l = locks[i];
            vstd::utf8::encode_utf8_valid_utf8(l.raw@);
            vstd::utf8::encode_utf8_valid_utf8(l.text@);
            vstd::utf8::encode_utf8_valid_utf8(l.boundaries@);
            assert(fields[3 * i] == encode_utf8(l.raw@));
            assert(fields[3 * i + 1] == encode_utf8(l.text@));
            assert(fields[3 * i + 2] == encode_utf8(l.boundaries@));
            vstd::utf8::encode_utf8_decode_utf8(r.raw@);
            vstd::utf8::encode_utf8_decode_utf8(l.raw@);
            vstd::utf8::encode_utf8_decode_utf8(r.text@);
            vstd::utf8::encode_utf8_decode_utf8(l.text@);
            vstd::utf8::encode_utf8_decode_utf8(r.boundaries@);
            vstd::utf8::encode_utf8_decode_utf8(l.boundaries@);
        }
        assert(lock_views(read) =~= lock_views(locks));
    }
}

/// Law: the committed property `raw\ttext` splits back into `raw` and `text` when `raw`
/// holds no tab.
pub proof fn law_committed_property_roundtrip(raw: Seq<char>, text: Seq<char>)
    requires
        !raw.contains('\t'),
    ensures
        spec_committed_property(raw + seq!['\t'] + text) == (raw, text),
{
    let whole = raw + seq!['\t'] + text;
    let k = raw.len() as int;
    assert(whole[k] == '\t');
    assert forall|j: int| 0 <= j < k implies whole[j] != '\t' by {
        assert(whole[j] == raw[j]);
        if whole[j] == '\t' {
            assert(raw.contains('\t'));
        }
    }
    lemma_index_of_from(whole, '\t', 0);
    let found = index_of_from(whole, '\t', 0);
    if found < k {
        assert(whole[found] != '\t');
    }
    assert(found == k);
    assert(whole.take(k) =~= raw);
    assert(whole.skip(k + 1) =~= text);
}

} // verus!
