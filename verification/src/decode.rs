//! Decoding helpers of the sentence decoder: input normalisation, selector suffixes, lock
//! boundaries and the candidates a code may contribute.

use vstd::prelude::*;
use vstd::string::StringSliceAdditionalSpecFns;
use vstd::slice::slice_subrange;
use vstd::utf8::encode_utf8;
use crate::learning::{character_count, decimal_value, digit_run_end, in_range, lemma_digit_run_end_bounds};
use crate::lexicon::Lexicon;
use crate::tables::{no_states, state_set_contents, StateSet};

verus! {

/// Beam width of the decoder.
pub const BEAM_WIDTH: usize = 200;
/// Inputs longer than this decode with the narrow beam.
pub const LONG_INPUT_FULL_BEAM_LENGTH: usize = 24;
/// Narrow beam width for long inputs.
pub const LONG_INPUT_BEAM_WIDTH: usize = 48;

/// A dictionary entry of a code: its text and its rank among the code's entries (from 1).
#[derive(Clone, Debug)]
pub struct CodeEntry {
    pub text: String,
    pub rank: u32,
}

/// A lock handed to the decoder: raw input, text and boundaries (`"2,3;4,6;"`).
#[derive(Clone, Copy, Debug)]
pub struct DecodeLock<'a> {
    pub raw: &'a str,
    pub text: &'a str,
    pub boundaries: &'a str,
}

/// The beam width at an input length.
pub fn beam_limit_at(raw_length: usize) -> (limit: usize)
    ensures
        limit == if raw_length > LONG_INPUT_FULL_BEAM_LENGTH { LONG_INPUT_BEAM_WIDTH } else { BEAM_WIDTH },
{
    if raw_length > LONG_INPUT_FULL_BEAM_LENGTH {
        LONG_INPUT_BEAM_WIDTH
    } else {
        BEAM_WIDTH
    }
}

/// Whitespace: space, tab, line feed, vertical tab, form feed, return.
pub open spec fn blank_byte(byte: u8) -> bool {
    byte == 0x20 || (0x09 <= byte && byte <= 0x0d)
}

/// ASCII lower case.
pub open spec fn ascii_lower(byte: u8) -> u8 {
    if 0x41 <= byte && byte <= 0x5a { (byte + 0x20) as u8 } else { byte }
}

/// The input lower-cased, with whitespace removed.
pub open spec fn spec_normalize(bytes: Seq<u8>) -> Seq<u8>
    decreases bytes.len(),
{
    if bytes.len() == 0 {
        Seq::empty()
    } else if blank_byte(bytes.last()) {
        spec_normalize(bytes.drop_last())
    } else {
        spec_normalize(bytes.drop_last()).push(ascii_lower(bytes.last()))
    }
}

/// Lower-cases ASCII letters and drops whitespace.
pub fn normalize(raw: &str) -> (bytes: Vec<u8>)
    ensures
        bytes@ == spec_normalize(raw.spec_bytes()),
{
    let input = raw.as_bytes();
    let mut out: Vec<u8> = Vec::new();
    let mut i: usize = 0;
    assert(input@.take(0) =~= Seq::<u8>::empty());
    while i < input.len()
        invariant
            i <= input.len(),
            out@ == spec_normalize(input@.take(i as int)),
        decreases input.len() - i,
    {
        proof {
            assert(input@.take(i + 1).drop_last() =~= input@.take(i as int));
            assert(input@.take(i + 1).last() == input@[i as int]);
        }
        let byte = input[i];
        if !(byte == 0x20 || (0x09 <= byte && byte <= 0x0d)) {
            let lower = if 0x41 <= byte && byte <= 0x5a { byte + 0x20 } else { byte };
            out.push(lower);
        }
        i = i + 1;
    }
    assert(input@.take(i as int) =~= input@);
    out
}

/// An ASCII letter.
pub open spec fn ascii_letter(byte: u8) -> bool {
    (0x41 <= byte && byte <= 0x5a) || (0x61 <= byte && byte <= 0x7a)
}

/// The input holds an ASCII letter.
pub fn has_letter(raw: &[u8]) -> (found: bool)
    ensures
        found == exists|i: int| 0 <= i < raw@.len() && ascii_letter(#[trigger] raw@[i]),
{
    let mut i: usize = 0;
    while i < raw.len()
        invariant
            i <= raw.len(),
            forall|j: int| 0 <= j < i ==> !ascii_letter(#[trigger] raw@[j]),
        decreases raw.len() - i,
    {
        let byte = raw[i];
        if (0x41 <= byte && byte <= 0x5a) || (0x61 <= byte && byte <= 0x7a) {
            assert(ascii_letter(raw@[i as int]));
            return true;
        }
        i = i + 1;
    }
    false
}

/// A selector byte: a digit, `;` or `'`.
pub open spec fn selector_byte(byte: u8) -> bool {
    (0x30 <= byte && byte <= 0x39) || byte == 0x3b || byte == 0x27
}

/// The input holds a selector byte.
pub fn has_selection_suffix_bytes(raw: &[u8]) -> (found: bool)
    ensures
        found == exists|i: int| 0 <= i < raw@.len() && selector_byte(#[trigger] raw@[i]),
{
    let mut i: usize = 0;
    while i < raw.len()
        invariant
            i <= raw.len(),
            forall|j: int| 0 <= j < i ==> !selector_byte(#[trigger] raw@[j]),
        decreases raw.len() - i,
    {
        let byte = raw[i];
        if (0x30 <= byte && byte <= 0x39) || byte == 0x3b || byte == 0x27 {
            assert(selector_byte(raw@[i as int]));
            return true;
        }
        i = i + 1;
    }
    false
}

/// Length of the run of selector bytes at the end of the input.
pub fn trailing_selector_span(raw: &[u8]) -> (span: usize)
    ensures
        span <= raw@.len(),
        forall|i: int| raw@.len() - span <= i < raw@.len() ==> selector_byte(#[trigger] raw@[i]),
        span < raw@.len() ==> !selector_byte(raw@[raw@.len() - span - 1]),
{
    let mut index = raw.len();
    while index > 0 && ((0x30 <= raw[index - 1] && raw[index - 1] <= 0x39) || raw[index - 1] == 0x3b
        || raw[index - 1] == 0x27)
        invariant
            index <= raw.len(),
            forall|i: int| index <= i < raw@.len() ==> selector_byte(#[trigger] raw@[i]),
        decreases index,
    {
        index = index - 1;
    }
    raw.len() - index
}

/// An ASCII digit.
pub open spec fn digit(byte: u8) -> bool {
    0x30 <= byte && byte <= 0x39
}

/// The selector after a code ending at `code_end`: `(rank, end of the selector)`; `;` picks
/// rank 2, `'` rank 3, a lone `0` rank 10, other digits their value (saturating), and
/// no selector gives rank 0.
pub open spec fn spec_parse_selector(raw: Seq<u8>, code_end: int) -> (u64, int) {
    if code_end < 0 || code_end >= raw.len() {
        (0, code_end)
    } else if raw[code_end] == 0x3b {
        (2, code_end + 1)
    } else if raw[code_end] == 0x27 {
        (3, code_end + 1)
    } else if in_range(raw[code_end], 0x30, 0x39) {
        let end = digit_run_end(raw, code_end);
        let value = decimal_value(raw, code_end, end);
        if end == code_end + 1 && raw[code_end] == 0x30 {
            (10, end)
        } else if value <= u64::MAX {
            (value as u64, end)
        } else {
            (u64::MAX, end)
        }
    } else {
        (0, code_end)
    }
}

/// Reads the selector after a code ending at `code_end`.
pub fn parse_selector(raw: &[u8], code_end: usize) -> (selector: (u64, usize))
    ensures
        (selector.0, selector.1 as int) == spec_parse_selector(raw@, code_end as int),
{
    let next = code_end;
    if next >= raw.len() {
        return (0, code_end);
    }
    let byte = raw[next];
    if byte == 0x3b {
        return (2, next + 1);
    }
    if byte == 0x27 {
        return (3, next + 1);
    }
    if 0x30 <= byte && byte <= 0x39 {
        proof {
            lemma_digit_run_end_bounds(raw@, next as int);
        }
        let mut end = next;
        let mut value: u64 = 0;
        let mut saturated = false;
        while end < raw.len() && 0x30 <= raw[end] && raw[end] <= 0x39
            invariant
                next <= end <= raw@.len(),
                digit_run_end(raw@, next as int) == digit_run_end(raw@, end as int),
                !saturated ==> value as nat == decimal_value(raw@, next as int, end as int),
                saturated ==> decimal_value(raw@, next as int, end as int) > u64::MAX,
            decreases raw.len() - end,
        {
            let d = (raw[end] - 0x30) as u64;
            proof {
                assert(decimal_value(raw@, next as int, end + 1) == decimal_value(raw@, next as int, end as int) * 10 + d);
                if saturated {
                    assert(decimal_value(raw@, next as int, end as int) * 10 + d > u64::MAX) by (nonlinear_arith)
                        requires
                            decimal_value(raw@, next as int, end as int) > u64::MAX,
                    ;
                }
            }
            if !saturated {
                if value > (u64::MAX - d) / 10 {
                    proof {
                        assert(value * 10 + d > u64::MAX) by (nonlinear_arith)
                            requires
                                value > (u64::MAX - d) / 10,
                                d <= 9,
                        ;
                    }
                    saturated = true;
                } else {
                    value = value * 10 + d;
                }
            }
            end = end + 1;
        }
        if end == next + 1 && byte == 0x30 {
            return (10, end);
        }
        if saturated {
            return (u64::MAX, end);
        }
        return (value, end);
    }
    (0, code_end)
}

/// Advances a match of `required` (bytes `0..matched` already matched) by `candidate`:
/// `None` unless the candidate's bytes continue the required prefix, as far as both go.
pub open spec fn spec_advance_required_prefix(required: Seq<u8>, matched: int, candidate: Seq<u8>) -> Option<int> {
    if matched >= required.len() {
        Some(matched)
    } else {
        let compare = if candidate.len() < required.len() - matched { candidate.len() as int } else { required.len() - matched };
        if compare == 0 || required.subrange(matched, matched + compare) != candidate.take(compare) {
            None
        } else if required.len() < matched + candidate.len() {
            Some(required.len() as int)
        } else {
            Some(matched + candidate.len())
        }
    }
}

/// Advances a required-prefix match by a candidate text (byte comparison).
pub fn advance_required_prefix(required: &str, matched: usize, candidate: &str) -> (next: Option<usize>)
    ensures
        match next {
            Some(n) => spec_advance_required_prefix(required.spec_bytes(), matched as int, candidate.spec_bytes()) == Some(n as int),
            None => spec_advance_required_prefix(required.spec_bytes(), matched as int, candidate.spec_bytes()) is None,
        },
{
    let required_bytes = required.as_bytes();
    let candidate_bytes = candidate.as_bytes();
    if matched >= required_bytes.len() {
        return Some(matched);
    }
    let rest = required_bytes.len() - matched;
    let compare = if candidate_bytes.len() < rest { candidate_bytes.len() } else { rest };
    if compare == 0 {
        return None;
    }
    let mut i: usize = 0;
    while i < compare
        invariant
            i <= compare,
            0 < compare,
            matched < required_bytes@.len(),
            matched + compare <= required_bytes@.len(),
            matched + compare <= required_bytes.len(),
            compare <= candidate_bytes@.len(),
            compare == if candidate_bytes@.len() < required_bytes@.len() - matched {
                candidate_bytes@.len() as int
            } else {
                required_bytes@.len() - matched
            },
            required_bytes@ == required.spec_bytes(),
            candidate_bytes@ == candidate.spec_bytes(),
            forall|j: int| 0 <= j < i ==> required_bytes@[matched + j] == candidate_bytes@[j],
        decreases compare - i,
    {
        if required_bytes[matched + i] != candidate_bytes[i] {
            assert(required_bytes@.subrange(matched as int, matched + compare)[i as int] != candidate_bytes@.take(compare as int)[i as int]);
            return None;
        }
        i = i + 1;
    }
    assert(required_bytes@.subrange(matched as int, matched + compare) =~= candidate_bytes@.take(compare as int));
    if required_bytes.len() - matched < candidate_bytes.len() {
        Some(required_bytes.len())
    } else {
        Some(matched + candidate_bytes.len())
    }
}

/// The boundary pairs `raw,text;` (two runs of digits) found in `bytes` from `i`, scanning
/// left to right: a failed match retries one byte further, a match continues after it.
pub open spec fn boundaries_from(bytes: Seq<u8>, i: int) -> Seq<(usize, usize)>
    decreases bytes.len() - i,
{
    if i < 0 || i >= bytes.len() {
        Seq::empty()
    } else {
        let first_end = digit_run_end(bytes, i);
        proof {
            lemma_digit_run_end_bounds(bytes, i);
        }
        if first_end == i || first_end >= bytes.len() || bytes[first_end] != 0x2c {
            boundaries_from(bytes, i + 1)
        } else {
            let second_end = digit_run_end(bytes, first_end + 1);
            proof {
                lemma_digit_run_end_bounds(bytes, first_end + 1);
            }
            if second_end == first_end + 1 || second_end >= bytes.len() || bytes[second_end] != 0x3b {
                boundaries_from(bytes, i + 1)
            } else {
                let first = decimal_value(bytes, i, first_end);
                let second = decimal_value(bytes, first_end + 1, second_end);
                if first <= usize::MAX && second <= usize::MAX {
                    seq![(first as usize, second as usize)] + boundaries_from(bytes, second_end + 1)
                } else {
                    boundaries_from(bytes, second_end + 1)
                }
            }
        }
    }
}

/// The end of the digit run from `start`, with its value when it fits in `usize`.
fn scan_number(bytes: &[u8], start: usize) -> (scanned: (usize, Option<usize>))
    requires
        start <= bytes@.len(),
    ensures
        start <= scanned.0 <= bytes@.len(),
        scanned.0 as int == digit_run_end(bytes@, start as int),
        match scanned.1 {
            Some(v) => v as nat == decimal_value(bytes@, start as int, scanned.0 as int),
            None => decimal_value(bytes@, start as int, scanned.0 as int) > usize::MAX,
        },
{
    proof {
        lemma_digit_run_end_bounds(bytes@, start as int);
    }
    let mut end = start;
    let mut value: usize = 0;
    let mut fits = true;
    while end < bytes.len() && 0x30 <= bytes[end] && bytes[end] <= 0x39
        invariant
            start <= end <= bytes@.len(),
            digit_run_end(bytes@, start as int) == digit_run_end(bytes@, end as int),
            fits ==> value as nat == decimal_value(bytes@, start as int, end as int),
            !fits ==> decimal_value(bytes@, start as int, end as int) > usize::MAX,
        decreases bytes.len() - end,
    {
        let d = (bytes[end] - 0x30) as usize;
        proof {
            assert(decimal_value(bytes@, start as int, end + 1) == decimal_value(bytes@, start as int, end as int) * 10 + d);
            if !fits {
                assert(decimal_value(bytes@, start as int, end as int) * 10 + d > usize::MAX) by (nonlinear_arith)
                    requires
                        decimal_value(bytes@, start as int, end as int) > usize::MAX,
                ;
            }
        }
        if fits {
            if value > (usize::MAX - d) / 10 {
                proof {
                    assert(value * 10 + d > usize::MAX) by (nonlinear_arith)
                        requires
                            value > (usize::MAX - d) / 10,
                            d <= 9,
                    ;
                }
                fits = false;
            } else {
                value = value * 10 + d;
            }
        }
        end = end + 1;
    }
    (end, if fits { Some(value) } else { None })
}

/// Reads the boundary pairs of a lock (`"2,3;4,6;"` → `[(2, 3), (4, 6)]`).
pub fn parse_boundaries(value: &str) -> (pairs: Vec<(usize, usize)>)
    ensures
        pairs@ == boundaries_from(value.spec_bytes(), 0),
{
    let bytes = value.as_bytes();
    let ghost all = value.spec_bytes();
    let mut result: Vec<(usize, usize)> = Vec::new();
    let mut index: usize = 0;
    while index < bytes.len()
        invariant
            bytes@ == all,
            all == value.spec_bytes(),
            index <= bytes.len(),
            boundaries_from(all, 0) == result@ + boundaries_from(all, index as int),
        decreases bytes.len() - index,
    {
        let first_start = index;
        let (first_end, first) = scan_number(bytes, first_start);
        if first_end == first_start || first_end >= bytes.len() || bytes[first_end] != 0x2c {
            index = first_start + 1;
            continue;
        }
        let (second_end, second) = scan_number(bytes, first_end + 1);
        if second_end == first_end + 1 || second_end >= bytes.len() || bytes[second_end] != 0x3b {
            index = first_start + 1;
            continue;
        }
        index = second_end + 1;
        match (first, second) {
            (Some(a), Some(b)) => {
                proof {
                    assert(boundaries_from(all, first_start as int) == seq![(a, b)] + boundaries_from(all, index as int));
                    assert(result@.push((a, b)) + boundaries_from(all, index as int) =~= result@ + (seq![(a, b)]
                        + boundaries_from(all, index as int)));
                }
                result.push((a, b));
            },
            _ => {},
        }
    }
    assert(result@ + Seq::<(usize, usize)>::empty() =~= result@);
    result
}

/// A dictionary entry as the search reads it: text and rank.
pub open spec fn entry_view(entry: CodeEntry) -> (Seq<char>, u32) {
    (entry.text@, entry.rank)
}

/// The views of a list of entries.
pub open spec fn entry_views(entries: Seq<CodeEntry>) -> Seq<(Seq<char>, u32)> {
    entries.map_values(|entry: CodeEntry| entry_view(entry))
}

/// The candidate is a single character.
pub open spec fn single_char_entry(entry: CodeEntry) -> bool {
    entry.text@.len() == 1
}

/// Whether an entry is eligible: a selector picks its rank; the whole input takes every
/// entry; otherwise the first rank, and single characters too when duplicates are allowed.
pub open spec fn entry_eligible(entry: CodeEntry, selected_rank: u64, whole_input_edge: bool, allow_duplicate_single: bool) -> bool {
    if selected_rank > 0 {
        entry.rank == selected_rank
    } else if whole_input_edge {
        true
    } else if allow_duplicate_single {
        entry.rank == 1 || single_char_entry(entry)
    } else {
        entry.rank == 1
    }
}

/// The eligible entries of `entries`, in order.
pub open spec fn eligible_of(entries: Seq<CodeEntry>, selected_rank: u64, whole_input_edge: bool, allow_duplicate_single: bool) -> Seq<CodeEntry>
    decreases entries.len(),
{
    if entries.len() == 0 {
        Seq::empty()
    } else {
        let rest = eligible_of(entries.drop_last(), selected_rank, whole_input_edge, allow_duplicate_single);
        if entry_eligible(entries.last(), selected_rank, whole_input_edge, allow_duplicate_single) {
            rest.push(entries.last())
        } else {
            rest
        }
    }
}

/// The entries behind a list of references.
pub open spec fn entries_of(refs: Seq<&CodeEntry>) -> Seq<CodeEntry> {
    refs.map_values(|entry: &CodeEntry| *entry)
}

/// The entries of a code that a path may use here.
pub fn eligible_candidates(
    candidates: &[CodeEntry],
    selected_rank: u64,
    whole_input_edge: bool,
    allow_duplicate_single: bool,
) -> (eligible: Vec<&CodeEntry>)
    ensures
        entries_of(eligible@) == eligible_of(candidates@, selected_rank, whole_input_edge, allow_duplicate_single),
{
    let mut out: Vec<&CodeEntry> = Vec::new();
    let mut i: usize = 0;
    assert(candidates@.take(0) =~= Seq::<CodeEntry>::empty());
    while i < candidates.len()
        invariant
            i <= candidates.len(),
            entries_of(out@) == eligible_of(candidates@.take(i as int), selected_rank, whole_input_edge, allow_duplicate_single),
        decreases candidates.len() - i,
    {
        proof {
            assert(candidates@.take(i + 1).drop_last() =~= candidates@.take(i as int));
            assert(candidates@.take(i + 1).last() == candidates@[i as int]);
        }
        let entry = &candidates[i];
        let single = crate::learning::character_count(entry.text.as_str()) == 1;
        let eligible = if selected_rank > 0 {
            entry.rank as u64 == selected_rank
        } else if whole_input_edge {
            true
        } else if allow_duplicate_single {
            entry.rank == 1 || single
        } else {
            entry.rank == 1
        };
        let ghost before = out@;
        if eligible {
            out.push(entry);
            assert(entries_of(out@) =~= entries_of(before).push(*entry));
        }
        i = i + 1;
    }
    assert(candidates@.take(i as int) =~= candidates@);
    out
}

// ---------------------------------------------------------------- completion search

/// What the completion search reads of its inputs: the normalised input, the text prefix
/// a completion must begin with, the text it must not equal, whether only first ranks
/// (and single characters, when duplicates are allowed) may be used, and whether
/// duplicate single characters are allowed.
pub struct CompletionQuery {
    pub raw: Seq<u8>,
    pub required: Seq<u8>,
    pub excluded: Option<Seq<u8>>,
    pub first_ranks_only: bool,
    pub allow_duplicate_single: bool,
}

/// Eligibility of an entry read from its text and rank (as `entry_eligible`).
pub open spec fn view_eligible(entry: (Seq<char>, u32), selected_rank: u64, whole_input_edge: bool, allow_duplicate_single: bool) -> bool {
    if selected_rank > 0 {
        entry.1 == selected_rank
    } else if whole_input_edge {
        true
    } else if allow_duplicate_single {
        entry.1 == 1 || entry.0.len() == 1
    } else {
        entry.1 == 1
    }
}

/// A step of the search from `position`: a code of a length in use, followed by its
/// selector, and an eligible entry of that code. A step over more than one byte of input
/// must span at least two bytes.
pub open spec fn edge_allowed(query: CompletionQuery, lexicon: Lexicon, position: int, length: usize, entry: (Seq<char>, u32)) -> bool {
    let n = query.raw.len();
    let selector = spec_parse_selector(query.raw, position + length);
    &&& lexicon.code_lengths().contains(length)
    &&& 0 <= position && position + length <= n
    &&& lexicon.code_entries().contains_key(query.raw.subrange(position, position + length))
    &&& lexicon.code_entries()[query.raw.subrange(position, position + length)].contains(entry)
    &&& !(n > 1 && selector.1 - position < 2)
    &&& view_eligible(entry, selector.0, position == 0 && selector.1 == n, query.allow_duplicate_single)
}

/// Where a step of `length` from `position` ends (after its selector).
pub open spec fn step_end(query: CompletionQuery, position: int, length: usize) -> int {
    spec_parse_selector(query.raw, position + length).1
}

/// How far the text built so far still equals the excluded text: `at` bytes of it match,
/// and a value past its length means the texts differ.
pub open spec fn excluded_after(excluded: Option<Seq<u8>>, at: int, text: Seq<u8>) -> int {
    match excluded {
        Some(e) => if at <= e.len() {
            if text.len() <= e.len() - at && e.subrange(at, at + text.len()) == text {
                at + text.len()
            } else {
                e.len() + 1int
            }
        } else {
            at
        },
        None => at,
    }
}

/// The first-rank filter rejects the entry.
pub open spec fn rank_filtered(query: CompletionQuery, entry: (Seq<char>, u32)) -> bool {
    query.first_ranks_only && entry.1 != 1 && !(query.allow_duplicate_single && entry.0.len() == 1)
}

/// The search state after appending an entry's text: how much of the required prefix is
/// matched, and how far the text still equals the excluded text.
pub open spec fn next_state(query: CompletionQuery, state: (int, int), entry: (Seq<char>, u32)) -> Option<(int, int)> {
    let text = encode_utf8(entry.0);
    match spec_advance_required_prefix(query.required, state.0, text) {
        Some(matched) => if rank_filtered(query, entry) {
            None
        } else {
            Some((matched, excluded_after(query.excluded, state.1, text)))
        },
        None => None,
    }
}

/// One step of the search: from the position and state reached, a code of `step.0`
/// bytes and the entry `step.1`; `None` when nothing was reached or the step is not
/// allowed there.
pub open spec fn search_step(
    query: CompletionQuery,
    lexicon: Lexicon,
    reached: Option<(int, (int, int))>,
    step: (usize, (Seq<char>, u32)),
) -> Option<(int, (int, int))> {
    match reached {
        Some(at) => if edge_allowed(query, lexicon, at.0, step.0, step.1) {
            match next_state(query, at.1, step.1) {
                Some(state) => Some((step_end(query, at.0, step.0), state)),
                None => None,
            }
        } else {
            None
        },
        None => None,
    }
}

/// Where a sequence of steps leads from `start` in state `init`.
pub open spec fn search_run(
    query: CompletionQuery,
    lexicon: Lexicon,
    start: int,
    init: (int, int),
    path: Seq<(usize, (Seq<char>, u32))>,
) -> Option<(int, (int, int))>
    decreases path.len(),
{
    if path.len() == 0 {
        Some((start, init))
    } else {
        search_step(query, lexicon, search_run(query, lexicon, start, init, path.drop_last()), path.last())
    }
}

/// A state that completes the search: the required prefix is matched and the text is not
/// the excluded one.
pub open spec fn completes(query: CompletionQuery, state: (int, int)) -> bool {
    &&& state.0 == query.required.len()
    &&& match query.excluded {
        Some(e) => state.1 != e.len(),
        None => true,
    }
}

/// Some sequence of steps from `start` covers the whole input and completes.
pub open spec fn completable_from(query: CompletionQuery, lexicon: Lexicon, start: int, init: (int, int)) -> bool {
    exists|path: Seq<(usize, (Seq<char>, u32))>|
        #[trigger] search_run(query, lexicon, start, init, path) matches Some(reached) && reached.0 == query.raw.len()
            && completes(query, reached.1)
}

/// The excluded-text state a lock starts the search in.
pub open spec fn lock_excluded(excluded: Option<Seq<u8>>, text: Seq<u8>) -> int {
    match excluded {
        Some(e) => if text.len() <= e.len() && e.take(text.len() as int) == text {
            text.len() as int
        } else {
            e.len() + 1int
        },
        None => 0,
    }
}

/// Whether the input can be covered completely by dictionary codes with eligible entries
/// whose texts begin with `required` and differ from `excluded`; a lock `(raw, text)`
/// fixes the beginning of both the input and the text, and the search starts after it.
pub open spec fn spec_has_complete_candidate(
    lexicon: Lexicon,
    raw_code: Seq<u8>,
    required: Seq<u8>,
    excluded: Option<Seq<u8>>,
    group_eligible_only: bool,
    allow_duplicate_single: bool,
    lock: Option<(Seq<u8>, Seq<u8>)>,
) -> bool {
    let raw = spec_normalize(raw_code);
    if raw.len() == 0 || !(exists|i: int| 0 <= i < raw.len() && ascii_letter(#[trigger] raw[i])) {
        false
    } else {
        let query = CompletionQuery {
            raw: raw,
            required: required,
            excluded: excluded,
            first_ranks_only: group_eligible_only && !(exists|i: int| 0 <= i < raw.len() && selector_byte(#[trigger] raw[i])),
            allow_duplicate_single: allow_duplicate_single,
        };
        match lock {
            None => completable_from(query, lexicon, 0, (0, 0)),
            Some(locked) => {
                let prefix = spec_normalize(locked.0);
                let matched = if required.len() < locked.1.len() { required.len() as int } else { locked.1.len() as int };
                if !(prefix.len() <= raw.len() && raw.take(prefix.len() as int) == prefix)
                    || required.take(matched) != locked.1.take(matched) {
                    false
                } else {
                    completable_from(query, lexicon, prefix.len() as int, (matched, lock_excluded(excluded, locked.1)))
                }
            },
        }
    }
}

/// A state within the bounds of its query.
spec fn state_ok(query: CompletionQuery, state: (int, int)) -> bool {
    &&& 0 <= state.0 <= query.required.len()
    &&& match query.excluded {
        Some(e) => 0 <= state.1 <= e.len() + 1,
        None => state.1 == 0,
    }
}

/// A stored state as a pair of integers.
spec fn as_pair(state: (usize, usize)) -> (int, int) {
    (state.0 as int, state.1 as int)
}

/// A reached position and state is accounted for: stored, or at the end of the input
/// without completing.
spec fn recorded(query: CompletionQuery, states: Seq<StateSet>, reached: (int, (int, int))) -> bool {
    if reached.0 == query.raw.len() {
        !completes(query, reached.1)
    } else {
        0 <= reached.0 < states.len() && state_set_contents(states[reached.0]).contains(
            (reached.1.0 as usize, reached.1.1 as usize),
        )
    }
}

/// Every stored state is still stored.
spec fn grows(before: Seq<StateSet>, after: Seq<StateSet>) -> bool {
    &&& before.len() == after.len()
    &&& forall|p: int, s: (usize, usize)|
        0 <= p < before.len() && #[trigger] state_set_contents(before[p]).contains(s) ==> state_set_contents(
            after[p],
        ).contains(s)
}

/// Every stored state is reached by some sequence of steps.
spec fn sound(query: CompletionQuery, lexicon: Lexicon, start: int, init: (int, int), states: Seq<StateSet>) -> bool {
    forall|p: int, s: (usize, usize)|
        0 <= p < states.len() && #[trigger] state_set_contents(states[p]).contains(s) ==> exists|
            path: Seq<(usize, (Seq<char>, u32))>,
        | #[trigger] search_run(query, lexicon, start, init, path) == Some((p, as_pair(s)))
}

/// Every sequence of steps whose last step starts before `bound` is accounted for.
spec fn covered_before(
    query: CompletionQuery,
    lexicon: Lexicon,
    start: int,
    init: (int, int),
    states: Seq<StateSet>,
    bound: int,
) -> bool {
    &&& recorded(query, states, (start, init))
    &&& forall|prefix: Seq<(usize, (Seq<char>, u32))>, step: (usize, (Seq<char>, u32))|
        #![trigger search_step(query, lexicon, search_run(query, lexicon, start, init, prefix), step)]
        search_step(query, lexicon, search_run(query, lexicon, start, init, prefix), step) matches Some(reached)
            ==> (search_run(query, lexicon, start, init, prefix) matches Some(prev) && prev.0 < bound
            ==> recorded(query, states, reached))
}

/// The steps from the current position handled so far: every length of `done_lengths`;
/// of `length`, every state of `done_states`; of `length` and `state`, every entry of
/// `done_entries`.
spec fn step_done(
    prev_state: (int, int),
    step: (usize, (Seq<char>, u32)),
    done_lengths: Seq<usize>,
    length: usize,
    done_states: Seq<(usize, usize)>,
    state: (usize, usize),
    done_entries: Seq<(Seq<char>, u32)>,
) -> bool {
    ||| done_lengths.contains(step.0)
    ||| step.0 == length && done_states.contains((prev_state.0 as usize, prev_state.1 as usize))
    ||| step.0 == length && (prev_state.0 as usize, prev_state.1 as usize) == state && done_entries.contains(step.1)
}

/// Every handled step from `position` is accounted for.
spec fn covered_at(
    query: CompletionQuery,
    lexicon: Lexicon,
    start: int,
    init: (int, int),
    states: Seq<StateSet>,
    position: int,
    done_lengths: Seq<usize>,
    length: usize,
    done_states: Seq<(usize, usize)>,
    state: (usize, usize),
    done_entries: Seq<(Seq<char>, u32)>,
) -> bool {
    forall|prefix: Seq<(usize, (Seq<char>, u32))>, step: (usize, (Seq<char>, u32))|
        #![trigger search_step(query, lexicon, search_run(query, lexicon, start, init, prefix), step)]
        search_step(query, lexicon, search_run(query, lexicon, start, init, prefix), step) matches Some(reached)
            ==> (search_run(query, lexicon, start, init, prefix) matches Some(prev) && prev.0 == position
            && step_done(prev.1, step, done_lengths, length, done_states, state, done_entries)
            ==> recorded(query, states, reached))
}

/// A selector ends at or after its code and within the input.
proof fn lemma_selector_end(raw: Seq<u8>, code_end: int)
    requires
        0 <= code_end <= raw.len(),
    ensures
        code_end <= spec_parse_selector(raw, code_end).1 <= raw.len(),
{
    if code_end < raw.len() {
        lemma_digit_run_end_bounds(raw, code_end);
    }
}

/// A step moves forward, within the input, and keeps the state within bounds.
proof fn lemma_step_facts(
    query: CompletionQuery,
    lexicon: Lexicon,
    at: (int, (int, int)),
    step: (usize, (Seq<char>, u32)),
)
    requires
        lexicon.wf(),
        state_ok(query, at.1),
        search_step(query, lexicon, Some(at), step) is Some,
    ensures
        0 <= at.0 < search_step(query, lexicon, Some(at), step)->Some_0.0 <= query.raw.len(),
        state_ok(query, search_step(query, lexicon, Some(at), step)->Some_0.1),
{
    let k = choose|k: int| 0 <= k < lexicon.code_lengths().len() && lexicon.code_lengths()[k] == step.0;
    assert(lexicon.code_lengths()[k] >= 1);
    lemma_selector_end(query.raw, at.0 + step.0);
    let text = encode_utf8(step.1.0);
    let matched = spec_advance_required_prefix(query.required, at.1.0, text);
    assert(matched is Some);
}

/// Every reached position lies between `start` and the end of the input, with its state
/// within bounds.
proof fn lemma_run_facts(
    query: CompletionQuery,
    lexicon: Lexicon,
    start: int,
    init: (int, int),
    path: Seq<(usize, (Seq<char>, u32))>,
)
    requires
        lexicon.wf(),
        0 <= start <= query.raw.len(),
        state_ok(query, init),
    ensures
        search_run(query, lexicon, start, init, path) matches Some(reached) ==> start <= reached.0
            <= query.raw.len() && state_ok(query, reached.1),
    decreases path.len(),
{
    if path.len() > 0 {
        lemma_run_facts(query, lexicon, start, init, path.drop_last());
        let prev = search_run(query, lexicon, start, init, path.drop_last());
        if search_run(query, lexicon, start, init, path) is Some {
            lemma_step_facts(query, lexicon, prev->Some_0, path.last());
        }
    }
}

/// A run unfolds into the run of its prefix and one step.
proof fn lemma_run_push(
    query: CompletionQuery,
    lexicon: Lexicon,
    start: int,
    init: (int, int),
    prefix: Seq<(usize, (Seq<char>, u32))>,
    step: (usize, (Seq<char>, u32)),
)
    ensures
        search_run(query, lexicon, start, init, prefix.push(step)) == search_step(
            query,
            lexicon,
            search_run(query, lexicon, start, init, prefix),
            step,
        ),
{
    assert(prefix.push(step).drop_last() =~= prefix);
}

/// Accounted-for states stay accounted for as the stored sets grow.
proof fn lemma_recorded_grows(query: CompletionQuery, before: Seq<StateSet>, after: Seq<StateSet>, reached: (int, (int, int)))
    requires
        grows(before, after),
        recorded(query, before, reached),
    ensures
        recorded(query, after, reached),
{
    if reached.0 != query.raw.len() {
        assert(state_set_contents(before[reached.0]).contains((reached.1.0 as usize, reached.1.1 as usize)));
    }
}

/// Coverage survives growth of the stored sets.
proof fn lemma_covered_grows(
    query: CompletionQuery,
    lexicon: Lexicon,
    start: int,
    init: (int, int),
    before: Seq<StateSet>,
    after: Seq<StateSet>,
    bound: int,
    position: int,
    done_lengths: Seq<usize>,
    length: usize,
    done_states: Seq<(usize, usize)>,
    state: (usize, usize),
    done_entries: Seq<(Seq<char>, u32)>,
)
    requires
        grows(before, after),
    ensures
        covered_before(query, lexicon, start, init, before, bound) ==> covered_before(
            query,
            lexicon,
            start,
            init,
            after,
            bound,
        ),
        covered_at(query, lexicon, start, init, before, position, done_lengths, length, done_states, state, done_entries)
            ==> covered_at(query, lexicon, start, init, after, position, done_lengths, length, done_states, state, done_entries),
{
    if covered_before(query, lexicon, start, init, before, bound) {
        lemma_recorded_grows(query, before, after, (start, init));
        assert forall|prefix: Seq<(usize, (Seq<char>, u32))>, step: (usize, (Seq<char>, u32))|
            #![trigger search_step(query, lexicon, search_run(query, lexicon, start, init, prefix), step)]
            search_step(query, lexicon, search_run(query, lexicon, start, init, prefix), step) matches Some(reached)
                && (search_run(query, lexicon, start, init, prefix) matches Some(prev) && prev.0 < bound)
                implies recorded(query, after, search_step(query, lexicon, search_run(query, lexicon, start, init, prefix), step)->Some_0) by {
            lemma_recorded_grows(query, before, after, search_step(query, lexicon, search_run(query, lexicon, start, init, prefix), step)->Some_0);
        }
    }
    if covered_at(query, lexicon, start, init, before, position, done_lengths, length, done_states, state, done_entries) {
        assert forall|prefix: Seq<(usize, (Seq<char>, u32))>, step: (usize, (Seq<char>, u32))|
            #![trigger search_step(query, lexicon, search_run(query, lexicon, start, init, prefix), step)]
            search_step(query, lexicon, search_run(query, lexicon, start, init, prefix), step) matches Some(reached)
                && (search_run(query, lexicon, start, init, prefix) matches Some(prev) && prev.0 == position
                && step_done(prev.1, step, done_lengths, length, done_states, state, done_entries))
                implies recorded(query, after, search_step(query, lexicon, search_run(query, lexicon, start, init, prefix), step)->Some_0) by {
            lemma_recorded_grows(query, before, after, search_step(query, lexicon, search_run(query, lexicon, start, init, prefix), step)->Some_0);
        }
    }
}

/// A prefix that reaches `position` has its state stored there, when every sequence of
/// steps whose last step starts before `position` is accounted for.
proof fn lemma_reached_stored(
    query: CompletionQuery,
    lexicon: Lexicon,
    start: int,
    init: (int, int),
    states: Seq<StateSet>,
    position: int,
    prefix: Seq<(usize, (Seq<char>, u32))>,
)
    requires
        lexicon.wf(),
        0 <= start <= position < query.raw.len(),
        state_ok(query, init),
        covered_before(query, lexicon, start, init, states, position),
        search_run(query, lexicon, start, init, prefix) matches Some(prev) && prev.0 == position,
    ensures
        recorded(query, states, search_run(query, lexicon, start, init, prefix)->Some_0),
{
    if prefix.len() > 0 {
        let before = prefix.drop_last();
        lemma_run_facts(query, lexicon, start, init, before);
        let pp = search_run(query, lexicon, start, init, before)->Some_0;
        lemma_step_facts(query, lexicon, pp, prefix.last());
        assert(search_step(query, lexicon, search_run(query, lexicon, start, init, before), prefix.last()) == search_run(query, lexicon, start, init, prefix));
    }
}

/// Every eligible entry of a code is among the eligible entries listed.
proof fn lemma_eligible_listed(
    entries: Seq<CodeEntry>,
    selected_rank: u64,
    whole_input_edge: bool,
    allow_duplicate_single: bool,
    entry: (Seq<char>, u32),
)
    requires
        entry_views(entries).contains(entry),
        view_eligible(entry, selected_rank, whole_input_edge, allow_duplicate_single),
    ensures
        entry_views(eligible_of(entries, selected_rank, whole_input_edge, allow_duplicate_single)).contains(entry),
    decreases entries.len(),
{
    let rest = eligible_of(entries.drop_last(), selected_rank, whole_input_edge, allow_duplicate_single);
    assert(entry_views(entries.drop_last()).push(entry_view(entries.last())) =~= entry_views(entries));
    if entry_view(entries.last()) == entry {
        assert(entry_views(rest.push(entries.last())) =~= entry_views(rest).push(entry));
        assert(entry_views(rest.push(entries.last())).last() == entry);
    } else {
        let i = choose|i: int| 0 <= i < entry_views(entries).len() && entry_views(entries)[i] == entry;
        assert(entry_views(entries.drop_last())[i] == entry);
        lemma_eligible_listed(entries.drop_last(), selected_rank, whole_input_edge, allow_duplicate_single, entry);
        if entry_eligible(entries.last(), selected_rank, whole_input_edge, allow_duplicate_single) {
            assert(entry_views(rest.push(entries.last())) =~= entry_views(rest).push(entry_view(entries.last())));
            let m = choose|m: int| 0 <= m < entry_views(rest).len() && entry_views(rest)[m] == entry;
            assert(entry_views(rest.push(entries.last()))[m] == entry);
        }
    }
}

/// The eligible entries listed are entries of the code, and eligible.
proof fn lemma_eligible_member(
    entries: Seq<CodeEntry>,
    selected_rank: u64,
    whole_input_edge: bool,
    allow_duplicate_single: bool,
    i: int,
)
    requires
        0 <= i < eligible_of(entries, selected_rank, whole_input_edge, allow_duplicate_single).len(),
    ensures
        entries.contains(eligible_of(entries, selected_rank, whole_input_edge, allow_duplicate_single)[i]),
        entry_eligible(eligible_of(entries, selected_rank, whole_input_edge, allow_duplicate_single)[i], selected_rank, whole_input_edge, allow_duplicate_single),
    decreases entries.len(),
{
    let rest = eligible_of(entries.drop_last(), selected_rank, whole_input_edge, allow_duplicate_single);
    if i < rest.len() {
        lemma_eligible_member(entries.drop_last(), selected_rank, whole_input_edge, allow_duplicate_single, i);
        let k = choose|k: int| 0 <= k < entries.drop_last().len() && entries.drop_last()[k] == rest[i];
        assert(entries[k] == rest[i]);
    } else {
        assert(entries[entries.len() - 1] == entries.last());
    }
}

/// The excluded text as bytes.
pub open spec fn excluded_bytes(excluded: Option<&str>) -> Option<Seq<u8>> {
    match excluded {
        Some(text) => Some(text.spec_bytes()),
        None => None,
    }
}

/// Whether `needle` occurs in `haystack` at `from`.
pub(crate) fn bytes_start_at(haystack: &[u8], from: usize, needle: &[u8]) -> (found: bool)
    requires
        from <= haystack@.len(),
    ensures
        found == (needle@.len() <= haystack@.len() - from && haystack@.subrange(from as int, from + needle@.len())
            == needle@),
{
    if needle.len() > haystack.len() - from {
        return false;
    }
    let mut i: usize = 0;
    while i < needle.len()
        invariant
            i <= needle.len(),
            from <= haystack.len(),
            needle.len() <= haystack.len() - from,
            forall|j: int| 0 <= j < i ==> haystack@[from + j] == needle@[j],
        decreases needle.len() - i,
    {
        if haystack[from + i] != needle[i] {
            assert(haystack@.subrange(from as int, from + needle@.len())[i as int] != needle@[i as int]);
            return false;
        }
        i = i + 1;
    }
    assert(haystack@.subrange(from as int, from + needle@.len()) =~= needle@);
    true
}

/// The state after appending an entry's text (as `next_state`).
fn next_search_state(
    required: &str,
    excluded: Option<&str>,
    first_ranks_only: bool,
    allow_duplicate_single: bool,
    state: (usize, usize),
    entry: &CodeEntry,
    Ghost(query): Ghost<CompletionQuery>,
) -> (next: Option<(usize, usize)>)
    requires
        query.required == required.spec_bytes(),
        query.excluded == excluded_bytes(excluded),
        query.first_ranks_only == first_ranks_only,
        query.allow_duplicate_single == allow_duplicate_single,
        state_ok(query, as_pair(state)),
        excluded matches Some(text) ==> text.spec_bytes().len() < usize::MAX,
    ensures
        match next_state(query, as_pair(state), entry_view(*entry)) {
            Some(t) => next matches Some(u) && as_pair(u) == t,
            None => next is None,
        },
{
    let text = entry.text.as_str();
    let matched = match advance_required_prefix(required, state.0, text) {
        Some(m) => m,
        None => {
            return None;
        },
    };
    if first_ranks_only && entry.rank != 1 && !(allow_duplicate_single && character_count(text) == 1) {
        return None;
    }
    let mut at = state.1;
    match excluded {
        Some(e) => {
            let e_bytes = e.as_bytes();
            let t_bytes = text.as_bytes();
            if at <= e_bytes.len() {
                if bytes_start_at(e_bytes, at, t_bytes) {
                    at = at + t_bytes.len();
                } else {
                    at = e_bytes.len() + 1;
                }
            }
        },
        None => {},
    }
    Some((matched, at))
}

/// The search's fixed inputs, as the query describes them.
spec fn query_of(
    query: CompletionQuery,
    raw: Seq<u8>,
    required: &str,
    excluded: Option<&str>,
    first_ranks_only: bool,
    allow_duplicate_single: bool,
) -> bool {
    &&& query.raw == raw
    &&& query.required == required.spec_bytes()
    &&& required.spec_bytes().len() <= usize::MAX
    &&& query.excluded == excluded_bytes(excluded)
    &&& query.first_ranks_only == first_ranks_only
    &&& query.allow_duplicate_single == allow_duplicate_single
    &&& excluded matches Some(text) ==> text.spec_bytes().len() < usize::MAX
}

/// The step a selected entry makes from `position` is allowed.
proof fn lemma_selected_edge(
    query: CompletionQuery,
    lexicon: Lexicon,
    position: int,
    length: usize,
    k: int,
    entries: Seq<CodeEntry>,
    selected: Seq<CodeEntry>,
    j: int,
)
    requires
        0 <= k < lexicon.code_lengths().len(),
        lexicon.code_lengths()[k] == length,
        0 <= position,
        position + length <= query.raw.len(),
        lexicon.code_entries().contains_key(query.raw.subrange(position, position + length)),
        entry_views(entries) == lexicon.code_entries()[query.raw.subrange(position, position + length)],
        !(query.raw.len() > 1 && spec_parse_selector(query.raw, position + length).1 - position < 2),
        selected == eligible_of(
            entries,
            spec_parse_selector(query.raw, position + length).0,
            position == 0 && spec_parse_selector(query.raw, position + length).1 == query.raw.len(),
            query.allow_duplicate_single,
        ),
        0 <= j < selected.len(),
    ensures
        edge_allowed(query, lexicon, position, length, entry_view(selected[j])),
{
    let selector = spec_parse_selector(query.raw, position + length);
    lemma_eligible_member(entries, selector.0, position == 0 && selector.1 == query.raw.len(), query.allow_duplicate_single, j);
    let m = choose|m: int| 0 <= m < entries.len() && entries[m] == selected[j];
    assert(entry_views(entries)[m] == entry_view(selected[j]));
    assert(lexicon.code_lengths()[k] == length);
}

/// Runs the search one position further: every stored state at `position` takes every
/// allowed step. Returns whether a step completed the search.
#[verifier::rlimit(60)]
fn expand_position(
    lexicon: &Lexicon,
    raw: &[u8],
    required: &str,
    excluded: Option<&str>,
    first_ranks_only: bool,
    allow_duplicate_single: bool,
    states: &mut Vec<StateSet>,
    position: usize,
    Ghost(query): Ghost<CompletionQuery>,
    Ghost(start): Ghost<int>,
    Ghost(init): Ghost<(int, int)>,
) -> (found: bool)
    requires
        lexicon.wf(),
        query_of(query, raw@, required, excluded, first_ranks_only, allow_duplicate_single),
        0 <= start <= position < raw@.len(),
        state_ok(query, init),
        old(states)@.len() == raw@.len(),
        sound(query, *lexicon, start, init, old(states)@),
        covered_before(query, *lexicon, start, init, old(states)@, position as int),
    ensures
        final(states)@.len() == raw@.len(),
        found ==> completable_from(query, *lexicon, start, init),
        !found ==> sound(query, *lexicon, start, init, final(states)@) && covered_before(
            query,
            *lexicon,
            start,
            init,
            final(states)@,
            position + 1,
        ),
{
    let n = raw.len();
    let ghost lex = *lexicon;
    let ghost entry_states = states@;
    if states[position].is_empty() {
        proof {
            assert forall|prefix: Seq<(usize, (Seq<char>, u32))>, step: (usize, (Seq<char>, u32))|
                #![trigger search_step(query, lex, search_run(query, lex, start, init, prefix), step)]
                search_step(query, lex, search_run(query, lex, start, init, prefix), step) is Some
                    && (search_run(query, lex, start, init, prefix) matches Some(prev) && prev.0 < position + 1)
                    implies recorded(query, states@, search_step(query, lex, search_run(query, lex, start, init, prefix), step)->Some_0) by {
                let prev = search_run(query, lex, start, init, prefix)->Some_0;
                if prev.0 == position {
                    lemma_reached_stored(query, lex, start, init, states@, position as int, prefix);
                    assert(state_set_contents(states@[position as int]).contains((prev.1.0 as usize, prev.1.1 as usize)));
                }
            }
        }
        return false;
    }
    let packed = states[position].to_vec();
    let count = lexicon.length_count();
    let mut k: usize = 0;
    while k < count && lexicon.length_at(k) <= n - position
        invariant
            lexicon.wf(),
            lex == *lexicon,
            query_of(query, raw@, required, excluded, first_ranks_only, allow_duplicate_single),
            n == raw@.len(),
            0 <= start <= position < n,
            state_ok(query, init),
            states@.len() == n,
            count == lex.code_lengths().len(),
            k <= count,
            sound(query, lex, start, init, states@),
            sound(query, lex, start, init, entry_states),
            covered_before(query, lex, start, init, states@, position as int),
            covered_before(query, lex, start, init, entry_states, position as int),
            entry_states.len() == n,
            forall|s: (usize, usize)| state_set_contents(entry_states[position as int]).contains(s) <==> #[trigger] packed@.contains(s),
            covered_at(query, lex, start, init, states@, position as int, lex.code_lengths().take(k as int), 0, Seq::empty(), (0, 0), Seq::empty()),
        decreases count - k,
    {
        let length = lexicon.length_at(k);
        let code_end = position + length;
        let code = slice_subrange(raw, position, code_end);
        let ghost code_view = raw@.subrange(position as int, code_end as int);
        match lexicon.entries(code) {
            Some(entries) => {
                let (selected_rank, consumed_end) = parse_selector(raw, code_end);
                proof {
                    lemma_selector_end(raw@, code_end as int);
                }
                if !(n > 1 && consumed_end - position < 2) {
                    let whole_input_edge = position == 0 && consumed_end == n;
                    let selected = eligible_candidates(entries.as_slice(), selected_rank, whole_input_edge, allow_duplicate_single);
                    let ghost chosen = entries_of(selected@);
                    let mut i: usize = 0;
                    while i < packed.len()
                        invariant
                            lexicon.wf(),
                            lex == *lexicon,
                            query_of(query, raw@, required, excluded, first_ranks_only, allow_duplicate_single),
                            n == raw@.len(),
                            0 <= start <= position < n,
                            state_ok(query, init),
                            states@.len() == n,
                            count == lex.code_lengths().len(),
                            k < count,
                            lex.code_lengths()[k as int] == length,
                            code_end == position + length,
                            code_end <= n,
                            code_view == raw@.subrange(position as int, code_end as int),
                            lex.code_entries().contains_key(code_view),
                            entry_views(entries@) == lex.code_entries()[code_view],
                            (selected_rank, consumed_end as int) == spec_parse_selector(raw@, code_end as int),
                            code_end <= consumed_end <= n,
                            !(n > 1 && consumed_end - position < 2),
                            whole_input_edge == (position == 0 && consumed_end == n),
                            chosen == entries_of(selected@),
                            chosen == eligible_of(entries@, selected_rank, whole_input_edge, allow_duplicate_single),
                            i <= packed.len(),
                            sound(query, lex, start, init, states@),
                            sound(query, lex, start, init, entry_states),
                            covered_before(query, lex, start, init, states@, position as int),
                            covered_before(query, lex, start, init, entry_states, position as int),
                            entry_states.len() == n,
                            forall|s: (usize, usize)| state_set_contents(entry_states[position as int]).contains(s) <==> #[trigger] packed@.contains(s),
                            covered_at(query, lex, start, init, states@, position as int, lex.code_lengths().take(k as int), length, packed@.take(i as int), (0, 0), Seq::empty()),
                        decreases packed.len() - i,
                    {
                        let state = packed[i];
                        let ghost witness: Seq<(usize, (Seq<char>, u32))>;
                        proof {
                            assert(packed@.contains(state));
                            assert(state_set_contents(entry_states[position as int]).contains(state));
                            witness = choose|path: Seq<(usize, (Seq<char>, u32))>| #[trigger] search_run(query, lex, start, init, path) == Some((position as int, as_pair(state)));
                            lemma_run_facts(query, lex, start, init, witness);
                        }
                        let mut j: usize = 0;
                        while j < selected.len()
                            invariant
                                lexicon.wf(),
                                lex == *lexicon,
                                query_of(query, raw@, required, excluded, first_ranks_only, allow_duplicate_single),
                                n == raw@.len(),
                                0 <= start <= position < n,
                                state_ok(query, init),
                                states@.len() == n,
                                count == lex.code_lengths().len(),
                                k < count,
                                lex.code_lengths()[k as int] == length,
                                code_end == position + length,
                                code_end <= n,
                                code_view == raw@.subrange(position as int, code_end as int),
                                lex.code_entries().contains_key(code_view),
                                entry_views(entries@) == lex.code_entries()[code_view],
                                (selected_rank, consumed_end as int) == spec_parse_selector(raw@, code_end as int),
                                code_end <= consumed_end <= n,
                                !(n > 1 && consumed_end - position < 2),
                                whole_input_edge == (position == 0 && consumed_end == n),
                                chosen == entries_of(selected@),
                                chosen == eligible_of(entries@, selected_rank, whole_input_edge, allow_duplicate_single),
                                i < packed.len(),
                                state == packed@[i as int],
                                search_run(query, lex, start, init, witness) == Some((position as int, as_pair(state))),
                                state_ok(query, as_pair(state)),
                                j <= selected.len(),
                                sound(query, lex, start, init, states@),
                                sound(query, lex, start, init, entry_states),
                                covered_before(query, lex, start, init, states@, position as int),
                                covered_before(query, lex, start, init, entry_states, position as int),
                                entry_states.len() == n,
                                forall|s: (usize, usize)| state_set_contents(entry_states[position as int]).contains(s) <==> #[trigger] packed@.contains(s),
                                covered_at(query, lex, start, init, states@, position as int, lex.code_lengths().take(k as int), length, packed@.take(i as int), state, entry_views(chosen).take(j as int)),
                            decreases selected.len() - j,
                        {
                            let entry = selected[j];
                            let ghost step = (length, entry_view(*entry));
                            proof {
                                assert(chosen[j as int] == *entry);
                                lemma_selected_edge(query, lex, position as int, length, k as int, entries@, chosen, j as int);
                                lemma_run_push(query, lex, start, init, witness, step);
                            }
                            let next = next_search_state(required, excluded, first_ranks_only, allow_duplicate_single, state, entry, Ghost(query));
                            let ghost states_before = states@;
                            match next {
                                Some(u) => {
                                    if consumed_end == n {
                                        let done = u.0 == required.len() && match excluded {
                                            Some(e) => u.1 != e.len(),
                                            None => true,
                                        };
                                        if done {
                                            proof {
                                                assert(completes(query, as_pair(u)));
                                                assert(search_run(query, lex, start, init, witness.push(step)) == Some((n as int, as_pair(u))));
                                            }
                                            return true;
                                        }
                                    } else {
                                        states[consumed_end].insert(u);
                                        proof {
                                            assert(grows(states_before, states@));
                                            lemma_covered_grows(query, lex, start, init, states_before, states@, position as int, position as int,
                                                lex.code_lengths().take(k as int), length, packed@.take(i as int), state, entry_views(chosen).take(j as int));
                                            assert(search_run(query, lex, start, init, witness.push(step)) == Some((consumed_end as int, as_pair(u))));
                                            assert forall|p: int, s: (usize, usize)| 0 <= p < states@.len() && #[trigger] state_set_contents(states@[p]).contains(s)
                                                implies exists|path: Seq<(usize, (Seq<char>, u32))>| #[trigger] search_run(query, lex, start, init, path) == Some((p, as_pair(s))) by {
                                                if p == consumed_end && s == u {
                                                    assert(search_run(query, lex, start, init, witness.push(step)) == Some((p, as_pair(s))));
                                                } else {
                                                    assert(state_set_contents(states_before[p]).contains(s));
                                                }
                                            }
                                        }
                                    }
                                },
                                None => {},
                            }
                            proof {
                                let done_entries = entry_views(chosen).take(j + 1);
                                assert(entry_views(chosen)[j as int] == step.1);
                                assert forall|prefix: Seq<(usize, (Seq<char>, u32))>, other: (usize, (Seq<char>, u32))|
                                    #![trigger search_step(query, lex, search_run(query, lex, start, init, prefix), other)]
                                    search_step(query, lex, search_run(query, lex, start, init, prefix), other) is Some
                                        && (search_run(query, lex, start, init, prefix) matches Some(prev) && prev.0 == position
                                        && step_done(prev.1, other, lex.code_lengths().take(k as int), length, packed@.take(i as int), state, done_entries))
                                        implies recorded(query, states@, search_step(query, lex, search_run(query, lex, start, init, prefix), other)->Some_0) by {
                                    let prev = search_run(query, lex, start, init, prefix)->Some_0;
                                    if !step_done(prev.1, other, lex.code_lengths().take(k as int), length, packed@.take(i as int), state, entry_views(chosen).take(j as int)) {
                                        lemma_run_facts(query, lex, start, init, prefix);
                                        assert(other.0 == length);
                                        assert((prev.1.0 as usize, prev.1.1 as usize) == state);
                                        assert(prev.1 == as_pair(state));
                                        let m = choose|m: int| 0 <= m < done_entries.len() && #[trigger] done_entries[m] == other.1;
                                        if m < j {
                                            assert(entry_views(chosen).take(j as int)[m] == other.1);
                                        }
                                        assert(other == step);
                                    }
                                }
                            }
                            j = j + 1;
                        }
                        proof {
                            assert forall|prefix: Seq<(usize, (Seq<char>, u32))>, other: (usize, (Seq<char>, u32))|
                                #![trigger search_step(query, lex, search_run(query, lex, start, init, prefix), other)]
                                search_step(query, lex, search_run(query, lex, start, init, prefix), other) is Some
                                    && (search_run(query, lex, start, init, prefix) matches Some(prev) && prev.0 == position
                                    && step_done(prev.1, other, lex.code_lengths().take(k as int), length, packed@.take(i + 1), (0, 0), Seq::empty()))
                                    implies recorded(query, states@, search_step(query, lex, search_run(query, lex, start, init, prefix), other)->Some_0) by {
                                let prev = search_run(query, lex, start, init, prefix)->Some_0;
                                let key = (prev.1.0 as usize, prev.1.1 as usize);
                                if !step_done(prev.1, other, lex.code_lengths().take(k as int), length, packed@.take(i as int), state, entry_views(chosen).take(j as int)) {
                                    if !lex.code_lengths().take(k as int).contains(other.0) {
                                        assert(other.0 == length);
                                        let m = choose|m: int| 0 <= m < packed@.take(i + 1).len() && #[trigger] packed@.take(i + 1)[m] == key;
                                        if m < i {
                                            assert(packed@.take(i as int)[m] == key);
                                        }
                                        assert(key == state);
                                        assert(edge_allowed(query, lex, prev.0, other.0, other.1));
                                        lemma_eligible_listed(entries@, selected_rank, whole_input_edge, allow_duplicate_single, other.1);
                                        assert(entry_views(chosen).take(j as int) =~= entry_views(chosen));
                                    }
                                }
                            }
                        }
                        i = i + 1;
                    }
                    proof {
                        assert forall|prefix: Seq<(usize, (Seq<char>, u32))>, other: (usize, (Seq<char>, u32))|
                            #![trigger search_step(query, lex, search_run(query, lex, start, init, prefix), other)]
                            search_step(query, lex, search_run(query, lex, start, init, prefix), other) is Some
                                && (search_run(query, lex, start, init, prefix) matches Some(prev) && prev.0 == position
                                && step_done(prev.1, other, lex.code_lengths().take(k + 1), 0, Seq::empty(), (0, 0), Seq::empty()))
                                implies recorded(query, states@, search_step(query, lex, search_run(query, lex, start, init, prefix), other)->Some_0) by {
                            let prev = search_run(query, lex, start, init, prefix)->Some_0;
                            if !lex.code_lengths().take(k as int).contains(other.0) {
                                let m = choose|m: int| 0 <= m < lex.code_lengths().take(k + 1).len() && #[trigger] lex.code_lengths().take(k + 1)[m] == other.0;
                                if m < k {
                                    assert(lex.code_lengths().take(k as int)[m] == other.0);
                                }
                                assert(other.0 == length);
                                lemma_reached_stored(query, lex, start, init, entry_states, position as int, prefix);
                                let key = (prev.1.0 as usize, prev.1.1 as usize);
                                assert(state_set_contents(entry_states[position as int]).contains(key));
                                assert(packed@.contains(key));
                                assert(packed@.take(packed@.len() as int) =~= packed@);
                            }
                        }
                    }
                } else {
                    proof {
                        assert forall|prefix: Seq<(usize, (Seq<char>, u32))>, other: (usize, (Seq<char>, u32))|
                            #![trigger search_step(query, lex, search_run(query, lex, start, init, prefix), other)]
                            search_step(query, lex, search_run(query, lex, start, init, prefix), other) is Some
                                && (search_run(query, lex, start, init, prefix) matches Some(prev) && prev.0 == position
                                && step_done(prev.1, other, lex.code_lengths().take(k + 1), 0, Seq::empty(), (0, 0), Seq::empty()))
                                implies recorded(query, states@, search_step(query, lex, search_run(query, lex, start, init, prefix), other)->Some_0) by {
                            if !lex.code_lengths().take(k as int).contains(other.0) {
                                let m = choose|m: int| 0 <= m < lex.code_lengths().take(k + 1).len() && #[trigger] lex.code_lengths().take(k + 1)[m] == other.0;
                                if m < k {
                                    assert(lex.code_lengths().take(k as int)[m] == other.0);
                                }
                                assert(other.0 == length);
                            }
                        }
                    }
                }
            },
            None => {
                proof {
                    assert forall|prefix: Seq<(usize, (Seq<char>, u32))>, other: (usize, (Seq<char>, u32))|
                        #![trigger search_step(query, lex, search_run(query, lex, start, init, prefix), other)]
                        search_step(query, lex, search_run(query, lex, start, init, prefix), other) is Some
                            && (search_run(query, lex, start, init, prefix) matches Some(prev) && prev.0 == position
                            && step_done(prev.1, other, lex.code_lengths().take(k + 1), 0, Seq::empty(), (0, 0), Seq::empty()))
                            implies recorded(query, states@, search_step(query, lex, search_run(query, lex, start, init, prefix), other)->Some_0) by {
                        if !lex.code_lengths().take(k as int).contains(other.0) {
                            let m = choose|m: int| 0 <= m < lex.code_lengths().take(k + 1).len() && #[trigger] lex.code_lengths().take(k + 1)[m] == other.0;
                            if m < k {
                                assert(lex.code_lengths().take(k as int)[m] == other.0);
                            }
                            assert(other.0 == length);
                        }
                    }
                }
            },
        }
        k = k + 1;
    }
    proof {
        assert forall|prefix: Seq<(usize, (Seq<char>, u32))>, other: (usize, (Seq<char>, u32))|
            #![trigger search_step(query, lex, search_run(query, lex, start, init, prefix), other)]
            search_step(query, lex, search_run(query, lex, start, init, prefix), other) is Some
                && (search_run(query, lex, start, init, prefix) matches Some(prev) && prev.0 < position + 1)
                implies recorded(query, states@, search_step(query, lex, search_run(query, lex, start, init, prefix), other)->Some_0) by {
            let prev = search_run(query, lex, start, init, prefix)->Some_0;
            if prev.0 == position {
                assert(edge_allowed(query, lex, prev.0, other.0, other.1));
                let m = choose|m: int| 0 <= m < lex.code_lengths().len() && #[trigger] lex.code_lengths()[m] == other.0;
                if m < k {
                    assert(lex.code_lengths().take(k as int)[m] == other.0);
                } else {
                    assert(lex.code_lengths()[k as int] <= lex.code_lengths()[m]);
                }
            }
        }
    }
    false
}

/// With the search starting at the end of the input, it completes exactly when its
/// starting state does.
proof fn lemma_complete_at_end(query: CompletionQuery, lexicon: Lexicon, start: int, init: (int, int))
    requires
        lexicon.wf(),
        start == query.raw.len(),
        state_ok(query, init),
    ensures
        completable_from(query, lexicon, start, init) == completes(query, init),
{
    if completes(query, init) {
        assert(search_run(query, lexicon, start, init, Seq::<(usize, (Seq<char>, u32))>::empty()) == Some((start, init)));
    }
    if completable_from(query, lexicon, start, init) {
        let path = choose|path: Seq<(usize, (Seq<char>, u32))>|
            #[trigger] search_run(query, lexicon, start, init, path) matches Some(reached) && reached.0 == query.raw.len()
                && completes(query, reached.1);
        if path.len() > 0 {
            lemma_run_facts(query, lexicon, start, init, path.drop_last());
            let prev = search_run(query, lexicon, start, init, path.drop_last())->Some_0;
            lemma_step_facts(query, lexicon, prev, path.last());
        }
    }
}

/// Runs the search from `start` in state `init` over the whole input.
fn search_from(
    lexicon: &Lexicon,
    raw: &[u8],
    required: &str,
    excluded: Option<&str>,
    first_ranks_only: bool,
    allow_duplicate_single: bool,
    start: usize,
    init: (usize, usize),
    Ghost(query): Ghost<CompletionQuery>,
) -> (found: bool)
    requires
        lexicon.wf(),
        query_of(query, raw@, required, excluded, first_ranks_only, allow_duplicate_single),
        start < raw@.len(),
        state_ok(query, as_pair(init)),
    ensures
        found == completable_from(query, *lexicon, start as int, as_pair(init)),
{
    let n = raw.len();
    let ghost lex = *lexicon;
    let ghost first = as_pair(init);
    let mut states: Vec<StateSet> = Vec::new();
    while states.len() < n
        invariant
            states@.len() <= n,
            forall|p: int| 0 <= p < states@.len() ==> state_set_contents(#[trigger] states@[p]) == no_states(),
        decreases n - states.len(),
    {
        states.push(StateSet::new());
    }
    states[start].insert(init);
    proof {
        assert forall|p: int, s: (usize, usize)| 0 <= p < states@.len() && #[trigger] state_set_contents(states@[p]).contains(s)
            implies exists|path: Seq<(usize, (Seq<char>, u32))>| #[trigger] search_run(query, lex, start as int, first, path) == Some((p, as_pair(s))) by {
            assert(p == start && s == init);
            assert(search_run(query, lex, start as int, first, Seq::<(usize, (Seq<char>, u32))>::empty()) == Some((p, as_pair(s))));
        }
        assert forall|prefix: Seq<(usize, (Seq<char>, u32))>, step: (usize, (Seq<char>, u32))|
            #![trigger search_step(query, lex, search_run(query, lex, start as int, first, prefix), step)]
            search_step(query, lex, search_run(query, lex, start as int, first, prefix), step) is Some
                && (search_run(query, lex, start as int, first, prefix) matches Some(prev) && prev.0 < start)
                implies recorded(query, states@, search_step(query, lex, search_run(query, lex, start as int, first, prefix), step)->Some_0) by {
            lemma_run_facts(query, lex, start as int, first, prefix);
        }
        assert(recorded(query, states@, (start as int, first)));
    }
    let mut position = start;
    while position < n
        invariant
            lexicon.wf(),
            lex == *lexicon,
            query_of(query, raw@, required, excluded, first_ranks_only, allow_duplicate_single),
            n == raw@.len(),
            start <= position <= n,
            start < n,
            first == as_pair(init),
            state_ok(query, first),
            states@.len() == n,
            sound(query, lex, start as int, first, states@),
            covered_before(query, lex, start as int, first, states@, position as int),
        decreases n - position,
    {
        if expand_position(
            lexicon,
            raw,
            required,
            excluded,
            first_ranks_only,
            allow_duplicate_single,
            &mut states,
            position,
            Ghost(query),
            Ghost(start as int),
            Ghost(first),
        ) {
            return true;
        }
        position = position + 1;
    }
    proof {
        if completable_from(query, lex, start as int, first) {
            let path = choose|path: Seq<(usize, (Seq<char>, u32))>|
                #[trigger] search_run(query, lex, start as int, first, path) matches Some(reached) && reached.0 == query.raw.len()
                    && completes(query, reached.1);
            assert(path.len() > 0);
            lemma_run_facts(query, lex, start as int, first, path.drop_last());
            let prev = search_run(query, lex, start as int, first, path.drop_last())->Some_0;
            lemma_step_facts(query, lex, prev, path.last());
            assert(search_step(query, lex, search_run(query, lex, start as int, first, path.drop_last()), path.last())
                == search_run(query, lex, start as int, first, path));
        }
    }
    false
}

/// The lock's raw input and text, as bytes.
pub open spec fn lock_bytes(lock: Option<&DecodeLock<'_>>) -> Option<(Seq<u8>, Seq<u8>)> {
    match lock {
        Some(locked) => Some((locked.raw.spec_bytes(), locked.text.spec_bytes())),
        None => None,
    }
}

/// Whether the input can be covered completely by dictionary codes with eligible entries
/// whose texts begin with `required_text_prefix` and differ from `excluded_text`;
/// `group_eligible_only` keeps to first ranks (and single characters when duplicates are
/// allowed) unless the input holds a selector; a lock fixes the beginning of input and text.
pub fn has_complete_candidate(
    lexicon: &Lexicon,
    raw_code: &str,
    required_text_prefix: &str,
    excluded_text: Option<&str>,
    group_eligible_only: bool,
    allow_duplicate_single: bool,
    lock: Option<&DecodeLock<'_>>,
) -> (found: bool)
    requires
        lexicon.wf(),
        excluded_text matches Some(text) ==> text.spec_bytes().len() < usize::MAX,
    ensures
        found == spec_has_complete_candidate(
            *lexicon,
            raw_code.spec_bytes(),
            required_text_prefix.spec_bytes(),
            excluded_bytes(excluded_text),
            group_eligible_only,
            allow_duplicate_single,
            lock_bytes(lock),
        ),
{
    let raw = normalize(raw_code);
    if raw.len() == 0 || !has_letter(raw.as_slice()) {
        return false;
    }
    let required = required_text_prefix.as_bytes();
    let required_length = required.len();
    assert(required@.len() == required_length);
    let first_ranks_only = group_eligible_only && !has_selection_suffix_bytes(raw.as_slice());
    let ghost query = CompletionQuery {
        raw: raw@,
        required: required_text_prefix.spec_bytes(),
        excluded: excluded_bytes(excluded_text),
        first_ranks_only: first_ranks_only,
        allow_duplicate_single: allow_duplicate_single,
    };
    match lock {
        None => search_from(
            lexicon,
            raw.as_slice(),
            required_text_prefix,
            excluded_text,
            first_ranks_only,
            allow_duplicate_single,
            0,
            (0, 0),
            Ghost(query),
        ),
        Some(locked) => {
            let prefix = normalize(locked.raw);
            let text = locked.text.as_bytes();
            let matched = if required.len() < text.len() {
                required.len()
            } else {
                text.len()
            };
            let text_head = slice_subrange(text, 0, matched);
            let raw_fits = bytes_start_at(raw.as_slice(), 0, prefix.as_slice());
            let text_fits = bytes_start_at(required, 0, text_head);
            proof {
                assert(raw@.take(prefix@.len() as int) =~= raw@.subrange(0, prefix@.len() as int));
                assert(required@.take(matched as int) =~= required@.subrange(0, matched as int));
                assert(text@.take(matched as int) =~= text_head@);
            }
            if !raw_fits || !text_fits {
                return false;
            }
            let start = prefix.len();
            let excluded_at = match excluded_text {
                Some(e) => {
                    let e_bytes = e.as_bytes();
                    proof {
                        assert(e_bytes@.take(text@.len() as int) =~= e_bytes@.subrange(0, text@.len() as int));
                    }
                    if bytes_start_at(e_bytes, 0, text) {
                        text.len()
                    } else {
                        e_bytes.len() + 1
                    }
                },
                None => 0,
            };
            proof {
                assert(excluded_at as int == lock_excluded(excluded_bytes(excluded_text), text@));
                assert(state_ok(query, as_pair((matched, excluded_at))));
            }
            if start == raw.len() {
                proof {
                    lemma_complete_at_end(query, *lexicon, start as int, as_pair((matched, excluded_at)));
                }
                return matched == required.len() && match excluded_text {
                    Some(e) => excluded_at != e.len(),
                    None => true,
                };
            }
            search_from(
                lexicon,
                raw.as_slice(),
                required_text_prefix,
                excluded_text,
                first_ranks_only,
                allow_duplicate_single,
                start,
                (matched, excluded_at),
                Ghost(query),
            )
        },
    }
}

/// A run that meets a required prefix is also a run without the requirement, with the
/// same positions and excluded-text states.
proof fn lemma_run_without_required(
    query: CompletionQuery,
    lexicon: Lexicon,
    start: int,
    init: (int, int),
    path: Seq<(usize, (Seq<char>, u32))>,
)
    ensures
        search_run(query, lexicon, start, init, path) matches Some(reached) ==> search_run(
            CompletionQuery { required: Seq::empty(), ..query },
            lexicon,
            start,
            (0, init.1),
            path,
        ) == Some((reached.0, (0int, reached.1.1))),
    decreases path.len(),
{
    if path.len() > 0 {
        lemma_run_without_required(query, lexicon, start, init, path.drop_last());
    }
}

/// Law: a required text prefix only narrows the completions: whenever the input completes
/// with texts beginning with `required`, it completes with no required prefix.
pub proof fn law_required_prefix_narrows(
    lexicon: Lexicon,
    raw_code: Seq<u8>,
    required: Seq<u8>,
    excluded: Option<Seq<u8>>,
    group_eligible_only: bool,
    allow_duplicate_single: bool,
    lock: Option<(Seq<u8>, Seq<u8>)>,
)
    requires
        spec_has_complete_candidate(lexicon, raw_code, required, excluded, group_eligible_only, allow_duplicate_single, lock),
    ensures
        spec_has_complete_candidate(lexicon, raw_code, Seq::empty(), excluded, group_eligible_only, allow_duplicate_single, lock),
{
    let raw = spec_normalize(raw_code);
    let query = CompletionQuery {
        raw: raw,
        required: required,
        excluded: excluded,
        first_ranks_only: group_eligible_only && !(exists|i: int| 0 <= i < raw.len() && selector_byte(#[trigger] raw[i])),
        allow_duplicate_single: allow_duplicate_single,
    };
    let open_query = CompletionQuery { required: Seq::empty(), ..query };
    let (start, init) = match lock {
        None => (0int, (0int, 0int)),
        Some(locked) => {
            let matched = if required.len() < locked.1.len() { required.len() as int } else { locked.1.len() as int };
            (spec_normalize(locked.0).len() as int, (matched, lock_excluded(excluded, locked.1)))
        },
    };
    let path = choose|path: Seq<(usize, (Seq<char>, u32))>|
        #[trigger] search_run(query, lexicon, start, init, path) matches Some(reached) && reached.0 == query.raw.len()
            && completes(query, reached.1);
    lemma_run_without_required(query, lexicon, start, init, path);
    assert(search_run(open_query, lexicon, start, (0, init.1), path) matches Some(reached) && reached.0 == open_query.raw.len()
        && completes(open_query, reached.1));
    if let Some(locked) = lock {
        assert(Seq::<u8>::empty().take(0) =~= locked.1.take(0));
    }
}

/// The bytes normalizing keeps: those that are not blank.
pub open spec fn kept_by_normalize() -> spec_fn(u8) -> bool {
    |byte: u8| !blank_byte(byte)
}

/// What normalizing makes of each kept byte: its ASCII lower case.
pub open spec fn lowered() -> spec_fn(u8) -> u8 {
    |byte: u8| ascii_lower(byte)
}

/// Law: normalizing keeps the bytes that are not blank (space, tab, line feed, vertical
/// tab, form feed, carriage return), each lower-cased, in order.
pub proof fn law_normalize_filters_and_lowers(bytes: Seq<u8>)
    ensures
        spec_normalize(bytes) == bytes.filter(kept_by_normalize()).map_values(lowered()),
    decreases bytes.len(),
{
    reveal(Seq::filter);
    if bytes.len() > 0 {
        law_normalize_filters_and_lowers(bytes.drop_last());
        let kept = bytes.drop_last().filter(kept_by_normalize());
        assert(bytes.filter(kept_by_normalize()) == if kept_by_normalize()(bytes.last()) {
            kept.push(bytes.last())
        } else {
            kept
        });
        if !blank_byte(bytes.last()) {
            assert(kept.push(bytes.last()).map_values(lowered()) =~= kept.map_values(lowered()).push(
                ascii_lower(bytes.last()),
            ));
        }
    } else {
        assert(bytes.filter(kept_by_normalize()).map_values(lowered()) =~= Seq::<u8>::empty());
    }
}

/// Law: an input that normalizes to nothing, or to no letter, has no complete candidate,
/// whatever the dictionary and the other arguments.
pub proof fn law_no_letter_no_completion(
    lexicon: Lexicon,
    raw_code: Seq<u8>,
    required: Seq<u8>,
    excluded: Option<Seq<u8>>,
    group_eligible_only: bool,
    allow_duplicate_single: bool,
    lock: Option<(Seq<u8>, Seq<u8>)>,
)
    requires
        forall|i: int| 0 <= i < spec_normalize(raw_code).len() ==> !ascii_letter(#[trigger] spec_normalize(raw_code)[i]),
    ensures
        !spec_has_complete_candidate(lexicon, raw_code, required, excluded, group_eligible_only, allow_duplicate_single, lock),
{
}

/// Law: a lock must match both the input and the committed text: when the normalized input
/// does not begin with the lock's normalized input, or the required text and the lock's
/// text differ within the shorter of them, there is no complete candidate.
pub proof fn law_lock_must_match(
    lexicon: Lexicon,
    raw_code: Seq<u8>,
    required: Seq<u8>,
    excluded: Option<Seq<u8>>,
    group_eligible_only: bool,
    allow_duplicate_single: bool,
    lock_raw: Seq<u8>,
    lock_text: Seq<u8>,
)
    requires
        ({
            let raw = spec_normalize(raw_code);
            let prefix = spec_normalize(lock_raw);
            let matched = if required.len() < lock_text.len() { required.len() as int } else { lock_text.len() as int };
            !(prefix.len() <= raw.len() && raw.take(prefix.len() as int) == prefix) || required.take(matched)
                != lock_text.take(matched)
        }),
    ensures
        !spec_has_complete_candidate(
            lexicon,
            raw_code,
            required,
            excluded,
            group_eligible_only,
            allow_duplicate_single,
            Some((lock_raw, lock_text)),
        ),
{
}

} // verus!
