//! Session runtime: the subset of librime's `Context` / `Composition` / `Menu` that
//! the interaction layer drives. Input is a byte string and the caret a byte offset.

use vstd::prelude::*;
use vstd::utf8::{encode_utf8, valid_utf8};
use crate::punct::PairState;
use crate::tables::{flag_table_contents, text_table_contents, FlagTable, TextTable};
use crate::text::{str_eq, to_owned_string};

verus! {

/// A candidate of a segment's menu.
#[derive(Clone, Debug, PartialEq)]
pub struct Candidate {
    pub kind: String,
    pub start: usize,
    pub end: usize,
    pub text: String,
    pub comment: String,
    pub preedit: String,
}

impl Candidate {
    pub fn new(kind: &str, start: usize, end: usize, text: &str, comment: &str) -> (candidate: Self)
        ensures
            candidate.kind@ == kind@,
            candidate.start == start,
            candidate.end == end,
            candidate.text@ == text@,
            candidate.comment@ == comment@,
            candidate.preedit@.len() == 0,
    {
        Candidate {
            kind: to_owned_string(kind),
            start,
            end,
            text: to_owned_string(text),
            comment: to_owned_string(comment),
            preedit: String::new(),
        }
    }
}

/// A composition segment (the commonly used subset of librime `Segment`).
#[derive(Clone, Debug, Default)]
pub struct Segment {
    pub start: usize,
    pub end: usize,
    pub tags: Vec<String>,
    /// Segment prompt (such as the tip of a lookup segment).
    pub prompt: String,
    pub selected_index: usize,
    pub candidates: Vec<Candidate>,
    /// Confirmed (librime `status >= kSelected`).
    pub selected: bool,
    /// Has a menu (librime `status >= kGuess`).
    pub translated: bool,
}

/// The segment carries tag `tag`.
pub open spec fn spec_has_tag(segment: Segment, tag: Seq<char>) -> bool {
    exists|i: int| 0 <= i < segment.tags@.len() && (#[trigger] segment.tags@[i])@ == tag
}

/// The highlighted candidate of a segment, if its index is in range.
pub open spec fn spec_selected_candidate(segment: Segment) -> Option<Candidate> {
    if segment.selected_index < segment.candidates@.len() {
        Some(segment.candidates@[segment.selected_index as int])
    } else {
        None
    }
}

impl Segment {
    pub fn has_tag(&self, tag: &str) -> (found: bool)
        ensures
            found == spec_has_tag(*self, tag@),
    {
        let mut i: usize = 0;
        while i < self.tags.len()
            invariant
                i <= self.tags.len(),
                forall|j: int| 0 <= j < i ==> self.tags@[j]@ != tag@,
            decreases self.tags.len() - i,
        {
            if str_eq(self.tags[i].as_str(), tag) {
                return true;
            }
            i = i + 1;
        }
        false
    }

    pub fn selected_candidate(&self) -> (candidate: Option<&Candidate>)
        ensures
            match candidate {
                Some(c) => spec_selected_candidate(*self) == Some(*c),
                None => spec_selected_candidate(*self) is None,
            },
    {
        if self.selected_index < self.candidates.len() {
            Some(&self.candidates[self.selected_index])
        } else {
            None
        }
    }

    /// librime `Menu::Prepare(n)`: how many candidates are available, up to `count`.
    pub fn prepare(&self, count: usize) -> (available: usize)
        ensures
            available == if self.candidates@.len() < count { self.candidates@.len() as usize } else { count },
    {
        if self.candidates.len() < count {
            self.candidates.len()
        } else {
            count
        }
    }
}

/// The composition (librime `Composition`).
#[derive(Clone, Debug, Default)]
pub struct Composition {
    pub segments: Vec<Segment>,
}

/// Bytes that `commit_text` produces for the first segments, with the input offset reached.
pub open spec fn commit_fold(segments: Seq<Segment>, input: Seq<u8>) -> (Seq<u8>, int)
    decreases segments.len(),
{
    if segments.len() == 0 {
        (seq![], 0)
    } else {
        let (out, _) = commit_fold(segments.drop_last(), input);
        let segment = segments.last();
        match spec_selected_candidate(segment) {
            Some(candidate) => {
                let end = if candidate.end < input.len() { candidate.end as int } else { input.len() as int };
                (out + encode_utf8(candidate.text@), end)
            },
            None => {
                let end = if segment.end < input.len() { segment.end as int } else { input.len() as int };
                let start = if segment.start < end { segment.start as int } else { end };
                if spec_has_tag(segment, "phony"@) {
                    (out, end)
                } else {
                    (out + input.subrange(start, end), end)
                }
            },
        }
    }
}

/// The bytes of librime `Composition::GetCommitText`: for each segment the highlighted
/// candidate's text, else the segment's input (skipped for `phony` segments); then the
/// input not covered by any segment.
pub open spec fn commit_bytes(segments: Seq<Segment>, input: Seq<u8>) -> Seq<u8> {
    let (out, end) = commit_fold(segments, input);
    if input.len() > end {
        out + input.subrange(end, input.len() as int)
    } else {
        out
    }
}

pub proof fn lemma_commit_fold_end(segments: Seq<Segment>, input: Seq<u8>)
    ensures
        0 <= commit_fold(segments, input).1 <= input.len(),
    decreases segments.len(),
{
    if segments.len() > 0 {
        lemma_commit_fold_end(segments.drop_last(), input);
    }
}

/// The text `String::from_utf8_lossy` makes of a byte string (each malformed sequence
/// replaced by U+FFFD).
pub uninterp spec fn lossy_text(bytes: Seq<u8>) -> Seq<char>;

/// `std::string::String::from_utf8_lossy`: its text is [`lossy_text`] of the bytes, and a
/// well-formed UTF-8 byte string decodes to the text it encodes. Which replacement
/// characters malformed bytes give is not stated.
#[verifier::external_body]
pub(crate) fn string_from_utf8_lossy(bytes: &[u8]) -> (text: String)
    ensures
        text@ == lossy_text(bytes@),
        valid_utf8(bytes@) ==> encode_utf8(text@) == bytes@,
{
    String::from_utf8_lossy(bytes).into_owned()
}

/// Appends `bytes[start..end]` to `out`.
pub(crate) fn extend_range(out: &mut Vec<u8>, bytes: &[u8], start: usize, end: usize)
    requires
        start <= end <= bytes@.len(),
    ensures
        final(out)@ == old(out)@ + bytes@.subrange(start as int, end as int),
{
    let mut i = start;
    while i < end
        invariant
            start <= i <= end,
            end <= bytes@.len(),
            out@ == old(out)@ + bytes@.subrange(start as int, i as int),
        decreases end - i,
    {
        out.push(bytes[i]);
        i = i + 1;
        assert(out@ =~= old(out)@ + bytes@.subrange(start as int, i as int));
    }
}

impl Composition {
    pub fn empty(&self) -> (empty: bool)
        ensures
            empty == (self.segments@.len() == 0),
    {
        self.segments.len() == 0
    }

    pub fn back(&self) -> (segment: Option<&Segment>)
        ensures
            match segment {
                Some(s) => self.segments@.len() > 0 && *s == self.segments@.last(),
                None => self.segments@.len() == 0,
            },
    {
        if self.segments.len() == 0 {
            None
        } else {
            Some(&self.segments[self.segments.len() - 1])
        }
    }

    /// The last segment, borrowed for an in-place edit: whatever is written through it
    /// becomes the last segment, and the others stay as they were.
    pub fn back_mut(&mut self) -> (segment: Option<&mut Segment>)
        ensures
            old(self).segments@.len() == 0 ==> segment is None && final(self).segments@ == old(self).segments@,
            old(self).segments@.len() > 0 ==> segment is Some && *segment.unwrap() == old(self).segments@.last()
                && final(self).segments@ == old(self).segments@.update(
                    old(self).segments@.len() - 1,
                    *final(segment.unwrap()),
                ),
    {
        self.segments.as_mut_slice().last_mut()
    }

    /// librime `Segmentation::Forward`: appends an empty tail segment after a non-empty last one.
    pub fn forward(&mut self) -> (added: bool)
        ensures
            added == (old(self).segments@.len() > 0 && old(self).segments@.last().start
                != old(self).segments@.last().end),
            added ==> final(self).segments@.len() == old(self).segments@.len() + 1
                && final(self).segments@.drop_last() == old(self).segments@
                && final(self).segments@.last().start == old(self).segments@.last().end
                && final(self).segments@.last().end == old(self).segments@.last().end
                && final(self).segments@.last().candidates@.len() == 0
                && !final(self).segments@.last().selected
                && !final(self).segments@.last().translated
                && final(self).segments@.last().selected_index == 0
                && final(self).segments@.last().tags@.len() == 0,
            !added ==> final(self).segments@ == old(self).segments@,
    {
        if self.segments.len() == 0 {
            return false;
        }
        let last = self.segments.len() - 1;
        if self.segments[last].start == self.segments[last].end {
            return false;
        }
        let position = self.segments[last].end;
        self.segments.push(Segment {
            start: position,
            end: position,
            tags: Vec::new(),
            prompt: String::new(),
            selected_index: 0,
            candidates: Vec::new(),
            selected: false,
            translated: false,
        });
        true
    }

    /// librime `Segmentation::GetCurrentStartPosition`.
    pub fn current_start_position(&self) -> (position: usize)
        ensures
            position == if self.segments@.len() == 0 { 0 } else { self.segments@.last().start },
    {
        if self.segments.len() == 0 {
            0
        } else {
            self.segments[self.segments.len() - 1].start
        }
    }

    /// librime `Segmentation::GetCurrentEndPosition`.
    pub fn current_end_position(&self) -> (position: usize)
        ensures
            position == if self.segments@.len() == 0 { 0 } else { self.segments@.last().end },
    {
        if self.segments.len() == 0 {
            0
        } else {
            self.segments[self.segments.len() - 1].end
        }
    }

    /// librime `Segmentation::HasFinishedSegmentation`.
    pub fn has_finished_segmentation(&self, input: &[u8]) -> (finished: bool)
        ensures
            finished == ((if self.segments@.len() == 0 { 0 } else { self.segments@.last().end as int }) >= input@.len()),
    {
        self.current_end_position() >= input.len()
    }

    /// librime `Segmentation::Trim`: drops an empty last segment.
    pub fn trim(&mut self) -> (trimmed: bool)
        ensures
            trimmed == (old(self).segments@.len() > 0 && old(self).segments@.last().start
                == old(self).segments@.last().end),
            trimmed ==> final(self).segments@ == old(self).segments@.drop_last(),
            !trimmed ==> final(self).segments@ == old(self).segments@,
    {
        if self.segments.len() > 0 {
            let last = self.segments.len() - 1;
            if self.segments[last].start == self.segments[last].end {
                self.segments.pop();
                return true;
            }
        }
        false
    }

    /// librime `Segmentation::GetConfirmedPosition`: end of the last confirmed segment.
    pub fn confirmed_position(&self) -> (position: usize)
        ensures
            position == confirmed_from(self.segments@, self.segments@.len() as int),
    {
        let mut confirmed: usize = 0;
        let mut i: usize = 0;
        while i < self.segments.len()
            invariant
                i <= self.segments.len(),
                confirmed == confirmed_from(self.segments@, i as int),
            decreases self.segments.len() - i,
        {
            if self.segments[i].selected {
                confirmed = self.segments[i].end;
            }
            i = i + 1;
        }
        confirmed
    }

    /// librime `Composition::GetCommitText` (bytes decoded as UTF-8).
    pub fn commit_text(&self, input: &[u8]) -> (text: String)
        ensures
            text@ == lossy_text(commit_bytes(self.segments@, input@)),
            valid_utf8(commit_bytes(self.segments@, input@)) ==> encode_utf8(text@) == commit_bytes(
                self.segments@,
                input@,
            ),
    {
        let mut out: Vec<u8> = Vec::new();
        let mut end: usize = 0;
        let mut i: usize = 0;
        while i < self.segments.len()
            invariant
                i <= self.segments.len(),
                (out@, end as int) == commit_fold(self.segments@.take(i as int), input@),
                end <= input@.len(),
            decreases self.segments.len() - i,
        {
            proof {
                assert(self.segments@.take(i as int + 1).drop_last() =~= self.segments@.take(i as int));
                assert(self.segments@.take(i as int + 1).last() == self.segments@[i as int]);
            }
            let segment = &self.segments[i];
            match segment.selected_candidate() {
                Some(candidate) => {
                    end = if candidate.end < input.len() { candidate.end } else { input.len() };
                    let bytes = candidate.text.as_str().as_bytes();
                    out.extend_from_slice(bytes);
                },
                None => {
                    end = if segment.end < input.len() { segment.end } else { input.len() };
                    let start = if segment.start < end { segment.start } else { end };
                    if !segment.has_tag("phony") {
                        extend_range(&mut out, input, start, end);
                    }
                    proof {
                        reveal_strlit("phony");
                    }
                },
            }
            i = i + 1;
        }
        proof {
            assert(self.segments@.take(i as int) =~= self.segments@);
        }
        if input.len() > end {
            extend_range(&mut out, input, end, input.len());
        }
        string_from_utf8_lossy(out.as_slice())
    }
}

/// Notifications the context queues for its driver.
#[derive(Clone, Debug, PartialEq)]
pub enum Event {
    Update,
    /// A commit, with the committed text.
    Commit(String),
    /// An option was set.
    Option(String),
}

/// The input context (the commonly used subset of librime `Context`).
///
/// `caret` never exceeds the input length (`wf`).
pub struct Context {
    pub input: Vec<u8>,
    pub caret: usize,
    pub composition: Composition,
    pub options: FlagTable,
    pub properties: TextTable,
    /// Buffered state (set by the scheme; affects only the live view of the input).
    pub buffered: bool,
    /// Alternation state of paired punctuation (one per input context).
    pub punct_pairs: PairState,
    pub last_commit: String,
    pub events: Vec<Event>,
}

/// The input with the private buffer marker `~` removed when the context is buffered.
pub open spec fn spec_live_input(buffered: bool, input: Seq<u8>) -> Seq<u8> {
    if buffered && input.len() > 0 && input[0] == 0x7e {
        input.subrange(1, input.len() as int)
    } else {
        input
    }
}

/// Value of option `name` in `options`, `default` when it was never set.
pub open spec fn option_value(options: Map<Seq<char>, bool>, name: Seq<char>, default: bool) -> bool {
    if options.contains_key(name) {
        options[name]
    } else {
        default
    }
}

/// The index that `highlight(index)` settles on in a menu of `count` candidates.
pub open spec fn highlight_target(count: int, index: int) -> int {
    if index < count - 1 {
        index
    } else {
        count - 1
    }
}

/// `bytes` with its first byte equal to `byte` removed.
pub open spec fn erase_first_byte(bytes: Seq<u8>, byte: u8) -> Seq<u8>
    decreases bytes.len(),
{
    if bytes.len() == 0 {
        bytes
    } else if bytes[0] == byte {
        bytes.subrange(1, bytes.len() as int)
    } else {
        seq![bytes[0]] + erase_first_byte(bytes.subrange(1, bytes.len() as int), byte)
    }
}

/// Bytes of librime `Composition::GetScriptText(keep_selection = true)` for the first
/// segments, with the input offset reached: confirmed segments give their candidate text,
/// others the candidate preedit with its first tab removed, else their input.
pub open spec fn script_fold(segments: Seq<Segment>, input: Seq<u8>) -> (Seq<u8>, int)
    decreases segments.len(),
{
    if segments.len() == 0 {
        (seq![], 0)
    } else {
        let (out, previous_end) = script_fold(segments.drop_last(), input);
        let segment = segments.last();
        let candidate = spec_selected_candidate(segment);
        let raw_end = match candidate {
            Some(c) => c.end as int,
            None => segment.end as int,
        };
        let end = if raw_end < input.len() { raw_end } else { input.len() as int };
        let start = if previous_end < end { previous_end } else { end };
        match candidate {
            Some(c) => if segment.selected {
                (out + encode_utf8(c.text@), end)
            } else if c.preedit@.len() > 0 {
                (out + erase_first_byte(encode_utf8(c.preedit@), 0x09), end)
            } else {
                (out + input.subrange(start, end), end)
            },
            None => (out + input.subrange(start, end), end),
        }
    }
}

/// The script text's bytes: the fold, then the input past the last segment.
pub open spec fn script_bytes(segments: Seq<Segment>, input: Seq<u8>) -> Seq<u8> {
    let (out, end) = script_fold(segments, input);
    if input.len() > end {
        out + input.subrange(end, input.len() as int)
    } else {
        out
    }
}

pub proof fn lemma_script_fold_end(segments: Seq<Segment>, input: Seq<u8>)
    ensures
        0 <= script_fold(segments, input).1 <= input.len(),
    decreases segments.len(),
{
    if segments.len() > 0 {
        lemma_script_fold_end(segments.drop_last(), input);
    }
}

/// `bytes` with the first tab byte removed.
fn erase_first_tab(bytes: &[u8], out: &mut Vec<u8>)
    ensures
        final(out)@ == old(out)@ + erase_first_byte(bytes@, 0x09),
{
    let mut i: usize = 0;
    assert(bytes@.subrange(0, 0) =~= Seq::<u8>::empty());
    assert(bytes@.subrange(0, bytes@.len() as int) =~= bytes@);
    assert(old(out)@ + Seq::<u8>::empty() =~= old(out)@);
    while i < bytes.len()
        invariant
            i <= bytes.len(),
            forall|j: int| 0 <= j < i ==> bytes@[j] != 0x09,
            out@ == old(out)@ + bytes@.subrange(0, i as int),
            erase_first_byte(bytes@, 0x09) == bytes@.subrange(0, i as int) + erase_first_byte(
                bytes@.subrange(i as int, bytes@.len() as int),
                0x09,
            ),
        decreases bytes.len() - i,
    {
        let ghost rest = bytes@.subrange(i as int, bytes@.len() as int);
        if bytes[i] == 0x09 {
            extend_range(out, bytes, i + 1, bytes.len());
            proof {
                assert(rest.subrange(1, rest.len() as int) =~= bytes@.subrange(i + 1, bytes@.len() as int));
                assert(out@ =~= old(out)@ + erase_first_byte(bytes@, 0x09));
            }
            return;
        }
        proof {
            assert(rest.subrange(1, rest.len() as int) =~= bytes@.subrange(i + 1, bytes@.len() as int));
            assert(bytes@.subrange(0, i as int) + seq![bytes@[i as int]] =~= bytes@.subrange(0, i + 1));
            assert(erase_first_byte(bytes@, 0x09) =~= bytes@.subrange(0, i + 1) + erase_first_byte(
                bytes@.subrange(i + 1, bytes@.len() as int),
                0x09,
            ));
        }
        out.push(bytes[i]);
        i = i + 1;
        assert(out@ =~= old(out)@ + bytes@.subrange(0, i as int));
    }
    proof {
        assert(bytes@.subrange(i as int, bytes@.len() as int) =~= Seq::<u8>::empty());
        assert(bytes@.subrange(0, i as int) =~= bytes@);
    }
}

/// `post` is `pre` after librime `Context::Highlight(index)`: the last segment's highlight
/// moves to `index` clamped to its menu (to 0 for an empty menu), with an update queued
/// when it changed; without segments nothing happens.
pub open spec fn highlighted(pre: Context, post: Context, index: int, changed: bool) -> bool {
    &&& post.input == pre.input
    &&& post.caret == pre.caret
    &&& post.same_state(&pre)
    &&& post.composition.segments@.len() == pre.composition.segments@.len()
    &&& (pre.composition.segments@.len() == 0 ==> !changed && post.composition == pre.composition
        && post.events == pre.events)
    &&& (pre.composition.segments@.len() > 0 ==> ({
        let before = pre.composition.segments@.last();
        let after = post.composition.segments@.last();
        let target = if before.candidates@.len() == 0 {
            0
        } else {
            highlight_target(before.candidates@.len() as int, index)
        };
        &&& post.composition.segments@.drop_last() == pre.composition.segments@.drop_last()
        &&& after == Segment { selected_index: target as usize, ..before }
        &&& changed == (before.selected_index != target)
        &&& post.events@ == if changed {
            pre.events@.push(Event::Update)
        } else {
            pre.events@
        }
    }))
}

/// The properties after `key` is set to `value` where it differs (an empty value removes
/// the key).
pub open spec fn property_written(
    properties: Map<Seq<char>, Seq<char>>,
    key: Seq<char>,
    value: Seq<char>,
) -> Map<Seq<char>, Seq<char>> {
    let current = if properties.contains_key(key) {
        properties[key]
    } else {
        Seq::<char>::empty()
    };
    if current == value {
        properties
    } else if value.len() == 0 {
        properties.remove(key)
    } else {
        properties.insert(key, value)
    }
}

/// `post` is `pre` after `Context::set_caret`.
pub open spec fn caret_set(pre: Context, post: Context, caret: usize) -> bool {
    &&& (post.caret == if caret < pre.input@.len() { caret } else { pre.input@.len() as usize })
    &&& (post.input@ == pre.input@)
    &&& (post.composition == pre.composition)
    &&& (post.events@ == pre.events@)
    &&& (post.same_state(&pre))
}

/// `post` is `pre` after `Context::direct_commit`.
pub open spec fn directly_committed(pre: Context, post: Context, text: Seq<char>) -> bool {
    &&& (post.last_commit@ == text)
    &&& (post.events@.len() == pre.events@.len() + 1)
    &&& (post.events@.drop_last() == pre.events@)
    &&& (post.events@.last() matches Event::Commit(t) && t@ == text)
    &&& (post.input == pre.input)
    &&& (post.caret == pre.caret)
    &&& (post.composition == pre.composition)
    &&& (post.options@ == pre.options@)
    &&& (post.properties@ == pre.properties@)
    &&& (post.buffered == pre.buffered)
    &&& (post.punct_pairs == pre.punct_pairs)
}

/// `post` is `pre` after `Context::push_input`.
pub open spec fn input_pushed(pre: Context, post: Context, text: Seq<u8>) -> bool {
    &&& (post.wf())
    &&& (post.input@ == pre.input@.subrange(0, pre.caret as int) + text
        + pre.input@.subrange(pre.caret as int, pre.input@.len() as int))
    &&& (post.caret == pre.caret + text.len())
    &&& (post.composition == pre.composition)
    &&& (post.events@ == pre.events@.push(Event::Update))
    &&& (post.same_state(&pre))
}

/// `post` is `pre` after `Context::pop_input`.
pub open spec fn input_popped(pre: Context, post: Context, count: usize, popped: bool) -> bool {
    &&& (post.wf())
    &&& (popped == (pre.caret >= count))
    &&& (popped ==> post.input@ == pre.input@.subrange(0, pre.caret - count)
        + pre.input@.subrange(pre.caret as int, pre.input@.len() as int)
        && post.caret == pre.caret - count
        && post.events@ == pre.events@.push(Event::Update))
    &&& (!popped ==> post.input == pre.input && post.caret == pre.caret
        && post.events == pre.events)
    &&& (post.composition == pre.composition)
    &&& (post.same_state(&pre))
}

/// `post` is `pre` after `Context::delete_input`.
pub open spec fn input_deleted(pre: Context, post: Context, count: usize, deleted: bool) -> bool {
    &&& (post.wf())
    &&& (deleted == (pre.caret + count <= pre.input@.len()))
    &&& (deleted ==> post.input@ == pre.input@.subrange(0, pre.caret as int)
        + pre.input@.subrange(pre.caret + count, pre.input@.len() as int)
        && post.events@ == pre.events@.push(Event::Update))
    &&& (!deleted ==> post.input == pre.input && post.events == pre.events)
    &&& (post.caret == pre.caret)
    &&& (post.composition == pre.composition)
    &&& (post.same_state(&pre))
}

/// `post` is `pre` after `Context::set_input`.
pub open spec fn input_set(pre: Context, post: Context, value: Seq<u8>) -> bool {
    &&& (post.wf())
    &&& (post.input@ == value)
    &&& (post.caret == value.len())
    &&& (post.composition == pre.composition)
    &&& (post.events@ == pre.events@.push(Event::Update))
    &&& (post.same_state(&pre))
}

/// `post` is `pre` after `Context::clear`.
pub open spec fn cleared(pre: Context, post: Context) -> bool {
    &&& (post.wf())
    &&& (post.input@.len() == 0)
    &&& (post.caret == 0)
    &&& (post.composition.segments@.len() == 0)
    &&& (post.events@ == pre.events@.push(Event::Update))
    &&& (post.same_state(&pre))
}

/// `post` is `pre` after `Context::confirm_current_selection`.
pub open spec fn selection_confirmed(pre: Context, post: Context, confirmed: bool) -> bool {
    &&& (post.input == pre.input)
    &&& (post.caret == pre.caret)
    &&& (post.events == pre.events)
    &&& (post.same_state(&pre))
    &&& (post.composition.segments@.len() == pre.composition.segments@.len())
    &&& (pre.composition.segments@.len() == 0 ==> !confirmed && post.composition
        == pre.composition)
    &&& (pre.composition.segments@.len() > 0 ==> ({
        let before = pre.composition.segments@.last();
        &&& post.composition.segments@.drop_last() == pre.composition.segments@.drop_last()
        &&& post.composition.segments@.last() == Segment { selected: true, ..before }
        &&& confirmed == (spec_selected_candidate(before) is Some || before.end > before.start)
    }))
}

/// `post` is `pre` after `Context::commit`: the commit text is queued, then all is cleared.
pub open spec fn composition_committed(pre: Context, post: Context, committed: bool) -> bool {
    &&& (committed == (pre.input@.len() > 0 || pre.composition.segments@.len() > 0))
    &&& (!committed ==> post.input == pre.input && post.caret
        == pre.caret && post.composition == pre.composition
        && post.events == pre.events && post.same_state(&pre))
    &&& (committed ==> ({
        &&& post.wf()
        &&& post.input@.len() == 0
        &&& post.caret == 0
        &&& post.composition.segments@.len() == 0
        &&& post.events@.len() == pre.events@.len() + 2
        &&& post.events@.subrange(0, pre.events@.len() as int) == pre.events@
        &&& post.events@.last() == Event::Update
        &&& post.events@[pre.events@.len() as int] matches Event::Commit(t)
            && t@ == post.last_commit@
        &&& (valid_utf8(commit_bytes(pre.composition.segments@, pre.input@))
            ==> encode_utf8(post.last_commit@) == commit_bytes(
            pre.composition.segments@,
            pre.input@,
        ))
        &&& post.options@ == pre.options@
        &&& post.properties@ == pre.properties@
        &&& post.buffered == pre.buffered
        &&& post.punct_pairs == pre.punct_pairs
    }))
}

/// `segments` without its unconfirmed tail.
pub open spec fn confirmed_prefix(segments: Seq<Segment>) -> Seq<Segment>
    decreases segments.len(),
{
    if segments.len() > 0 && !segments.last().selected {
        confirmed_prefix(segments.drop_last())
    } else {
        segments
    }
}

/// `after` is `before` after `Composition::forward`.
pub open spec fn forwarded(before: Seq<Segment>, after: Seq<Segment>) -> bool {
    if before.len() > 0 && before.last().start != before.last().end {
        &&& after.len() == before.len() + 1
        &&& after.drop_last() == before
        &&& after.last().start == before.last().end
        &&& after.last().end == before.last().end
        &&& after.last().candidates@.len() == 0
        &&& after.last().tags@.len() == 0
        &&& !after.last().selected
        &&& !after.last().translated
        &&& after.last().selected_index == 0
    } else {
        after == before
    }
}

/// `post` is `pre` after `Context::refresh_non_confirmed_composition`.
pub open spec fn refreshed(pre: Context, post: Context, reverted: bool) -> bool {
    &&& (post.input == pre.input)
    &&& (post.caret == pre.caret)
    &&& (post.same_state(&pre))
    &&& (reverted == (pre.composition.segments@.len() > 0
        && !pre.composition.segments@.last().selected))
    &&& (!reverted ==> post.composition == pre.composition && post.events
        == pre.events)
    &&& (reverted ==> post.events@ == pre.events@.push(Event::Update)
        && forwarded(confirmed_prefix(pre.composition.segments@), post.composition.segments@))
}

impl Context {
    /// `caret` stays within the input.
    pub open spec fn wf(&self) -> bool {
        self.caret <= self.input@.len()
    }

    /// Everything but the input, caret and composition is as in `other`.
    pub open spec fn same_state(&self, other: &Context) -> bool {
        &&& self.options@ == other.options@
        &&& self.properties@ == other.properties@
        &&& self.buffered == other.buffered
        &&& self.punct_pairs == other.punct_pairs
        &&& self.last_commit@ == other.last_commit@
    }

    pub fn new() -> (context: Self)
        ensures
            context.wf(),
            context.input@.len() == 0,
            context.caret == 0,
            context.composition.segments@.len() == 0,
            context.options@ == Map::<Seq<char>, bool>::empty(),
            context.properties@ == Map::<Seq<char>, Seq<char>>::empty(),
            !context.buffered,
            forall|key: char, full_shape: bool| !context.punct_pairs.oddness(key, full_shape),
            context.last_commit@.len() == 0,
            context.events@.len() == 0,
    {
        Context {
            input: Vec::new(),
            caret: 0,
            composition: Composition { segments: Vec::new() },
            options: FlagTable::new(),
            properties: TextTable::new(),
            buffered: false,
            punct_pairs: PairState::new(),
            last_commit: String::new(),
            events: Vec::new(),
        }
    }

    pub fn input(&self) -> (input: &[u8])
        ensures
            input@ == self.input@,
    {
        self.input.as_slice()
    }

    pub fn caret(&self) -> (caret: usize)
        ensures
            caret == self.caret,
    {
        self.caret
    }

    /// Moves the caret, clamped to the input length.
    pub fn set_caret(&mut self, caret: usize)
        ensures
            caret_set(*old(self), *final(self), caret),
            final(self).wf(),
    {
        self.caret = if caret < self.input.len() { caret } else { self.input.len() };
    }

    /// librime `Context::IsComposing`: there is input or a segment.
    pub fn is_composing(&self) -> (composing: bool)
        ensures
            composing == (self.input@.len() > 0 || self.composition.segments@.len() > 0),
    {
        self.input.len() > 0 || !self.composition.empty()
    }

    /// The last segment has candidates.
    pub fn has_menu(&self) -> (menu: bool)
        ensures
            menu == (self.composition.segments@.len() > 0
                && self.composition.segments@.last().candidates@.len() > 0),
    {
        match self.composition.back() {
            Some(segment) => segment.candidates.len() > 0,
            None => false,
        }
    }

    /// The input without the private buffer marker.
    pub fn live_input(&self) -> (live: &[u8])
        ensures
            live@ == spec_live_input(self.buffered, self.input@),
    {
        let value = self.input.as_slice();
        if self.buffered && value.len() > 0 && value[0] == 0x7e {
            let (_, rest) = value.split_at(1);
            rest
        } else {
            value
        }
    }

    /// The caret as an offset in the live input.
    pub fn live_caret(&self) -> (caret: usize)
        requires
            self.wf(),
        ensures
            caret == ({
                let shifted = if self.buffered && self.input@.len() > 0 && self.input@[0] == 0x7e {
                    if self.caret >= 1 { self.caret - 1 } else { 0 }
                } else {
                    self.caret as int
                };
                let live = spec_live_input(self.buffered, self.input@).len();
                if shifted < live { shifted } else { live as int }
            }),
    {
        let live = self.live_input().len();
        let marked = self.buffered && self.input.len() > 0 && self.input[0] == 0x7e;
        let caret = if marked {
            if self.caret >= 1 { self.caret - 1 } else { 0 }
        } else {
            self.caret
        };
        if caret < live { caret } else { live }
    }

    /// librime `Context::GetCommitText`.
    pub fn get_commit_text(&self) -> (text: String)
        ensures
            text@ == lossy_text(commit_bytes(self.composition.segments@, self.input@)),
            valid_utf8(commit_bytes(self.composition.segments@, self.input@)) ==> encode_utf8(text@)
                == commit_bytes(self.composition.segments@, self.input@),
    {
        self.composition.commit_text(self.input.as_slice())
    }

    /// librime `Context::GetScriptText`.
    pub fn get_script_text(&self) -> (text: String)
        ensures
            text@ == lossy_text(script_bytes(self.composition.segments@, self.input@)),
            valid_utf8(script_bytes(self.composition.segments@, self.input@)) ==> encode_utf8(text@)
                == script_bytes(self.composition.segments@, self.input@),
    {
        let input = self.input.as_slice();
        let segments = &self.composition.segments;
        let mut out: Vec<u8> = Vec::new();
        let mut end: usize = 0;
        let mut i: usize = 0;
        while i < segments.len()
            invariant
                i <= segments.len(),
                segments@ == self.composition.segments@,
                input@ == self.input@,
                (out@, end as int) == script_fold(segments@.take(i as int), input@),
                end <= input@.len(),
            decreases segments.len() - i,
        {
            proof {
                assert(segments@.take(i as int + 1).drop_last() =~= segments@.take(i as int));
                assert(segments@.take(i as int + 1).last() == segments@[i as int]);
            }
            let segment = &segments[i];
            let candidate = segment.selected_candidate();
            let raw_end = match candidate {
                Some(c) => c.end,
                None => segment.end,
            };
            let next_end = if raw_end < input.len() { raw_end } else { input.len() };
            let start = if end < next_end { end } else { next_end };
            match candidate {
                Some(c) => {
                    if segment.selected {
                        out.extend_from_slice(c.text.as_str().as_bytes());
                    } else if c.preedit.as_str().as_bytes().len() > 0 {
                        erase_first_tab(c.preedit.as_str().as_bytes(), &mut out);
                    } else {
                        extend_range(&mut out, input, start, next_end);
                    }
                },
                None => {
                    extend_range(&mut out, input, start, next_end);
                },
            }
            end = next_end;
            i = i + 1;
        }
        proof {
            assert(segments@.take(i as int) =~= segments@);
        }
        if input.len() > end {
            extend_range(&mut out, input, end, input.len());
        }
        string_from_utf8_lossy(out.as_slice())
    }

    /// The text of the last commit.
    pub fn last_commit_text(&self) -> (text: &str)
        ensures
            text@ == self.last_commit@,
    {
        self.last_commit.as_str()
    }

    /// librime `Engine::CommitText`: commits text past the composition.
    pub fn direct_commit(&mut self, text: &str)
        ensures
            directly_committed(*old(self), *final(self), text@),
    {
        self.last_commit = to_owned_string(text);
        self.events.push(Event::Commit(to_owned_string(text)));
        assert(self.events@.drop_last() =~= old(self).events@);
    }

    /// Option value (`false` when never set).
    pub fn get_option(&self, name: &str) -> (value: bool)
        ensures
            value == option_value(self.options@, name@, false),
    {
        match self.options.get(name) {
            Some(value) => value,
            None => false,
        }
    }

    /// Option value with an explicit default.
    pub fn get_option_or(&self, name: &str, default: bool) -> (value: bool)
        ensures
            value == option_value(self.options@, name@, default),
    {
        match self.options.get(name) {
            Some(value) => value,
            None => default,
        }
    }

    /// librime `Context::set_option`: always notifies.
    pub fn set_option(&mut self, name: &str, value: bool)
        ensures
            final(self).options@ == old(self).options@.insert(name@, value),
            final(self).events@.len() == old(self).events@.len() + 1,
            final(self).events@.drop_last() == old(self).events@,
            final(self).events@.last() matches Event::Option(n) && n@ == name@,
            final(self).input == old(self).input,
            final(self).caret == old(self).caret,
            final(self).composition == old(self).composition,
            final(self).properties@ == old(self).properties@,
            final(self).buffered == old(self).buffered,
            final(self).punct_pairs == old(self).punct_pairs,
            final(self).last_commit == old(self).last_commit,
    {
        self.options.insert(name, value);
        self.events.push(Event::Option(to_owned_string(name)));
    }

    pub fn get_property(&self, key: &str) -> (value: Option<&str>)
        ensures
            match value {
                Some(text) => self.properties@.contains_key(key@) && text@ == self.properties@[key@],
                None => !self.properties@.contains_key(key@),
            },
    {
        self.properties.get(key)
    }

    /// Sets a property; an empty value removes it.
    pub fn set_property(&mut self, key: &str, value: &str)
        ensures
            final(self).properties@ == if value@.len() == 0 {
                old(self).properties@.remove(key@)
            } else {
                old(self).properties@.insert(key@, value@)
            },
            final(self).input == old(self).input,
            final(self).caret == old(self).caret,
            final(self).composition == old(self).composition,
            final(self).options@ == old(self).options@,
            final(self).buffered == old(self).buffered,
            final(self).punct_pairs == old(self).punct_pairs,
            final(self).last_commit == old(self).last_commit,
            final(self).events == old(self).events,
    {
        if value.is_empty() {
            self.properties.remove(key);
        } else {
            self.properties.insert(key, value);
        }
    }

    pub fn is_buffered(&self) -> (buffered: bool)
        ensures
            buffered == self.buffered,
    {
        self.buffered
    }

    pub fn set_buffered(&mut self, value: bool)
        ensures
            final(self).buffered == value,
            final(self).input == old(self).input,
            final(self).caret == old(self).caret,
            final(self).composition == old(self).composition,
            final(self).options@ == old(self).options@,
            final(self).properties@ == old(self).properties@,
            final(self).punct_pairs == old(self).punct_pairs,
            final(self).last_commit == old(self).last_commit,
            final(self).events == old(self).events,
    {
        self.buffered = value;
    }

    /// The alternation state of paired punctuation, borrowed for an update: whatever is
    /// written through it becomes the context's state, and nothing else changes.
    pub fn punct_pairs(&mut self) -> (pairs: &mut PairState)
        ensures
            *pairs == old(self).punct_pairs,
            final(self).punct_pairs == *final(pairs),
            final(self).buffered == old(self).buffered,
            final(self).input == old(self).input,
            final(self).caret == old(self).caret,
            final(self).composition == old(self).composition,
            final(self).options == old(self).options,
            final(self).properties == old(self).properties,
            final(self).last_commit == old(self).last_commit,
            final(self).events == old(self).events,
    {
        &mut self.punct_pairs
    }

    /// librime `Context::PushInput`: inserts at the caret and moves the caret past the insertion.
    pub fn push_input(&mut self, text: &[u8])
        requires
            old(self).wf(),
        ensures
            input_pushed(*old(self), *final(self), text@),
            final(self).wf(),
    {
        let at = self.caret;
        let mut next: Vec<u8> = Vec::new();
        extend_range(&mut next, self.input.as_slice(), 0, at);
        next.extend_from_slice(text);
        let caret = next.len();
        extend_range(&mut next, self.input.as_slice(), at, self.input.len());
        self.input = next;
        self.caret = caret;
        self.events.push(Event::Update);
        assert(self.input@ =~= old(self).input@.subrange(0, old(self).caret as int) + text@
            + old(self).input@.subrange(old(self).caret as int, old(self).input@.len() as int));
    }

    /// librime `Context::PopInput`: deletes `count` bytes before the caret; refused
    /// (nothing changes) when the caret is closer than that to the start.
    pub fn pop_input(&mut self, count: usize) -> (popped: bool)
        requires
            old(self).wf(),
        ensures
            input_popped(*old(self), *final(self), count, popped),
            final(self).wf(),
    {
        if self.caret < count {
            return false;
        }
        let start = self.caret - count;
        let mut next: Vec<u8> = Vec::new();
        extend_range(&mut next, self.input.as_slice(), 0, start);
        extend_range(&mut next, self.input.as_slice(), self.caret, self.input.len());
        self.input = next;
        self.caret = start;
        self.events.push(Event::Update);
        true
    }

    /// librime `Context::DeleteInput`: deletes `count` bytes at the caret; refused
    /// (nothing changes) when fewer remain after the caret.
    pub fn delete_input(&mut self, count: usize) -> (deleted: bool)
        requires
            old(self).wf(),
        ensures
            input_deleted(*old(self), *final(self), count, deleted),
            final(self).wf(),
    {
        if count > self.input.len() - self.caret {
            return false;
        }
        let end = self.caret + count;
        let mut next: Vec<u8> = Vec::new();
        extend_range(&mut next, self.input.as_slice(), 0, self.caret);
        extend_range(&mut next, self.input.as_slice(), end, self.input.len());
        self.input = next;
        self.events.push(Event::Update);
        true
    }

    /// librime `Context::set_input`: replaces the input; the caret goes to its end.
    pub fn set_input(&mut self, value: &[u8])
        ensures
            input_set(*old(self), *final(self), value@),
            final(self).wf(),
    {
        let mut next: Vec<u8> = Vec::new();
        next.extend_from_slice(value);
        assert(next@ =~= value@);
        self.input = next;
        self.caret = self.input.len();
        self.events.push(Event::Update);
    }

    /// Clears input and composition.
    pub fn clear(&mut self)
        ensures
            cleared(*old(self), *final(self)),
            final(self).wf(),
    {
        self.input = Vec::new();
        self.caret = 0;
        self.composition = Composition { segments: Vec::new() };
        self.events.push(Event::Update);
    }

    /// librime `Context::Highlight`: moves the highlight of the last segment to `index`,
    /// clamped to the menu; an empty menu goes back to 0. `true` when the index changed.
    pub fn highlight(&mut self, index: usize) -> (changed: bool)
        ensures
            final(self).input == old(self).input,
            final(self).caret == old(self).caret,
            final(self).same_state(old(self)),
            final(self).composition.segments@.len() == old(self).composition.segments@.len(),
            highlighted(*old(self), *final(self), index as int, changed),
    {
        if self.composition.segments.len() == 0 {
            return false;
        }
        let last = self.composition.segments.len() - 1;
        let count = self.composition.segments[last].candidates.len();
        let current = self.composition.segments[last].selected_index;
        let target = if count == 0 {
            0
        } else if index < count - 1 {
            index
        } else {
            count - 1
        };
        if current == target {
            return false;
        }
        let mut segment = self.composition.segments.pop().unwrap();
        segment.selected_index = target;
        self.composition.segments.push(segment);
        proof {
            assert(self.composition.segments@.drop_last() =~= old(self).composition.segments@.drop_last());
        }
        self.events.push(Event::Update);
        true
    }

    /// librime `Context::ConfirmCurrentSelection`: marks the last segment confirmed.
    pub fn confirm_current_selection(&mut self) -> (confirmed: bool)
        ensures
            selection_confirmed(*old(self), *final(self), confirmed),
    {
        if self.composition.segments.len() == 0 {
            return false;
        }
        let mut segment = self.composition.segments.pop().unwrap();
        segment.selected = true;
        let confirmed = segment.selected_index < segment.candidates.len() || segment.end > segment.start;
        self.composition.segments.push(segment);
        proof {
            assert(self.composition.segments@.drop_last() =~= old(self).composition.segments@.drop_last());
        }
        confirmed
    }

    /// librime `Context::Commit`: queues the commit (with its text), then clears.
    pub fn commit(&mut self) -> (committed: bool)
        ensures
            composition_committed(*old(self), *final(self), committed),
    {
        if !self.is_composing() {
            return false;
        }
        let text = self.composition.commit_text(self.input.as_slice());
        self.last_commit = text.clone();
        self.events.push(Event::Commit(text));
        self.clear();
        proof {
            assert(self.events@.subrange(0, old(self).events@.len() as int) =~= old(self).events@);
        }
        true
    }

    /// librime `ClearNonConfirmedComposition` / `RefreshNonConfirmedComposition`: drops the
    /// unconfirmed segments at the end, then appends an empty tail segment.
    pub fn refresh_non_confirmed_composition(&mut self) -> (reverted: bool)
        ensures
            refreshed(*old(self), *final(self), reverted),
    {
        let mut reverted = false;
        while self.composition.segments.len() > 0
            && !self.composition.segments[self.composition.segments.len() - 1].selected
            invariant
                self.input == old(self).input,
                self.caret == old(self).caret,
                self.events == old(self).events,
                self.same_state(old(self)),
                !reverted ==> self.composition == old(self).composition,
                reverted ==> (old(self).composition.segments@.len() > 0
                    && !old(self).composition.segments@.last().selected),
                confirmed_prefix(self.composition.segments@) == confirmed_prefix(old(self).composition.segments@),
            decreases self.composition.segments.len(),
        {
            let ghost before = self.composition.segments@;
            self.composition.segments.pop();
            assert(self.composition.segments@ =~= before.drop_last());
            reverted = true;
        }
        if reverted {
            self.composition.forward();
            self.events.push(Event::Update);
        }
        reverted
    }

    /// Hands out the queued notifications and empties the queue.
    pub fn drain_events(&mut self) -> (events: Vec<Event>)
        ensures
            events@ == old(self).events@,
            final(self).events@.len() == 0,
            final(self).input == old(self).input,
            final(self).caret == old(self).caret,
            final(self).composition == old(self).composition,
            final(self).same_state(old(self)),
    {
        let mut drained: Vec<Event> = Vec::new();
        std::mem::swap(&mut drained, &mut self.events);
        drained
    }
}

/// Writes the property only when its value changes.
pub fn set_property_if_changed(context: &mut Context, key: &str, value: &str)
    ensures
        final(context).properties@ == property_written(old(context).properties@, key@, value@),
        final(context).input == old(context).input,
        final(context).caret == old(context).caret,
        final(context).composition == old(context).composition,
        final(context).options@ == old(context).options@,
        final(context).buffered == old(context).buffered,
        final(context).punct_pairs == old(context).punct_pairs,
        final(context).last_commit == old(context).last_commit,
        final(context).events == old(context).events,
{
    let changed = match context.get_property(key) {
        Some(current) => !str_eq(current, value),
        None => !value.is_empty(),
    };
    if changed {
        context.set_property(key, value);
    }
}

/// End of the last confirmed segment among the first `count` segments (0 when none).
pub open spec fn confirmed_from(segments: Seq<Segment>, count: int) -> usize
    decreases count,
{
    if count <= 0 {
        0
    } else if segments[count - 1].selected {
        segments[count - 1].end
    } else {
        confirmed_from(segments, count - 1)
    }
}

/// Law: deleting the byte just pushed at the caret undoes the push.
pub proof fn law_pop_undoes_push(pre: Context, mid: Context, post: Context, byte: u8, popped: bool)
    requires
        pre.wf(),
        input_pushed(pre, mid, seq![byte]),
        input_popped(mid, post, 1, popped),
    ensures
        popped,
        post.input@ == pre.input@,
        post.caret == pre.caret,
        post.composition == pre.composition,
        post.same_state(&pre),
{
    assert(post.input@ =~= pre.input@);
}

/// Law: highlighting the same index twice changes nothing the second time.
pub proof fn law_highlight_idempotent(pre: Context, mid: Context, post: Context, index: int, first: bool, second: bool)
    requires
        0 <= index <= usize::MAX,
        highlighted(pre, mid, index, first),
        highlighted(mid, post, index, second),
    ensures
        !second,
        post.composition.segments@ == mid.composition.segments@,
        post.events@ == mid.events@,
{
    if pre.composition.segments@.len() > 0 {
        let m = mid.composition.segments@;
        let p = post.composition.segments@;
        assert(p.last() == m.last());
        assert forall|i: int| 0 <= i < p.len() implies p[i] == m[i] by {
            if i < p.len() - 1 {
                assert(p[i] == p.drop_last()[i]);
                assert(m[i] == m.drop_last()[i]);
            }
        }
        assert(p =~= m);
    }
}

/// Law: the caret never leaves the input, wherever it is set.
pub proof fn law_caret_within_input(pre: Context, post: Context, caret: usize)
    requires
        caret_set(pre, post, caret),
    ensures
        post.wf(),
        caret <= pre.input@.len() ==> post.caret == caret,
{
}

} // verus!
