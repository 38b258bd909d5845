//! What the platform is sent after each change of the session: the preedit with its cursor
//! and the candidate menu.

use vstd::prelude::*;
use vstd::string::StringSliceAdditionalSpecFns;
use vstd::utf8::{decode_utf8, encode_utf8, is_char_boundary, valid_utf8};
use crate::interaction::{buffered_text, property_text, K_BUFFERED};
use crate::learning::{lemma_boundary_at_join, lemma_encode_concat};
use crate::session::{
    lossy_text, option_value, spec_live_input, spec_selected_candidate, string_from_utf8_lossy, Candidate, Context,
    Segment,
};
use crate::tables::text_views;
use crate::text::{push_char, push_str, to_owned_string};

verus! {

/// Option that hides the candidate menu.
pub const OPTION_HIDE_CANDIDATE: &'static str = "_hide_candidate";

/// The view of the session the platform shows.
#[derive(Clone, Debug, PartialEq)]
pub struct HostUpdate {
    pub preedit: String,
    /// Byte offset of the cursor in the preedit.
    pub cursor: usize,
    pub texts: Vec<String>,
    pub comments: Vec<String>,
    pub selected: usize,
}

/// The last segment of the composition.
pub open spec fn last_segment(context: Context) -> Option<Segment> {
    if context.composition.segments@.len() > 0 {
        Some(context.composition.segments@.last())
    } else {
        None
    }
}

/// The preedit of the highlighted candidate (empty when there is none).
pub open spec fn highlighted_preedit(context: Context) -> Seq<char> {
    match last_segment(context) {
        Some(segment) => match spec_selected_candidate(segment) {
            Some(candidate) => candidate.preedit@,
            None => Seq::empty(),
        },
        None => Seq::empty(),
    }
}

/// The prompt of the last segment (empty when there is none).
pub open spec fn segment_prompt(context: Context) -> Seq<char> {
    match last_segment(context) {
        Some(segment) => segment.prompt@,
        None => Seq::empty(),
    }
}

/// The live input (without the buffer marker).
pub open spec fn live_bytes(context: Context) -> Seq<u8> {
    spec_live_input(context.buffered, context.input@)
}

/// The caret as an offset in the live input.
pub open spec fn live_caret_of(context: Context) -> int {
    let shifted = if context.buffered && context.input@.len() > 0 && context.input@[0] == 0x7e {
        if context.caret >= 1 { context.caret - 1 } else { 0 }
    } else {
        context.caret as int
    };
    let live = live_bytes(context).len();
    if shifted < live { shifted } else { live as int }
}

/// Where the composed part of the live input ends: the last segment's end, less the
/// buffer marker, within the live input.
pub open spec fn composed_end(context: Context) -> int {
    let marker: int = if property_text(context, K_BUFFERED@).len() > 0 && context.input@.len() > 0
        && context.input@[0] == 0x7e {
        1
    } else {
        0
    };
    let end: int = match last_segment(context) {
        Some(segment) => segment.end as int,
        None => 0,
    };
    let shifted = if end >= marker { end - marker } else { 0 };
    if shifted < live_bytes(context).len() { shifted } else { live_bytes(context).len() as int }
}

/// The text shown before the live input when nothing is highlighted: the buffered text,
/// and a space when live input follows it.
pub open spec fn fallback_prefix(context: Context) -> Seq<char> {
    let buffered = property_text(context, K_BUFFERED@);
    if buffered.len() > 0 && live_bytes(context).len() > 0 {
        buffered + seq![' ']
    } else {
        buffered
    }
}

/// The preedit and its cursor with nothing highlighted, for any live input: the buffered
/// text, a space when shown live input follows it, and the live input as the lossy
/// decoding shows it. The cursor is at the caret (within the text); the prompt goes there
/// when the cursor falls on a character boundary of the text, and is left out otherwise.
pub open spec fn fallback_shown(context: Context) -> (Seq<char>, int) {
    let live = lossy_text(live_bytes(context));
    let buffered = property_text(context, K_BUFFERED@);
    let prefix = if buffered.len() > 0 && live.len() > 0 {
        buffered + seq![' ']
    } else {
        buffered
    };
    let bytes = encode_utf8(prefix + live);
    let sum = encode_utf8(prefix).len() + live_caret_of(context);
    let cursor = if sum < bytes.len() { sum } else { bytes.len() as int };
    let prompt = segment_prompt(context);
    if prompt.len() > 0 && is_char_boundary(bytes, cursor) {
        (decode_utf8(bytes.take(cursor)) + prompt + decode_utf8(bytes.skip(cursor)), cursor)
    } else {
        (prefix + live, cursor)
    }
}

/// The candidates of the menu: those of the last segment.
pub open spec fn menu_candidates(context: Context) -> Seq<Candidate> {
    match last_segment(context) {
        Some(segment) => segment.candidates@,
        None => Seq::empty(),
    }
}

/// The texts of candidates.
pub open spec fn candidate_texts(candidates: Seq<Candidate>) -> Seq<Seq<char>> {
    candidates.map_values(|candidate: Candidate| candidate.text@)
}

/// The comments of candidates.
pub open spec fn candidate_comments(candidates: Seq<Candidate>) -> Seq<Seq<char>> {
    candidates.map_values(|candidate: Candidate| candidate.comment@)
}

/// An update can be made: where the prompt goes into the live input, it goes at a
/// character boundary of it (the live input being well-formed).
pub open spec fn update_defined(context: Context) -> bool {
    (highlighted_preedit(context).len() == 0 && segment_prompt(context).len() > 0 && valid_utf8(
        live_bytes(context),
    )) ==> is_char_boundary(live_bytes(context), live_caret_of(context))
}

fn candidate_lists(candidates: &Vec<Candidate>) -> (lists: (Vec<String>, Vec<String>))
    ensures
        text_views(lists.0@) == candidate_texts(candidates@),
        text_views(lists.1@) == candidate_comments(candidates@),
{
    let mut texts: Vec<String> = Vec::new();
    let mut comments: Vec<String> = Vec::new();
    let mut i: usize = 0;
    while i < candidates.len()
        invariant
            i <= candidates@.len(),
            texts@.len() == i,
            comments@.len() == i,
            forall|j: int| 0 <= j < i ==> (#[trigger] texts@[j])@ == candidates@[j].text@,
            forall|j: int| 0 <= j < i ==> (#[trigger] comments@[j])@ == candidates@[j].comment@,
        decreases candidates.len() - i,
    {
        texts.push(to_owned_string(candidates[i].text.as_str()));
        comments.push(to_owned_string(candidates[i].comment.as_str()));
        i = i + 1;
    }
    assert(text_views(texts@) =~= candidate_texts(candidates@));
    assert(text_views(comments@) =~= candidate_comments(candidates@));
    (texts, comments)
}

/// A character boundary of `l` is one of `p + l`, shifted by `p`'s length.
proof fn lemma_boundary_after(p: Seq<u8>, l: Seq<u8>, c: int)
    requires
        valid_utf8(p),
        valid_utf8(l),
        is_char_boundary(l, c),
    ensures
        is_char_boundary(p + l, p.len() + c),
{
    lemma_boundary_at_join(p, l);
    if c == l.len() {
        vstd::utf8::is_char_boundary_start_end_of_seq(p + l);
    } else if c != 0 {
        vstd::utf8::is_char_boundary_iff_is_leading_byte(l, c);
        vstd::utf8::is_char_boundary_iff_is_leading_byte(p + l, p.len() + c);
        assert((p + l)[p.len() + c] == l[c]);
    }
}

/// The preedit around a highlighted candidate: its preedit, the prompt, then the live input
/// after the composed part; the cursor follows the candidate's preedit.
fn highlighted_text(
    context: &Context,
    highlighted: String,
    prompt: &str,
    live_input: &[u8],
    buffered: &str,
) -> (shown: (String, usize))
    requires
        live_input@ == live_bytes(*context),
        buffered@ == property_text(*context, K_BUFFERED@),
        highlighted@ == highlighted_preedit(*context),
        prompt@ == segment_prompt(*context),
    ensures
        shown.1 == encode_utf8(highlighted_preedit(*context)).len(),
        shown.0@ == highlighted_preedit(*context) + segment_prompt(*context) + lossy_text(
            live_bytes(*context).skip(composed_end(*context)),
        ),
        valid_utf8(live_bytes(*context).skip(composed_end(*context))) ==> shown.0@ == highlighted_preedit(*context)
            + segment_prompt(*context) + decode_utf8(live_bytes(*context).skip(composed_end(*context))),
{
    let cursor = highlighted.as_str().as_bytes().len();
    let input = context.input();
    let marker: usize = if !buffered.is_empty() && input.len() > 0 && input[0] == 0x7e {
        1
    } else {
        0
    };
    let end: usize = match context.composition.back() {
        Some(segment) => segment.end,
        None => 0,
    };
    let shifted = if end >= marker {
        end - marker
    } else {
        0
    };
    let composed = if shifted < live_input.len() {
        shifted
    } else {
        live_input.len()
    };
    let (_, tail) = live_input.split_at(composed);
    assert(tail@ =~= live_bytes(*context).skip(composed_end(*context)));
    let tail_text = string_from_utf8_lossy(tail);
    let mut text = highlighted;
    push_str(&mut text, prompt);
    push_str(&mut text, tail_text.as_str());
    proof {
        if valid_utf8(tail@) {
            vstd::utf8::encode_utf8_decode_utf8(tail_text@);
        }
    }
    (text, cursor)
}

/// The preedit when nothing is highlighted: the buffered text, a space when live input
/// follows it, and the live input with the prompt at the caret.
#[verifier::rlimit(40)]
fn fallback_text(context: &Context, buffered: &str, live_input: &[u8], live: &str, prompt: &str) -> (shown: (
    String,
    usize,
))
    requires
        context.wf(),
        update_defined(*context),
        highlighted_preedit(*context).len() == 0,
        live_input@ == live_bytes(*context),
        live@ == lossy_text(live_input@),
        valid_utf8(live_input@) ==> encode_utf8(live@) == live_input@,
        buffered@ == property_text(*context, K_BUFFERED@),
        prompt@ == segment_prompt(*context),
    ensures
        (shown.0@, shown.1 as int) == fallback_shown(*context),
        valid_utf8(live_bytes(*context)) ==> {
            let bytes = live_bytes(*context);
            let caret = live_caret_of(*context);
            &&& shown.1 == encode_utf8(fallback_prefix(*context)).len() + caret
            &&& segment_prompt(*context).len() == 0 ==> shown.0@ == fallback_prefix(*context) + decode_utf8(bytes)
            &&& segment_prompt(*context).len() > 0 ==> shown.0@ == fallback_prefix(*context) + decode_utf8(
                bytes.take(caret),
            ) + segment_prompt(*context) + decode_utf8(bytes.skip(caret))
        },
{
    let ghost bytes = live_input@;
    proof {
        if valid_utf8(bytes) {
            vstd::utf8::encode_utf8_decode_utf8(live@);
            if bytes.len() > 0 && live@.len() == 0 {
                assert(encode_utf8(live@) =~= Seq::<u8>::empty());
            }
        }
    }
    let mut text = String::new();
    push_str(&mut text, buffered);
    let live_nonempty = !live.is_empty();
    if !buffered.is_empty() && live_nonempty {
        push_char(&mut text, ' ');
    }
    let ghost prefix = text@;
    let prefix_length = text.as_str().as_bytes().len();
    push_str(&mut text, live);
    let caret = context.live_caret();
    let text_length = text.as_str().as_bytes().len();
    let cursor = match prefix_length.checked_add(caret) {
        Some(sum) => if sum < text_length {
            sum
        } else {
            text_length
        },
        None => text_length,
    };
    proof {
        let shown_prefix = if buffered@.len() > 0 && live@.len() > 0 {
            buffered@ + seq![' ']
        } else {
            buffered@
        };
        assert(prefix =~= shown_prefix);
        assert(text@ =~= shown_prefix + live@);
    }
    proof {
        if valid_utf8(bytes) {
            assert(prefix =~= fallback_prefix(*context));
            lemma_encode_concat(prefix, live@);
            assert(text@ =~= prefix + live@);
        }
    }
    if prompt.is_empty() {
        return (text, cursor);
    }
    proof {
        if valid_utf8(bytes) {
            vstd::utf8::encode_utf8_valid_utf8(prefix);
            lemma_boundary_after(encode_utf8(prefix), bytes, caret as int);
        }
    }
    if !text.as_str().is_char_boundary(cursor) {
        // Only malformed live input (decoded with replacement characters) can put the
        // caret inside a character here; the prompt is then left out.
        return (text, cursor);
    }
    let (head, rest) = text.as_str().split_at(cursor);
    let mut shown = String::new();
    push_str(&mut shown, head);
    push_str(&mut shown, prompt);
    push_str(&mut shown, rest);
    proof {
        vstd::utf8::encode_utf8_decode_utf8(head@);
        vstd::utf8::encode_utf8_decode_utf8(rest@);
    }
    proof {
        if valid_utf8(bytes) {
            let p = encode_utf8(prefix);
            let c = caret as int;
            vstd::utf8::encode_utf8_valid_utf8(prefix);
            vstd::utf8::valid_utf8_split(bytes, c);
            vstd::utf8::decode_utf8_split(bytes, c);
            assert(head.spec_bytes() =~= p + bytes.take(c));
            assert(rest.spec_bytes() =~= bytes.skip(c));
            lemma_boundary_at_join(p, bytes.take(c));
            vstd::utf8::decode_utf8_split(p + bytes.take(c), p.len() as int);
            assert((p + bytes.take(c)).subrange(0, p.len() as int) =~= p);
            assert((p + bytes.take(c)).subrange(p.len() as int, (p + bytes.take(c)).len() as int) =~= bytes.take(c));
            vstd::utf8::encode_utf8_decode_utf8(prefix);
            vstd::utf8::encode_utf8_decode_utf8(head@);
            vstd::utf8::encode_utf8_decode_utf8(rest@);
            assert(bytes.take(c) =~= bytes.subrange(0, c));
            assert(bytes.skip(c) =~= bytes.subrange(c, bytes.len() as int));
        }
    }
    (shown, cursor)
}

/// The update the platform is sent: the preedit with its cursor, and the menu of the last
/// segment with its highlighted index (no texts or comments while the menu is hidden).
///
/// The preedit is the highlighted candidate's preedit, the segment prompt, and the live
/// input after the composed part; with nothing highlighted it is the buffered text, a
/// space, and the live input with the prompt at the caret. While the character lookup is
/// showing (`char_lookup`) the preedit is empty.
pub fn host_update(context: &Context, char_lookup: bool) -> (update: HostUpdate)
    requires
        context.wf(),
        update_defined(*context),
    ensures
        update.selected == match last_segment(*context) {
            Some(segment) => segment.selected_index,
            None => 0,
        },
        option_value(context.options@, OPTION_HIDE_CANDIDATE@, false) ==> update.texts@.len() == 0
            && update.comments@.len() == 0,
        !option_value(context.options@, OPTION_HIDE_CANDIDATE@, false) ==> text_views(update.texts@)
            == candidate_texts(menu_candidates(*context)) && text_views(update.comments@) == candidate_comments(
            menu_candidates(*context),
        ),
        char_lookup ==> update.preedit@.len() == 0 && update.cursor == 0,
        !char_lookup && highlighted_preedit(*context).len() > 0 ==> {
            let tail = live_bytes(*context).skip(composed_end(*context));
            &&& update.cursor == encode_utf8(highlighted_preedit(*context)).len()
            &&& update.preedit@ == highlighted_preedit(*context) + segment_prompt(*context) + lossy_text(tail)
            &&& valid_utf8(tail) ==> update.preedit@ == highlighted_preedit(*context) + segment_prompt(*context)
                + decode_utf8(tail)
        },
        !char_lookup && highlighted_preedit(*context).len() == 0 ==> (update.preedit@, update.cursor as int)
            == fallback_shown(*context),
        !char_lookup && highlighted_preedit(*context).len() == 0 && valid_utf8(live_bytes(*context)) ==> {
            let live = live_bytes(*context);
            let caret = live_caret_of(*context);
            &&& update.cursor == encode_utf8(fallback_prefix(*context)).len() + caret
            &&& segment_prompt(*context).len() == 0 ==> update.preedit@ == fallback_prefix(*context) + decode_utf8(
                live,
            )
            &&& segment_prompt(*context).len() > 0 ==> update.preedit@ == fallback_prefix(*context) + decode_utf8(
                live.take(caret),
            ) + segment_prompt(*context) + decode_utf8(live.skip(caret))
        },
{
    let buffered = buffered_text(context);
    let live_input = context.live_input();
    let live = string_from_utf8_lossy(live_input);
    let back = context.composition.back();
    let highlighted = match back {
        Some(segment) => match segment.selected_candidate() {
            Some(candidate) => to_owned_string(candidate.preedit.as_str()),
            None => String::new(),
        },
        None => String::new(),
    };
    let prompt = match back {
        Some(segment) => to_owned_string(segment.prompt.as_str()),
        None => String::new(),
    };
    let mut preedit = String::new();
    let mut cursor: usize = 0;
    if !char_lookup {
        if !highlighted.as_str().is_empty() {
            let (text, at) = highlighted_text(context, highlighted, prompt.as_str(), live_input, buffered.as_str());
            preedit = text;
            cursor = at;
        } else {
            let (text, at) = fallback_text(context, buffered.as_str(), live_input, live.as_str(), prompt.as_str());
            preedit = text;
            cursor = at;
        }
    }
    let mut texts: Vec<String> = Vec::new();
    let mut comments: Vec<String> = Vec::new();
    let mut selected: usize = 0;
    match back {
        Some(segment) => {
            let (t, c) = candidate_lists(&segment.candidates);
            texts = t;
            comments = c;
            selected = segment.selected_index;
        },
        None => {},
    }
    if context.get_option(OPTION_HIDE_CANDIDATE) {
        texts = Vec::new();
        comments = Vec::new();
    }
    HostUpdate { preedit, cursor, texts, comments, selected }
}

} // verus!
