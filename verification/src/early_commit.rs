//! The automatic commit of an empty code: once the input before the last letter had a
//! single sure sentence candidate and the letter leaves no complete candidate, that
//! candidate is committed and the new letters stay in the composition.
//!
//! The candidate itself comes from the decoder's ranking; here are the decisions around it:
//! whether to look for one ([`empty_code_commit_begin`]), whether to commit it and how the
//! sentence state changes ([`empty_code_commit_step`]), and how the composition is put back
//! afterwards ([`empty_code_commit_finish`]).
//!
//! Early commits of a prefix rest on evidence gathered over several keys: whether one may
//! be attempted at all ([`early_commit_gate`]), how each round of evidence is booked
//! ([`evidence_round`], [`book_prefix`], [`advance_tracker`], [`tracker_after_gap`]),
//! which trackers may be committed ([`tracker_qualifies`]), and the commit of the one
//! chosen ([`commit_mature_prefix`], [`mature_prefix_commit_finish`]). The shares the decoder
//! gives each prefix are floating point and stay with the decoder; here a share is only
//! carried (as its bits) or tested by the caller.

use vstd::prelude::*;
use vstd::string::StrSliceExecFns;
use vstd::utf8::{encode_utf8, valid_utf8};
use crate::decode::{has_complete_candidate, spec_has_complete_candidate, DecodeLock};
use crate::interaction::{
    auto_commit_matches_visible_top, bytes_equal, composition_restored, input_caret, live_input,
    restore_composition_input, spec_input_caret, spec_state_live_input, starts_with, EarlyCommitParams,
    EmptyCodePending, EARLY_COMMIT_MAXIMUM_NEUTRAL_GAP, EARLY_COMMIT_REQUIRED_EVIDENCE,
    EARLY_COMMIT_REQUIRED_STRONG, EARLY_COMMIT_RETAINED_RAW_LENGTH, OPTION_EARLY_COMMIT,
};
use crate::lexicon::Lexicon;
use crate::session::{extend_range, lossy_text, option_value, string_from_utf8_lossy, Context};
use crate::state::{
    commits_to_preedit, committed_boundaries, early_submitted, model_state_synchronized, only_properties_changed,
    reset_early_evidence, saved_properties, submit_early, SentenceState, Tracker,
};
use crate::tables::{no_trackers, tracker_table_contents, TrackerTable};
use crate::text::{decimal_digits, push_char, push_decimal, push_str, str_eq, to_owned_string};

verus! {

/// What an empty-code commit did.
pub struct EmptyCodeCommit {
    /// The committed text: the candidate after the text committed before it.
    pub commit: String,
    /// The text still to be committed to the application (none when it went to the
    /// preedit).
    pub submitted: Option<String>,
    /// The whole candidate text.
    pub candidate_text: String,
    /// The length of the input the candidate covers.
    pub base_raw_length: usize,
    /// The input after the candidate, which stays in the composition.
    pub retained_raw: Vec<u8>,
}

/// How an empty-code commit step ends.
pub enum EmptyCodeOutcome {
    /// No commit, and the pending candidate is dropped.
    Dropped,
    /// No commit yet; the pending candidate is kept.
    Kept,
    /// The pending candidate is committed.
    Committed,
}

/// Whether an empty-code commit is looked for: early commits are on and not suspended.
pub open spec fn empty_code_enabled(context: Context, state: SentenceState) -> bool {
    option_value(context.options@, OPTION_EARLY_COMMIT@, false) && !state.suspended
}

/// The pending candidate in play: the one the state keeps, else the one just captured.
pub open spec fn pending_in_play(
    kept: Option<EmptyCodePending>,
    captured: Option<EmptyCodePending>,
) -> Option<EmptyCodePending> {
    match kept {
        Some(pending) => Some(pending),
        None => captured,
    }
}

/// A pending candidate whose text begins with the text committed before it.
pub open spec fn pending_wf(pending: Option<EmptyCodePending>) -> bool {
    match pending {
        Some(p) => {
            &&& p.committed_text@.len() <= p.candidate_text@.len()
            &&& p.candidate_text@.take(p.committed_text@.len() as int) == p.committed_text@
            &&& encode_utf8(p.candidate_text@).len() < usize::MAX
        },
        None => true,
    }
}

/// The whole input: the committed raw input followed by the live input.
pub open spec fn full_input(context: Context, state: SentenceState) -> Seq<u8> {
    encode_utf8(state.committed_raw@) + spec_state_live_input(context)
}

/// The innermost lock's raw input and text, as bytes.
pub open spec fn active_lock_bytes(state: SentenceState) -> Option<(Seq<u8>, Seq<u8>)> {
    if state.locks@.len() > 0 {
        Some((encode_utf8(state.locks@.last().raw@), encode_utf8(state.locks@.last().text@)))
    } else {
        None
    }
}

/// The bytes of the lossy decoding of `bytes`.
pub open spec fn lossy_bytes(bytes: Seq<u8>) -> Seq<u8> {
    encode_utf8(lossy_text(bytes))
}

/// How a step ends. The input must be the input before the letter followed by the letter,
/// with the caret at its end, and a candidate must be pending; the whole input must have
/// no complete candidate of its own; the candidate must still extend the committed text and
/// lie within the input. While the input from the candidate's last segment on is still a
/// proper prefix of a code, or fewer bytes than the minimum would stay, the candidate is
/// kept for a later letter. A candidate that had to be the only one must still be: no other
/// complete candidate of the input before the letter extends the committed text.
pub open spec fn spec_empty_code_outcome(
    lexicon: Lexicon,
    context: Context,
    state: SentenceState,
    full_before: Seq<u8>,
    appended: Seq<u8>,
    captured: Option<EmptyCodePending>,
    params: EarlyCommitParams,
) -> EmptyCodeOutcome {
    let full = full_input(context, state);
    let lock = active_lock_bytes(state);
    if full != full_before + appended || spec_input_caret(context) != spec_state_live_input(context).len() {
        EmptyCodeOutcome::Dropped
    } else {
        match pending_in_play(state.empty_code_pending, captured) {
            None => EmptyCodeOutcome::Dropped,
            Some(p) => {
                if spec_has_complete_candidate(
                lexicon,
                lossy_bytes(full),
                encode_utf8(state.committed_text@),
                None,
                false,
                params.allow_duplicate_single,
                lock,
            ) {
                EmptyCodeOutcome::Dropped
            } else if p.committed_text@ != state.committed_text@ || p.base_raw_length >= full.len()
                || p.last_segment_start >= full.len() {
                EmptyCodeOutcome::Dropped
            } else if lexicon.proper_code_prefixes().contains(lossy_bytes(full.skip(p.last_segment_start as int))) {
                EmptyCodeOutcome::Kept
            } else if params.min_retained > 0 && full.len() - p.base_raw_length < params.min_retained {
                EmptyCodeOutcome::Kept
            } else if p.requires_uniqueness_check && spec_has_complete_candidate(
                lexicon,
                lossy_bytes(full.take(p.base_raw_length as int)),
                encode_utf8(p.committed_text@),
                Some(encode_utf8(p.candidate_text@)),
                true,
                params.allow_duplicate_single,
                lock,
            ) {
                EmptyCodeOutcome::Dropped
            } else {
                EmptyCodeOutcome::Committed
            }
            },
        }
    }
}

/// `post` is `pre` after candidate `p` is committed over the first `p.base_raw_length`
/// bytes of `full`, and the committed text `commit` is submitted: the candidate becomes the
/// committed text and that input the committed raw input, the evidence is dropped, and the
/// state marks the continuation after an automatic commit. Into the preedit, `commit` is
/// appended to the buffered text, the locks become the single lock over the new committed
/// prefix and the state is saved; otherwise `commit` is handed back and the context is
/// left as it was.
pub open spec fn auto_committed(
    pre_context: Context,
    pre: SentenceState,
    p: EmptyCodePending,
    full: Seq<u8>,
    commit: Seq<char>,
    submitted: Option<String>,
    post_context: Context,
    post: SentenceState,
) -> bool {
    let raw = lossy_text(full.take(p.base_raw_length as int));
    &&& post.committed_text == p.candidate_text
    &&& post.committed_raw@ == raw
    &&& valid_utf8(full.take(p.base_raw_length as int)) ==> encode_utf8(post.committed_raw@) == full.take(
        p.base_raw_length as int,
    )
    &&& post.last_auto_commit_raw_length == p.base_raw_length
    &&& tracker_table_contents(post.trackers) == no_trackers()
    &&& post.last_seen_raw@.len() == 0
    &&& !post.suspended
    &&& post.empty_code_pending is None
    &&& post.continuation_after_auto_commit
    &&& post.tab_pending == pre.tab_pending
    &&& post.model_generation == pre.model_generation
    &&& if commits_to_preedit(pre_context, pre) {
        &&& submitted is None
        &&& post.buffered_text@ == pre.buffered_text@ + commit
        &&& post.locks@.len() == 1
        &&& post.locks@[0].raw@ == raw
        &&& post.locks@[0].text@ == p.candidate_text@
        &&& post.locks@[0].boundaries@ == committed_boundaries(raw, p.candidate_text@)
        &&& post.legacy_cleared
        &&& post_context.properties@ == saved_properties(
            pre_context.properties@,
            post.buffered_text@,
            post.locks@,
            raw,
            p.candidate_text@,
            pre.legacy_cleared,
        )
        &&& only_properties_changed(pre_context, post_context)
    } else {
        &&& submitted matches Some(text) && text@ == commit
        &&& post.buffered_text == pre.buffered_text
        &&& post.locks == pre.locks
        &&& post.legacy_cleared == pre.legacy_cleared
        &&& post_context == pre_context
    }
}

/// Whether to look for an empty-code commit. With early commits off or suspended, the
/// pending candidate is dropped and nothing is looked for; otherwise the state is brought
/// to model `generation`, and a new generation ends the look.
pub fn empty_code_commit_begin(context: &Context, state: &mut SentenceState, generation: u64) -> (proceed: bool)
    ensures
        !empty_code_enabled(*context, *old(state)) ==> !proceed && *final(state) == (SentenceState {
            empty_code_pending: None,
            ..*old(state)
        }),
        empty_code_enabled(*context, *old(state)) ==> proceed == (old(state).model_generation == generation)
            && model_state_synchronized(*old(state), *final(state), generation),
{
    if !context.get_option(OPTION_EARLY_COMMIT) || state.suspended {
        state.empty_code_pending = None;
        return false;
    }
    !state.synchronize_model_state(generation)
}

/// Decides on the pending candidate (the one the state keeps, else `captured`) after the
/// letter `appended` was typed on the input `full_before`, and commits it where
/// [`spec_empty_code_outcome`] says so, as [`auto_committed`] says.
pub fn empty_code_commit_step(
    lexicon: &Lexicon,
    context: &mut Context,
    state: &mut SentenceState,
    full_before: &[u8],
    appended: &[u8],
    captured: Option<EmptyCodePending>,
    params: EarlyCommitParams,
) -> (committed: Option<EmptyCodeCommit>)
    requires
        lexicon.wf(),
        pending_wf(old(state).empty_code_pending),
        pending_wf(captured),
    ensures
        ({
            let pre = *old(state);
            let pending = pending_in_play(pre.empty_code_pending, captured);
            let full = full_input(*old(context), pre);
            match spec_empty_code_outcome(*lexicon, *old(context), pre, full_before@, appended@, captured, params) {
                EmptyCodeOutcome::Dropped => {
                    &&& committed is None
                    &&& *final(state) == (SentenceState { empty_code_pending: None, ..pre })
                    &&& *final(context) == *old(context)
                },
                EmptyCodeOutcome::Kept => {
                    &&& committed is None
                    &&& *final(state) == (SentenceState { empty_code_pending: pending, ..pre })
                    &&& *final(context) == *old(context)
                },
                EmptyCodeOutcome::Committed => {
                    let p = pending.unwrap();
                    &&& committed matches Some(c) && {
                        &&& c.commit@ == p.candidate_text@.skip(p.committed_text@.len() as int)
                        &&& c.candidate_text@ == p.candidate_text@
                        &&& c.base_raw_length == p.base_raw_length
                        &&& c.retained_raw@ == full.skip(p.base_raw_length as int)
                        &&& auto_committed(
                            *old(context),
                            pre,
                            p,
                            full,
                            c.commit@,
                            c.submitted,
                            *final(context),
                            *final(state),
                        )
                    }
                },
            }
        }),
{
    let ghost pre = *state;
    let ghost pre_context = *context;
    let pending = match state.empty_code_pending.take() {
        Some(kept) => Some(kept),
        None => captured,
    };
    let mut full_raw: Vec<u8> = Vec::new();
    let committed_raw = state.committed_raw.as_str().as_bytes();
    extend_range(&mut full_raw, committed_raw, 0, committed_raw.len());
    let live = live_input(context);
    extend_range(&mut full_raw, live.as_slice(), 0, live.len());
    let mut expected: Vec<u8> = Vec::new();
    extend_range(&mut expected, full_before, 0, full_before.len());
    extend_range(&mut expected, appended, 0, appended.len());
    proof {
        assert(committed_raw@.subrange(0, committed_raw@.len() as int) =~= committed_raw@);
        assert(live@.subrange(0, live@.len() as int) =~= live@);
        assert(full_before@.subrange(0, full_before@.len() as int) =~= full_before@);
        assert(appended@.subrange(0, appended@.len() as int) =~= appended@);
        assert(full_raw@ =~= full_input(pre_context, pre));
        assert(expected@ =~= full_before@ + appended@);
    }
    if !bytes_equal(full_raw.as_slice(), expected.as_slice()) || input_caret(context) != live.len() {
        return None;
    }
    state.empty_code_pending = pending;
    let lock = match state.locks.as_slice().last() {
        Some(active) => Some(
            DecodeLock { raw: active.raw.as_str(), text: active.text.as_str(), boundaries: active.boundaries.as_str() },
        ),
        None => None,
    };
    let p = match &state.empty_code_pending {
        Some(p) => p,
        None => {
            return None;
        },
    };
    let raw = string_from_utf8_lossy(full_raw.as_slice());
    if has_complete_candidate(
        lexicon,
        raw.as_str(),
        state.committed_text.as_str(),
        None,
        false,
        params.allow_duplicate_single,
        lock.as_ref(),
    ) {
        state.empty_code_pending = None;
        return None;
    }
    if !str_eq(p.committed_text.as_str(), state.committed_text.as_str()) || p.base_raw_length >= full_raw.len()
        || p.last_segment_start >= full_raw.len() {
        state.empty_code_pending = None;
        return None;
    }
    let (_, segment) = full_raw.as_slice().split_at(p.last_segment_start);
    let extended = string_from_utf8_lossy(segment);
    proof {
        assert(segment@ =~= full_raw@.skip(p.last_segment_start as int));
    }
    if lexicon.is_proper_code_prefix(extended.as_str().as_bytes()) {
        return None;
    }
    if params.min_retained > 0 && full_raw.len() - p.base_raw_length < params.min_retained {
        return None;
    }
    let (head, rest) = full_raw.as_slice().split_at(p.base_raw_length);
    let head_text = string_from_utf8_lossy(head);
    proof {
        assert(head@ =~= full_raw@.take(p.base_raw_length as int));
        assert(rest@ =~= full_raw@.skip(p.base_raw_length as int));
    }
    if p.requires_uniqueness_check && has_complete_candidate(
        lexicon,
        head_text.as_str(),
        p.committed_text.as_str(),
        Some(p.candidate_text.as_str()),
        true,
        params.allow_duplicate_single,
        lock.as_ref(),
    ) {
        state.empty_code_pending = None;
        return None;
    }
    let mut retained_raw: Vec<u8> = Vec::new();
    extend_range(&mut retained_raw, rest, 0, rest.len());
    proof {
        assert(rest@.subrange(0, rest@.len() as int) =~= rest@);
    }
    let taken = state.empty_code_pending.take();
    let p = match taken {
        Some(p) => p,
        None => {
            return None;
        },
    };
    let from = p.committed_text.as_str().unicode_len();
    let to = p.candidate_text.as_str().unicode_len();
    let commit = to_owned_string(p.candidate_text.as_str().substring_char(from, to));
    let candidate_text = to_owned_string(p.candidate_text.as_str());
    let base_raw_length = p.base_raw_length;
    state.committed_text = p.candidate_text;
    state.committed_raw = head_text;
    state.last_auto_commit_raw_length = base_raw_length;
    state.trackers.clear();
    state.last_seen_raw = String::new();
    state.suspended = false;
    state.continuation_after_auto_commit = true;
    let submitted = submit_early(context, state, commit.as_str());
    Some(EmptyCodeCommit { commit, submitted, candidate_text, base_raw_length, retained_raw })
}

/// Nothing typed is lost by an empty-code commit: the new committed raw input followed by
/// the retained input is the whole input, whenever the committed part is well-formed UTF-8.
pub proof fn law_empty_code_commit_keeps_the_input(
    pre_context: Context,
    pre: SentenceState,
    p: EmptyCodePending,
    full: Seq<u8>,
    commit: Seq<char>,
    submitted: Option<String>,
    post_context: Context,
    post: SentenceState,
)
    requires
        p.base_raw_length < full.len(),
        valid_utf8(full.take(p.base_raw_length as int)),
        auto_committed(pre_context, pre, p, full, commit, submitted, post_context, post),
    ensures
        encode_utf8(post.committed_raw@) + full.skip(p.base_raw_length as int) == full,
{
    assert(full.take(p.base_raw_length as int) + full.skip(p.base_raw_length as int) =~= full);
}

/// The text ends with an ASCII digit.
pub open spec fn ends_with_digit(text: Seq<char>) -> bool {
    text.len() > 0 && '0' <= text.last() <= '9'
}

/// After a commit (and whatever the application did with the submitted text): saves the
/// state to the context and puts the retained input back as the composition. Returns
/// whether the committed text ends with a digit, after which a dot stays a decimal point.
pub fn empty_code_commit_finish(context: &mut Context, state: &mut SentenceState, committed: &EmptyCodeCommit) -> (arm_dot: bool)
    ensures
        arm_dot == ends_with_digit(committed.commit@),
        *final(state) == (SentenceState { legacy_cleared: true, ..*old(state) }),
        exists|saved: Context|
            {
                &&& saved.properties@ == saved_properties(
                    old(context).properties@,
                    old(state).buffered_text@,
                    old(state).locks@,
                    old(state).committed_raw@,
                    old(state).committed_text@,
                    old(state).legacy_cleared,
                )
                &&& only_properties_changed(*old(context), saved)
                &&& #[trigger] composition_restored(saved, *final(context), committed.retained_raw@)
            },
{
    let length = committed.commit.as_str().unicode_len();
    let arm_dot = if length > 0 {
        let last = committed.commit.as_str().get_char(length - 1);
        '0' <= last && last <= '9'
    } else {
        false
    };
    state.save(context);
    let ghost saved = *context;
    restore_composition_input(context, committed.retained_raw.as_slice());
    assert(composition_restored(saved, *context, committed.retained_raw@));
    arm_dot
}

// ---------------------------------------------------------------- evidence

/// An early commit may be attempted: the caret is at the end of the live input, early
/// commits are on and not suspended, and the whole input is longer than four bytes.
pub open spec fn early_commit_open(context: Context, state: SentenceState) -> bool {
    &&& spec_input_caret(context) == spec_state_live_input(context).len()
    &&& empty_code_enabled(context, state)
    &&& full_input(context, state).len() > 4
}

/// Whether an early commit may be attempted (see [`early_commit_open`]); if so, the whole
/// input the evidence is gathered on, and the state is left as it is; if not, the evidence
/// is dropped.
pub fn early_commit_gate(context: &Context, state: &mut SentenceState) -> (evidence_raw: Option<Vec<u8>>)
    ensures
        early_commit_open(*context, *old(state)) ==> {
            &&& evidence_raw matches Some(raw) && raw@ == full_input(*context, *old(state))
            &&& *final(state) == *old(state)
        },
        !early_commit_open(*context, *old(state)) ==> {
            &&& evidence_raw is None
            &&& *final(state) == (SentenceState {
                trackers: final(state).trackers,
                last_seen_raw: final(state).last_seen_raw,
                ..*old(state)
            })
            &&& tracker_table_contents(final(state).trackers) == no_trackers()
            &&& final(state).last_seen_raw@.len() == 0
        },
{
    let live = live_input(context);
    if input_caret(context) != live.len() || !context.get_option(OPTION_EARLY_COMMIT) || state.suspended {
        reset_early_evidence(state);
        return None;
    }
    let mut full_raw: Vec<u8> = Vec::new();
    let committed_raw = state.committed_raw.as_str().as_bytes();
    extend_range(&mut full_raw, committed_raw, 0, committed_raw.len());
    extend_range(&mut full_raw, live.as_slice(), 0, live.len());
    proof {
        assert(committed_raw@.subrange(0, committed_raw@.len() as int) =~= committed_raw@);
        assert(live@.subrange(0, live@.len() as int) =~= live@);
        assert(full_raw@ =~= full_input(*context, *old(state)));
    }
    if full_raw.len() <= 4 {
        reset_early_evidence(state);
        return None;
    }
    Some(full_raw)
}

/// The evidence input `raw` (of `evidence_length` bytes) carries on the evidence of the
/// last seen input: none was seen yet, or it is the last seen input with one more byte.
pub open spec fn extends_last_seen(last_seen: Seq<char>, raw: Seq<char>, evidence_length: usize) -> bool {
    last_seen.len() == 0 || (evidence_length == encode_utf8(last_seen).len() + 1 && last_seen.is_prefix_of(raw))
}

/// Books a round of evidence on the input `raw` (of `evidence_length` bytes). When `raw`
/// is the input last seen, nothing changes and only the mature prefixes are to be looked
/// at (`true`). Otherwise `raw` becomes the last seen input, and the trackers are dropped
/// unless `raw` carries on their evidence.
pub fn evidence_round(state: &mut SentenceState, raw: &str, evidence_length: usize) -> (same: bool)
    ensures
        old(state).last_seen_raw@ == raw@ ==> same && *final(state) == *old(state),
        old(state).last_seen_raw@ != raw@ ==> {
            &&& !same
            &&& *final(state) == (SentenceState {
                trackers: final(state).trackers,
                last_seen_raw: final(state).last_seen_raw,
                ..*old(state)
            })
            &&& final(state).last_seen_raw@ == raw@
            &&& extends_last_seen(old(state).last_seen_raw@, raw@, evidence_length) ==> final(state).trackers
                == old(state).trackers
            &&& !extends_last_seen(old(state).last_seen_raw@, raw@, evidence_length) ==> tracker_table_contents(
                final(state).trackers,
            ) == no_trackers()
        },
{
    if str_eq(state.last_seen_raw.as_str(), raw) {
        return true;
    }
    let last_seen = state.last_seen_raw.as_str();
    let extends = last_seen.is_empty() || (evidence_length >= 1 && evidence_length - 1 == last_seen.as_bytes().len()
        && starts_with(raw, last_seen));
    if !extends {
        state.trackers.clear();
    }
    state.last_seen_raw = to_owned_string(raw);
    false
}

/// A tracker after one more round of evidence for its prefix: the evidence is counted up
/// to what a commit needs, the strong evidence likewise while the round is `strong` (it
/// starts over otherwise), no round is missing, and the round's share is kept.
pub fn advance_tracker(tracker: Tracker, strong: bool, share_bits: u64) -> (next: Tracker)
    ensures
        next == (Tracker {
            evidence_count: if tracker.evidence_count >= EARLY_COMMIT_REQUIRED_EVIDENCE {
                EARLY_COMMIT_REQUIRED_EVIDENCE
            } else {
                (tracker.evidence_count + 1) as usize
            },
            strong_count: if !strong {
                0
            } else if tracker.strong_count >= EARLY_COMMIT_REQUIRED_STRONG {
                EARLY_COMMIT_REQUIRED_STRONG
            } else {
                (tracker.strong_count + 1) as usize
            },
            gap_count: 0,
            last_share_bits: share_bits,
            ..tracker
        }),
{
    let evidence_count = if tracker.evidence_count >= EARLY_COMMIT_REQUIRED_EVIDENCE {
        EARLY_COMMIT_REQUIRED_EVIDENCE
    } else {
        tracker.evidence_count + 1
    };
    let strong_count = if !strong {
        0
    } else if tracker.strong_count >= EARLY_COMMIT_REQUIRED_STRONG {
        EARLY_COMMIT_REQUIRED_STRONG
    } else {
        tracker.strong_count + 1
    };
    Tracker { evidence_count, strong_count, gap_count: 0, last_share_bits: share_bits, ..tracker }
}

/// A tracker after a round that neither confirms nor contradicts its prefix: one more
/// missing round, kept (with the round's share) while no more than the allowed number are
/// missing, dropped otherwise.
pub fn tracker_after_gap(tracker: Tracker, share_bits: u64) -> (next: Option<Tracker>)
    ensures
        tracker.gap_count >= EARLY_COMMIT_MAXIMUM_NEUTRAL_GAP ==> next is None,
        tracker.gap_count < EARLY_COMMIT_MAXIMUM_NEUTRAL_GAP ==> next == Some(
            (Tracker { gap_count: (tracker.gap_count + 1) as usize, last_share_bits: share_bits, ..tracker }),
        ),
{
    if tracker.gap_count >= EARLY_COMMIT_MAXIMUM_NEUTRAL_GAP {
        return None;
    }
    let gap_count = tracker.gap_count + 1;
    Some(Tracker { gap_count, last_share_bits: share_bits, ..tracker })
}

/// The fields of a tracker, its text taken as characters.
pub open spec fn tracker_fields(tracker: Tracker) -> (Seq<char>, usize, usize, usize, usize, usize, u64) {
    (
        tracker.text@,
        tracker.text_char_count,
        tracker.raw_length,
        tracker.evidence_count,
        tracker.strong_count,
        tracker.gap_count,
        tracker.last_share_bits,
    )
}

/// The fields of a tracker after one more round of evidence (see [`advance_tracker`]).
pub open spec fn advanced_fields(
    fields: (Seq<char>, usize, usize, usize, usize, usize, u64),
    strong: bool,
    share_bits: u64,
) -> (Seq<char>, usize, usize, usize, usize, usize, u64) {
    (
        fields.0,
        fields.1,
        fields.2,
        if fields.3 >= EARLY_COMMIT_REQUIRED_EVIDENCE { EARLY_COMMIT_REQUIRED_EVIDENCE } else { (fields.3 + 1) as usize },
        if !strong {
            0
        } else if fields.4 >= EARLY_COMMIT_REQUIRED_STRONG {
            EARLY_COMMIT_REQUIRED_STRONG
        } else {
            (fields.4 + 1) as usize
        },
        0,
        share_bits,
    )
}

/// The key of a tracker: its text, the unit separator U+001F, and its input length in
/// decimal.
pub open spec fn spec_tracker_key(text: Seq<char>, raw_length: usize) -> Seq<char> {
    text + seq!['\u{1f}'] + decimal_digits(raw_length as nat)
}

/// The key of the tracker of the prefix `text` over `raw_length` bytes of input.
pub fn tracker_key(text: &str, raw_length: usize) -> (key: String)
    ensures
        key@ == spec_tracker_key(text@, raw_length),
{
    let mut key = String::new();
    push_str(&mut key, text);
    push_char(&mut key, '\u{1f}');
    push_decimal(&mut key, raw_length as u64);
    assert(key@ =~= spec_tracker_key(text@, raw_length));
    key
}

/// Books a round of evidence for the prefix `text` (of `text_char_count` characters) over
/// `raw_length` bytes of input into the trackers `next` of this round: the prefix's tracker
/// of the last round, or a new one with no evidence yet, advanced by the round (see
/// [`advance_tracker`]) and stored under the prefix's key.
pub fn book_prefix(
    previous: &TrackerTable,
    next: &mut TrackerTable,
    text: &str,
    text_char_count: usize,
    raw_length: usize,
    strong: bool,
    share_bits: u64,
)
    ensures
        ({
            let key = spec_tracker_key(text@, raw_length);
            let before = tracker_table_contents(*previous);
            let base = if before.contains_key(key) {
                tracker_fields(before[key])
            } else {
                (text@, text_char_count, raw_length, 0usize, 0usize, 0usize, 0u64)
            };
            let after = tracker_table_contents(*final(next));
            &&& after == tracker_table_contents(*old(next)).insert(key, after[key])
            &&& tracker_fields(after[key]) == advanced_fields(base, strong, share_bits)
        }),
{
    let key = tracker_key(text, raw_length);
    let base = match previous.get(key.as_str()) {
        Some(tracker) => Tracker {
            text: to_owned_string(tracker.text.as_str()),
            text_char_count: tracker.text_char_count,
            raw_length: tracker.raw_length,
            evidence_count: tracker.evidence_count,
            strong_count: tracker.strong_count,
            gap_count: tracker.gap_count,
            last_share_bits: tracker.last_share_bits,
        },
        None => Tracker {
            text: to_owned_string(text),
            text_char_count,
            raw_length,
            evidence_count: 0,
            strong_count: 0,
            gap_count: 0,
            last_share_bits: 0,
        },
    };
    let advanced = advance_tracker(base, strong, share_bits);
    let ghost key_view = key@;
    next.insert(key, advanced);
    assert(tracker_table_contents(*next)[key_view] == advanced);
}

// ---------------------------------------------------------------- mature prefixes

/// The input an early commit of a mature prefix must leave: at least the default, and at
/// least the configured minimum when one is set.
pub open spec fn spec_mature_retain(min_retained: usize) -> usize {
    if min_retained > 0 && min_retained > EARLY_COMMIT_RETAINED_RAW_LENGTH {
        min_retained
    } else {
        EARLY_COMMIT_RETAINED_RAW_LENGTH
    }
}

/// The input an early commit of a mature prefix must leave.
pub fn mature_retain(min_retained: usize) -> (retain: usize)
    ensures
        retain == spec_mature_retain(min_retained),
{
    if min_retained > 0 && min_retained > EARLY_COMMIT_RETAINED_RAW_LENGTH {
        min_retained
    } else {
        EARLY_COMMIT_RETAINED_RAW_LENGTH
    }
}

/// A tracker may be committed: its evidence (or strong evidence) is complete, its prefix
/// goes beyond the committed input and text and extends the committed text, leaves at
/// least `retain` bytes of the evidence input, and agrees with the displayed top candidate.
pub open spec fn spec_tracker_qualifies(
    state: SentenceState,
    tracker: Tracker,
    evidence_length: usize,
    retain: usize,
    visible_top: Option<Seq<char>>,
) -> bool {
    &&& (tracker.evidence_count >= EARLY_COMMIT_REQUIRED_EVIDENCE || tracker.strong_count
        >= EARLY_COMMIT_REQUIRED_STRONG)
    &&& tracker.raw_length > encode_utf8(state.committed_raw@).len()
    &&& tracker.raw_length <= evidence_length
    &&& evidence_length - tracker.raw_length >= retain
    &&& encode_utf8(tracker.text@).len() > encode_utf8(state.committed_text@).len()
    &&& state.committed_text@.is_prefix_of(tracker.text@)
    &&& match visible_top {
        None => true,
        Some(top) => tracker.text@.is_prefix_of(top),
    }
}

/// Whether `tracker` may be committed (see [`spec_tracker_qualifies`]).
pub fn tracker_qualifies(
    state: &SentenceState,
    tracker: &Tracker,
    evidence_length: usize,
    retain: usize,
    visible_top: Option<&str>,
) -> (qualifies: bool)
    ensures
        qualifies == spec_tracker_qualifies(
            *state,
            *tracker,
            evidence_length,
            retain,
            match visible_top {
                Some(top) => Some(top@),
                None => None,
            },
        ),
{
    (tracker.evidence_count >= EARLY_COMMIT_REQUIRED_EVIDENCE || tracker.strong_count >= EARLY_COMMIT_REQUIRED_STRONG)
        && tracker.raw_length > state.committed_raw.as_str().as_bytes().len()
        && tracker.raw_length <= evidence_length
        && evidence_length - tracker.raw_length >= retain
        && tracker.text.as_str().as_bytes().len() > state.committed_text.as_str().as_bytes().len()
        && starts_with(tracker.text.as_str(), state.committed_text.as_str())
        && auto_commit_matches_visible_top(visible_top, tracker.text.as_str())
}

/// What the commit of a mature prefix did.
pub struct MatureCommit {
    /// The committed text: the prefix after the text committed before it.
    pub commit: String,
    /// The text still to be committed to the application (none when it went to the
    /// preedit).
    pub submitted: Option<String>,
    /// The input after the prefix, which stays in the composition.
    pub retained_raw: Vec<u8>,
}

/// Commits the prefix `selected_text` over the first `selected_raw_length` bytes of the
/// evidence input, unless less than the default retained input came in since the last
/// automatic commit or the prefix adds no text. The prefix becomes the committed text and
/// that input the committed raw input, the evidence is dropped, the state is saved, and
/// the new text is submitted (see [`submit_early`]).
pub fn commit_mature_prefix(
    context: &mut Context,
    state: &mut SentenceState,
    evidence_raw: &[u8],
    selected_text: &str,
    selected_raw_length: usize,
) -> (committed: Option<MatureCommit>)
    requires
        selected_raw_length <= evidence_raw@.len(),
        old(state).last_auto_commit_raw_length <= evidence_raw@.len(),
        old(state).committed_text@.is_prefix_of(selected_text@),
    ensures
        ({
            let pre = *old(state);
            let commit = selected_text@.skip(pre.committed_text@.len() as int);
            if evidence_raw@.len() - pre.last_auto_commit_raw_length < EARLY_COMMIT_RETAINED_RAW_LENGTH
                || commit.len() == 0 {
                &&& committed is None
                &&& *final(state) == pre
                &&& *final(context) == *old(context)
            } else {
                committed matches Some(c) && {
                    let raw = lossy_text(evidence_raw@.take(selected_raw_length as int));
                    &&& c.commit@ == commit
                    &&& c.retained_raw@ == evidence_raw@.skip(selected_raw_length as int)
                    &&& final(state).committed_text@ == selected_text@
                    &&& final(state).committed_raw@ == raw
                    &&& final(state).last_auto_commit_raw_length == selected_raw_length
                    &&& !final(state).continuation_after_auto_commit
                    &&& tracker_table_contents(final(state).trackers) == no_trackers()
                    &&& final(state).last_seen_raw@.len() == 0
                    &&& final(state).suspended == pre.suspended
                    &&& final(state).empty_code_pending == pre.empty_code_pending
                    &&& final(state).tab_pending == pre.tab_pending
                    &&& final(state).model_generation == pre.model_generation
                    &&& final(state).legacy_cleared
                    &&& exists|saved_context: Context, saved: SentenceState|
                        {
                            &&& saved_context.properties@ == saved_properties(
                                old(context).properties@,
                                pre.buffered_text@,
                                pre.locks@,
                                raw,
                                selected_text@,
                                pre.legacy_cleared,
                            )
                            &&& only_properties_changed(*old(context), saved_context)
                            &&& saved.buffered_text == pre.buffered_text
                            &&& saved.locks == pre.locks
                            &&& saved.committed_text@ == selected_text@
                            &&& saved.committed_raw@ == raw
                            &&& #[trigger] early_submitted(
                                saved_context,
                                saved,
                                commit,
                                c.submitted,
                                *final(context),
                                *final(state),
                            )
                        }
                }
            }
        }),
{
    let ghost pre = *state;
    if evidence_raw.len() - state.last_auto_commit_raw_length < EARLY_COMMIT_RETAINED_RAW_LENGTH {
        return None;
    }
    let from = state.committed_text.as_str().unicode_len();
    let to = selected_text.unicode_len();
    let commit = to_owned_string(selected_text.substring_char(from, to));
    if commit.as_str().is_empty() {
        return None;
    }
    let (head, rest) = evidence_raw.split_at(selected_raw_length);
    let mut retained_raw: Vec<u8> = Vec::new();
    extend_range(&mut retained_raw, rest, 0, rest.len());
    proof {
        assert(head@ =~= evidence_raw@.take(selected_raw_length as int));
        assert(rest@ =~= evidence_raw@.skip(selected_raw_length as int));
        assert(rest@.subrange(0, rest@.len() as int) =~= rest@);
    }
    state.committed_text = to_owned_string(selected_text);
    state.committed_raw = string_from_utf8_lossy(head);
    state.last_auto_commit_raw_length = selected_raw_length;
    state.continuation_after_auto_commit = false;
    reset_early_evidence(state);
    state.save(context);
    let ghost saved_context = *context;
    let ghost saved = *state;
    let submitted = submit_early(context, state, commit.as_str());
    assert(early_submitted(saved_context, saved, commit@, submitted, *context, *state));
    Some(MatureCommit { commit, submitted, retained_raw })
}

/// After the commit of a mature prefix (and whatever the application did with the
/// submitted text): puts the retained input back as the composition. Returns whether the
/// committed text ends with a digit, after which a dot stays a decimal point.
pub fn mature_prefix_commit_finish(context: &mut Context, committed: &MatureCommit) -> (arm_dot: bool)
    ensures
        arm_dot == ends_with_digit(committed.commit@),
        composition_restored(*old(context), *final(context), committed.retained_raw@),
{
    let length = committed.commit.as_str().unicode_len();
    let arm_dot = if length > 0 {
        let last = committed.commit.as_str().get_char(length - 1);
        '0' <= last && last <= '9'
    } else {
        false
    };
    restore_composition_input(context, committed.retained_raw.as_slice());
    arm_dot
}

} // verus!
