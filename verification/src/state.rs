//! The sentence session state kept between keys: the committed prefix, the buffered text,
//! the locks and the transient evidence, kept in step with the context's properties.

use vstd::prelude::*;
use vstd::utf8::encode_utf8;
use crate::interaction::{
    law_committed_property_roundtrip, law_locks_roundtrip, lock_fields_from, lock_views, locks_of_fields,
    parse_committed_property, property_or_empty, property_text, read_locks, save_locks, spec_committed_property,
    spec_lock_frame, EmptyCodePending, Lock, K_BUFFERED, K_COMMITTED, K_LOCKS, OPTION_EARLY_COMMIT_TO_PREEDIT,
};
use crate::session::{option_value, property_written, set_property_if_changed, Context};
use crate::tables::{no_trackers, tracker_table_contents, TrackerTable};
use crate::text::{decimal_digits, push_char, push_decimal, push_str, to_owned_string};

verus! {

/// Former property of the committed raw input (before [`K_COMMITTED`] held both halves).
pub const K_COMMITTED_RAW_LEGACY: &'static str = "tiger_sentence_committed_raw";
/// Former property of the committed text.
pub const K_COMMITTED_TEXT_LEGACY: &'static str = "tiger_sentence_committed_text";
/// Former property of the decoder's confidence.
pub const K_CONFIDENCE_LEGACY: &'static str = "tiger_sentence_confidence";
/// Former property of the early-commit proposal.
pub const K_PROPOSAL_LEGACY: &'static str = "tiger_sentence_proposal";
/// Former property of the stable prefix.
pub const K_STABLE_LEGACY: &'static str = "tiger_sentence_stable";
/// Former property of the raw input the evidence was gathered on.
pub const K_EVIDENCE_RAW_LEGACY: &'static str = "tiger_sentence_evidence_raw";

/// An evidence tracker of a candidate prefix.
///
/// `last_share_bits` holds the last share as its IEEE-754 bits (`f64::to_bits`).
#[derive(Clone, Debug)]
pub struct Tracker {
    pub text: String,
    pub text_char_count: usize,
    pub raw_length: usize,
    pub evidence_count: usize,
    pub strong_count: usize,
    pub gap_count: usize,
    pub last_share_bits: u64,
}

/// The session state of a sentence: its transient part and its confirmed part.
#[derive(Debug)]
pub struct SentenceState {
    pub committed_text: String,
    pub committed_raw: String,
    pub buffered_text: String,
    pub locks: Vec<Lock>,
    pub trackers: TrackerTable,
    pub empty_code_pending: Option<EmptyCodePending>,
    pub last_seen_raw: String,
    pub last_auto_commit_raw_length: usize,
    pub suspended: bool,
    pub continuation_after_auto_commit: bool,
    pub tab_pending: bool,
    pub model_generation: u64,
    /// Whether the one-time clean-up of the former properties has been done.
    pub legacy_cleared: bool,
}

/// `state` is the fresh state of a model generation.
pub open spec fn is_fresh(state: SentenceState, generation: u64) -> bool {
    &&& state.committed_text@.len() == 0
    &&& state.committed_raw@.len() == 0
    &&& state.buffered_text@.len() == 0
    &&& state.locks@.len() == 0
    &&& tracker_table_contents(state.trackers) == no_trackers()
    &&& state.empty_code_pending is None
    &&& state.last_seen_raw@.len() == 0
    &&& state.last_auto_commit_raw_length == 0
    &&& !state.suspended
    &&& !state.continuation_after_auto_commit
    &&& !state.tab_pending
    &&& state.model_generation == generation
    &&& !state.legacy_cleared
}

/// `post` is `pre` brought to model `generation`: on a new generation the trackers, the
/// last seen input and the pending empty-code commit are dropped; nothing else changes.
pub open spec fn model_state_synchronized(pre: SentenceState, post: SentenceState, generation: u64) -> bool {
    if pre.model_generation == generation {
        post == pre
    } else {
        &&& post == (SentenceState {
            model_generation: generation,
            trackers: post.trackers,
            last_seen_raw: post.last_seen_raw,
            empty_code_pending: None,
            ..pre
        })
        &&& tracker_table_contents(post.trackers) == no_trackers()
        &&& post.last_seen_raw@.len() == 0
    }
}

/// The committed pair kept under the former two properties, when the combined property is
/// empty and one of them is not.
pub open spec fn legacy_committed(context: Context) -> Option<(Seq<char>, Seq<char>)> {
    let raw = property_text(context, K_COMMITTED_RAW_LEGACY@);
    let text = property_text(context, K_COMMITTED_TEXT_LEGACY@);
    if property_text(context, K_COMMITTED@).len() == 0 && (raw.len() > 0 || text.len() > 0) {
        Some((raw, text))
    } else {
        None
    }
}

/// The committed raw input and text a state loads from the context.
pub open spec fn loaded_committed(context: Context) -> (Seq<char>, Seq<char>) {
    match legacy_committed(context) {
        Some(pair) => pair,
        None => spec_committed_property(property_text(context, K_COMMITTED@)),
    }
}

/// The combined committed property: raw input and text joined by a tab.
pub open spec fn committed_property(raw: Seq<char>, text: Seq<char>) -> Seq<char> {
    raw + seq!['\t'] + text
}

/// The properties after loading: a committed pair found under the former properties is
/// moved to the combined one.
pub open spec fn migrated_properties(context: Context) -> Map<Seq<char>, Seq<char>> {
    match legacy_committed(context) {
        Some((raw, text)) => property_written(
            property_written(
                property_written(context.properties@, K_COMMITTED@, committed_property(raw, text)),
                K_COMMITTED_RAW_LEGACY@,
                Seq::empty(),
            ),
            K_COMMITTED_TEXT_LEGACY@,
            Seq::empty(),
        ),
        None => context.properties@,
    }
}

/// The properties after saving a state with these views: buffered text, lock frame and
/// committed pair, then (the first time) the former properties emptied.
pub open spec fn saved_properties(
    properties: Map<Seq<char>, Seq<char>>,
    buffered: Seq<char>,
    locks: Seq<Lock>,
    raw: Seq<char>,
    text: Seq<char>,
    legacy_cleared: bool,
) -> Map<Seq<char>, Seq<char>> {
    let written = property_written(
        property_written(property_written(properties, K_BUFFERED@, buffered), K_LOCKS@, spec_lock_frame(locks)),
        K_COMMITTED@,
        committed_property(raw, text),
    );
    if legacy_cleared {
        written
    } else {
        property_written(
            property_written(
                property_written(
                    property_written(written, K_CONFIDENCE_LEGACY@, Seq::empty()),
                    K_PROPOSAL_LEGACY@,
                    Seq::empty(),
                ),
                K_STABLE_LEGACY@,
                Seq::empty(),
            ),
            K_EVIDENCE_RAW_LEGACY@,
            Seq::empty(),
        )
    }
}

/// Only the properties of the context may differ between `pre` and `post`.
pub open spec fn only_properties_changed(pre: Context, post: Context) -> bool {
    &&& post.input == pre.input
    &&& post.caret == pre.caret
    &&& post.composition == pre.composition
    &&& post.options@ == pre.options@
    &&& post.buffered == pre.buffered
    &&& post.punct_pairs == pre.punct_pairs
    &&& post.last_commit == pre.last_commit
    &&& post.events == pre.events
}

/// A lock that an edit invalidates: it reaches past the committed input, and the edit
/// starts inside it or cuts the input back to its end.
pub open spec fn lock_invalidated(lock: Lock, committed_raw: Seq<char>, first_changed: usize, full_length: usize) -> bool {
    let length = encode_utf8(lock.raw@).len();
    &&& length > encode_utf8(committed_raw).len()
    &&& (first_changed < length || full_length <= length)
}

/// The locks left after an edit: invalidated locks are dropped from the end.
pub open spec fn surviving_locks(
    locks: Seq<Lock>,
    committed_raw: Seq<char>,
    first_changed: usize,
    full_length: usize,
) -> Seq<Lock>
    decreases locks.len(),
{
    if locks.len() > 0 && lock_invalidated(locks.last(), committed_raw, first_changed, full_length) {
        surviving_locks(locks.drop_last(), committed_raw, first_changed, full_length)
    } else {
        locks
    }
}

impl SentenceState {
    /// The fresh state of a model generation.
    pub fn fresh(model_generation: u64) -> (state: Self)
        ensures
            is_fresh(state, model_generation),
    {
        SentenceState {
            committed_text: String::new(),
            committed_raw: String::new(),
            buffered_text: String::new(),
            locks: Vec::new(),
            trackers: TrackerTable::new(),
            empty_code_pending: None,
            last_seen_raw: String::new(),
            last_auto_commit_raw_length: 0,
            suspended: false,
            continuation_after_auto_commit: false,
            tab_pending: false,
            model_generation,
            legacy_cleared: false,
        }
    }

    /// The innermost lock (the last one).
    pub fn active_lock(&self) -> (lock: Option<&Lock>)
        ensures
            match lock {
                Some(l) => self.locks@.len() > 0 && *l == self.locks@.last(),
                None => self.locks@.len() == 0,
            },
    {
        self.locks.as_slice().last()
    }

    /// Brings the state to model `generation`; returns whether the generation changed.
    pub fn synchronize_model_state(&mut self, generation: u64) -> (changed: bool)
        ensures
            changed == (old(self).model_generation != generation),
            model_state_synchronized(*old(self), *final(self), generation),
    {
        if self.model_generation == generation {
            return false;
        }
        self.model_generation = generation;
        self.trackers.clear();
        self.last_seen_raw = String::new();
        self.empty_code_pending = None;
        true
    }

    /// Loads the committed pair, the buffered text and the locks from the context's
    /// properties, and brings the state to `model_generation`. A committed pair still kept
    /// under the former two properties is moved to the combined one first.
    pub fn load(&mut self, context: &mut Context, model_generation: u64)
        ensures
            final(context).properties@ == migrated_properties(*old(context)),
            only_properties_changed(*old(context), *final(context)),
            (final(self).committed_raw@, final(self).committed_text@) == loaded_committed(*old(context)),
            final(self).buffered_text@ == property_text(*old(context), K_BUFFERED@),
            match lock_fields_from(encode_utf8(property_text(*old(context), K_LOCKS@)), 0) {
                None => final(self).locks@.len() == 0,
                Some(fields) => locks_of_fields(final(self).locks@, fields),
            },
            model_state_synchronized(
                *old(self),
                (SentenceState {
                    committed_text: old(self).committed_text,
                    committed_raw: old(self).committed_raw,
                    buffered_text: old(self).buffered_text,
                    locks: old(self).locks,
                    ..*final(self)
                }),
                model_generation,
            ),
    {
        proof {
            lemma_property_keys_distinct();
        }
        let combined = property_or_empty(context, K_COMMITTED);
        let (mut committed_raw, mut committed_text) = parse_committed_property(combined.as_str());
        if combined.as_str().is_empty() {
            let old_raw = property_or_empty(context, K_COMMITTED_RAW_LEGACY);
            let old_text = property_or_empty(context, K_COMMITTED_TEXT_LEGACY);
            if !old_raw.as_str().is_empty() || !old_text.as_str().is_empty() {
                let mut joined = String::new();
                push_str(&mut joined, old_raw.as_str());
                push_char(&mut joined, '\t');
                push_str(&mut joined, old_text.as_str());
                assert(joined@ =~= committed_property(old_raw@, old_text@));
                set_property_if_changed(context, K_COMMITTED, joined.as_str());
                set_property_if_changed(context, K_COMMITTED_RAW_LEGACY, "");
                set_property_if_changed(context, K_COMMITTED_TEXT_LEGACY, "");
                committed_raw = old_raw;
                committed_text = old_text;
            }
        }
        self.synchronize_model_state(model_generation);
        self.committed_text = committed_text;
        self.committed_raw = committed_raw;
        self.buffered_text = property_or_empty(context, K_BUFFERED);
        self.locks = read_locks(context);
    }

    /// Writes the buffered text, the locks and the committed pair to the context's
    /// properties (each only where it changes); the first save also empties the former
    /// properties.
    pub fn save(&mut self, context: &mut Context)
        ensures
            final(context).properties@ == saved_properties(
                old(context).properties@,
                old(self).buffered_text@,
                old(self).locks@,
                old(self).committed_raw@,
                old(self).committed_text@,
                old(self).legacy_cleared,
            ),
            only_properties_changed(*old(context), *final(context)),
            *final(self) == (SentenceState { legacy_cleared: true, ..*old(self) }),
    {
        proof {
            lemma_property_keys_distinct();
        }
        set_property_if_changed(context, K_BUFFERED, self.buffered_text.as_str());
        save_locks(context, self.locks.as_slice());
        let mut combined = String::new();
        push_str(&mut combined, self.committed_raw.as_str());
        push_char(&mut combined, '\t');
        push_str(&mut combined, self.committed_text.as_str());
        assert(combined@ =~= committed_property(self.committed_raw@, self.committed_text@));
        set_property_if_changed(context, K_COMMITTED, combined.as_str());
        if !self.legacy_cleared {
            set_property_if_changed(context, K_CONFIDENCE_LEGACY, "");
            set_property_if_changed(context, K_PROPOSAL_LEGACY, "");
            set_property_if_changed(context, K_STABLE_LEGACY, "");
            set_property_if_changed(context, K_EVIDENCE_RAW_LEGACY, "");
        }
        self.legacy_cleared = true;
    }

    /// Starts the sentence over: the fresh state of the current generation, with the given
    /// continuation flag, saved to the context.
    pub fn reset(&mut self, context: &mut Context, continuation_after_auto_commit: bool)
        ensures
            is_fresh(
                (SentenceState { continuation_after_auto_commit: false, legacy_cleared: false, ..*final(self) }),
                old(self).model_generation,
            ),
            final(self).continuation_after_auto_commit == continuation_after_auto_commit,
            final(self).legacy_cleared,
            final(context).properties@ == saved_properties(
                old(context).properties@,
                Seq::empty(),
                Seq::empty(),
                Seq::empty(),
                Seq::empty(),
                false,
            ),
            only_properties_changed(*old(context), *final(context)),
    {
        let fresh = SentenceState { continuation_after_auto_commit, ..SentenceState::fresh(self.model_generation) };
        *self = fresh;
        assert(self.buffered_text@ =~= Seq::<char>::empty());
        assert(self.locks@ =~= Seq::<Lock>::empty());
        assert(self.committed_raw@ =~= Seq::<char>::empty());
        assert(self.committed_text@ =~= Seq::<char>::empty());
        self.save(context);
    }
}

/// Drops the early-commit evidence: the trackers and the last seen input.
pub fn reset_early_evidence(state: &mut SentenceState)
    ensures
        *final(state) == (SentenceState {
            trackers: final(state).trackers,
            last_seen_raw: final(state).last_seen_raw,
            ..*old(state)
        }),
        tracker_table_contents(final(state).trackers) == no_trackers(),
        final(state).last_seen_raw@.len() == 0,
{
    state.trackers.clear();
    state.last_seen_raw = String::new();
}

/// The boundaries of the single lock over the committed prefix: the byte lengths of its
/// raw input and of its text, as `raw,text;`.
pub open spec fn committed_boundaries(raw: Seq<char>, text: Seq<char>) -> Seq<char> {
    decimal_digits(encode_utf8(raw).len()) + seq![','] + decimal_digits(encode_utf8(text).len()) + seq![';']
}

/// Whether an early commit goes to the preedit: the option asks for it, or text is
/// already buffered there.
pub open spec fn commits_to_preedit(context: Context, state: SentenceState) -> bool {
    option_value(context.options@, OPTION_EARLY_COMMIT_TO_PREEDIT@, false) || state.buffered_text@.len() > 0
}

/// `post` and `post_context` are `pre` and `pre_context` after `commit` is submitted (see
/// [`submit_early`]): into the preedit it is buffered under the single lock over the
/// committed prefix and the state is saved; otherwise it is handed back as `submitted`.
pub open spec fn early_submitted(
    pre_context: Context,
    pre: SentenceState,
    commit: Seq<char>,
    submitted: Option<String>,
    post_context: Context,
    post: SentenceState,
) -> bool {
    if commits_to_preedit(pre_context, pre) {
        &&& submitted is None
        &&& post == (SentenceState {
            buffered_text: post.buffered_text,
            locks: post.locks,
            legacy_cleared: true,
            ..pre
        })
        &&& post.buffered_text@ == pre.buffered_text@ + commit
        &&& post.locks@.len() == 1
        &&& post.locks@[0].raw@ == pre.committed_raw@
        &&& post.locks@[0].text@ == pre.committed_text@
        &&& post.locks@[0].boundaries@ == committed_boundaries(pre.committed_raw@, pre.committed_text@)
        &&& post_context.properties@ == saved_properties(
            pre_context.properties@,
            post.buffered_text@,
            post.locks@,
            pre.committed_raw@,
            pre.committed_text@,
            pre.legacy_cleared,
        )
        &&& only_properties_changed(pre_context, post_context)
    } else {
        &&& submitted matches Some(text) && text@ == commit
        &&& post == pre
        &&& post_context == pre_context
    }
}

/// Submits an early commit. Into the preedit: the text is appended to the buffered text,
/// the locks become the single lock over the committed prefix, and the state is saved;
/// otherwise the text is handed back for the caller to commit, and nothing changes.
pub fn submit_early(context: &mut Context, state: &mut SentenceState, commit: &str) -> (pending: Option<String>)
    ensures
        early_submitted(*old(context), *old(state), commit@, pending, *final(context), *final(state)),
{
    if context.get_option(OPTION_EARLY_COMMIT_TO_PREEDIT) || !state.buffered_text.as_str().is_empty() {
        push_str(&mut state.buffered_text, commit);
        let mut boundaries = String::new();
        push_decimal(&mut boundaries, state.committed_raw.as_str().as_bytes().len() as u64);
        push_char(&mut boundaries, ',');
        push_decimal(&mut boundaries, state.committed_text.as_str().as_bytes().len() as u64);
        push_char(&mut boundaries, ';');
        assert(boundaries@ =~= committed_boundaries(state.committed_raw@, state.committed_text@));
        let lock = Lock {
            raw: to_owned_string(state.committed_raw.as_str()),
            text: to_owned_string(state.committed_text.as_str()),
            boundaries,
        };
        let mut locks: Vec<Lock> = Vec::new();
        locks.push(lock);
        state.locks = locks;
        state.save(context);
        None
    } else {
        Some(to_owned_string(commit))
    }
}

/// Clears the transient state after an edit of the input and drops the locks the edit
/// invalidates (never those of text already committed to the application), then saves the
/// state to the context. `first_changed` is the first byte the edit changed and
/// `full_length` the input's new length.
pub fn invalidate_edit_state(
    context: &mut Context,
    state: &mut SentenceState,
    first_changed: usize,
    full_length: usize,
)
    ensures
        *final(state) == (SentenceState {
            tab_pending: false,
            trackers: final(state).trackers,
            last_seen_raw: final(state).last_seen_raw,
            empty_code_pending: None,
            locks: final(state).locks,
            legacy_cleared: true,
            ..*old(state)
        }),
        tracker_table_contents(final(state).trackers) == no_trackers(),
        final(state).last_seen_raw@.len() == 0,
        final(state).locks@ == surviving_locks(
            old(state).locks@,
            old(state).committed_raw@,
            first_changed,
            full_length,
        ),
        final(context).properties@ == saved_properties(
            old(context).properties@,
            old(state).buffered_text@,
            final(state).locks@,
            old(state).committed_raw@,
            old(state).committed_text@,
            old(state).legacy_cleared,
        ),
        only_properties_changed(*old(context), *final(context)),
{
    state.tab_pending = false;
    state.trackers.clear();
    state.last_seen_raw = String::new();
    state.empty_code_pending = None;
    let ghost cleared = *state;
    let ghost target = surviving_locks(cleared.locks@, cleared.committed_raw@, first_changed, full_length);
    loop
        invariant
            *state == (SentenceState { locks: state.locks, ..cleared }),
            surviving_locks(state.locks@, cleared.committed_raw@, first_changed, full_length) == target,
        ensures
            *state == (SentenceState { locks: state.locks, ..cleared }),
            state.locks@ == target,
        decreases state.locks@.len(),
    {
        let count = state.locks.len();
        if count == 0 {
            break;
        }
        let length = state.locks[count - 1].raw.as_str().as_bytes().len();
        let committed_length = state.committed_raw.as_str().as_bytes().len();
        if length > committed_length && (first_changed < length || full_length <= length) {
            state.locks.pop();
        } else {
            break;
        }
    }
    state.save(context);
}

/// The property keys of the sentence state are distinct, and `""` is the empty text.
proof fn lemma_property_keys_distinct()
    ensures
        ""@ == Seq::<char>::empty(),
        K_BUFFERED@ != K_COMMITTED@,
        K_BUFFERED@ != K_LOCKS@,
        K_BUFFERED@ != K_COMMITTED_RAW_LEGACY@,
        K_BUFFERED@ != K_COMMITTED_TEXT_LEGACY@,
        K_LOCKS@ != K_COMMITTED@,
        K_LOCKS@ != K_COMMITTED_RAW_LEGACY@,
        K_LOCKS@ != K_COMMITTED_TEXT_LEGACY@,
        K_COMMITTED@ != K_COMMITTED_RAW_LEGACY@,
        K_COMMITTED@ != K_COMMITTED_TEXT_LEGACY@,
        K_COMMITTED_RAW_LEGACY@ != K_COMMITTED_TEXT_LEGACY@,
{
    reveal_strlit("");
    assert(""@ =~= Seq::<char>::empty());
    reveal_strlit("tiger_sentence_buffered");
    reveal_strlit("tiger_sentence_locks");
    reveal_strlit("tiger_sentence_committed");
    reveal_strlit("tiger_sentence_committed_raw");
    reveal_strlit("tiger_sentence_committed_text");
    assert(K_BUFFERED@.len() != K_COMMITTED@.len());
    assert(K_BUFFERED@[15] != K_LOCKS@[15]);
    assert(K_BUFFERED@.len() != K_COMMITTED_RAW_LEGACY@.len());
    assert(K_BUFFERED@.len() != K_COMMITTED_TEXT_LEGACY@.len());
    assert(K_LOCKS@.len() != K_COMMITTED@.len());
    assert(K_LOCKS@.len() != K_COMMITTED_RAW_LEGACY@.len());
    assert(K_LOCKS@.len() != K_COMMITTED_TEXT_LEGACY@.len());
    assert(K_COMMITTED@.len() != K_COMMITTED_RAW_LEGACY@.len());
    assert(K_COMMITTED@.len() != K_COMMITTED_TEXT_LEGACY@.len());
    assert(K_COMMITTED_RAW_LEGACY@[25] != K_COMMITTED_TEXT_LEGACY@[25]);
}

/// The keys `save` writes differ from one another and from the former keys it empties.
proof fn lemma_saved_keys_distinct()
    ensures
        K_BUFFERED@ != K_LOCKS@,
        K_BUFFERED@ != K_COMMITTED@,
        K_LOCKS@ != K_COMMITTED@,
        K_BUFFERED@ != K_CONFIDENCE_LEGACY@,
        K_BUFFERED@ != K_PROPOSAL_LEGACY@,
        K_BUFFERED@ != K_STABLE_LEGACY@,
        K_BUFFERED@ != K_EVIDENCE_RAW_LEGACY@,
        K_LOCKS@ != K_CONFIDENCE_LEGACY@,
        K_LOCKS@ != K_PROPOSAL_LEGACY@,
        K_LOCKS@ != K_STABLE_LEGACY@,
        K_LOCKS@ != K_EVIDENCE_RAW_LEGACY@,
        K_COMMITTED@ != K_CONFIDENCE_LEGACY@,
        K_COMMITTED@ != K_PROPOSAL_LEGACY@,
        K_COMMITTED@ != K_STABLE_LEGACY@,
        K_COMMITTED@ != K_EVIDENCE_RAW_LEGACY@,
{
    reveal_strlit("tiger_sentence_buffered");
    reveal_strlit("tiger_sentence_locks");
    reveal_strlit("tiger_sentence_committed");
    reveal_strlit("tiger_sentence_confidence");
    reveal_strlit("tiger_sentence_proposal");
    reveal_strlit("tiger_sentence_stable");
    reveal_strlit("tiger_sentence_evidence_raw");
    assert(K_BUFFERED@[15] != K_LOCKS@[15]);
    assert(K_BUFFERED@[15] != K_COMMITTED@[15]);
    assert(K_LOCKS@[15] != K_COMMITTED@[15]);
    assert(K_BUFFERED@[15] != K_CONFIDENCE_LEGACY@[15]);
    assert(K_BUFFERED@[15] != K_PROPOSAL_LEGACY@[15]);
    assert(K_BUFFERED@[15] != K_STABLE_LEGACY@[15]);
    assert(K_BUFFERED@[15] != K_EVIDENCE_RAW_LEGACY@[15]);
    assert(K_LOCKS@[15] != K_CONFIDENCE_LEGACY@[15]);
    assert(K_LOCKS@[15] != K_PROPOSAL_LEGACY@[15]);
    assert(K_LOCKS@[15] != K_STABLE_LEGACY@[15]);
    assert(K_LOCKS@[15] != K_EVIDENCE_RAW_LEGACY@[15]);
    assert(K_COMMITTED@.len() != K_CONFIDENCE_LEGACY@.len());
    assert(K_COMMITTED@[15] != K_PROPOSAL_LEGACY@[15]);
    assert(K_COMMITTED@[15] != K_STABLE_LEGACY@[15]);
    assert(K_COMMITTED@[15] != K_EVIDENCE_RAW_LEGACY@[15]);
}

/// The text a property map holds under `key` (empty when absent).
pub open spec fn text_under(properties: Map<Seq<char>, Seq<char>>, key: Seq<char>) -> Seq<char> {
    if properties.contains_key(key) {
        properties[key]
    } else {
        Seq::empty()
    }
}

/// After a write, the key holds the written text and every other key keeps its text.
proof fn lemma_property_written(properties: Map<Seq<char>, Seq<char>>, key: Seq<char>, value: Seq<char>)
    ensures
        text_under(property_written(properties, key, value), key) == value,
        forall|other: Seq<char>|
            other != key ==> text_under(#[trigger] property_written(properties, key, value), other) == text_under(
                properties,
                other,
            ),
{
    if value.len() == 0 {
        assert(value =~= Seq::<char>::empty());
    }
}

/// Law: what `save` writes, `load` reads back: the committed pair (when the raw input holds
/// no tab), the buffered text, and the locks field by field (as long as each field's byte
/// length fits in `usize`), whatever the properties held before.
pub proof fn law_save_then_load(
    properties: Map<Seq<char>, Seq<char>>,
    state: SentenceState,
    context: Context,
    read: Seq<Lock>,
)
    requires
        context.properties@ == saved_properties(
            properties,
            state.buffered_text@,
            state.locks@,
            state.committed_raw@,
            state.committed_text@,
            state.legacy_cleared,
        ),
        !state.committed_raw@.contains('\t'),
        forall|i: int| 0 <= i < state.locks@.len() ==> {
            &&& encode_utf8((#[trigger] state.locks@[i]).raw@).len() <= usize::MAX
            &&& encode_utf8(state.locks@[i].text@).len() <= usize::MAX
            &&& encode_utf8(state.locks@[i].boundaries@).len() <= usize::MAX
        },
    ensures
        loaded_committed(context) == (state.committed_raw@, state.committed_text@),
        property_text(context, K_BUFFERED@) == state.buffered_text@,
        lock_fields_from(encode_utf8(property_text(context, K_LOCKS@)), 0) is Some,
        lock_fields_from(encode_utf8(property_text(context, K_LOCKS@)), 0) matches Some(fields) ==> (
        locks_of_fields(read, fields) ==> lock_views(read) == lock_views(state.locks@)),
{
    lemma_saved_keys_distinct();
    let raw = state.committed_raw@;
    let text = state.committed_text@;
    let p1 = property_written(properties, K_BUFFERED@, state.buffered_text@);
    let p2 = property_written(p1, K_LOCKS@, spec_lock_frame(state.locks@));
    let p3 = property_written(p2, K_COMMITTED@, committed_property(raw, text));
    lemma_property_written(properties, K_BUFFERED@, state.buffered_text@);
    lemma_property_written(p1, K_LOCKS@, spec_lock_frame(state.locks@));
    lemma_property_written(p2, K_COMMITTED@, committed_property(raw, text));
    let p4 = property_written(p3, K_CONFIDENCE_LEGACY@, Seq::empty());
    let p5 = property_written(p4, K_PROPOSAL_LEGACY@, Seq::empty());
    let p6 = property_written(p5, K_STABLE_LEGACY@, Seq::empty());
    lemma_property_written(p3, K_CONFIDENCE_LEGACY@, Seq::empty());
    lemma_property_written(p4, K_PROPOSAL_LEGACY@, Seq::empty());
    lemma_property_written(p5, K_STABLE_LEGACY@, Seq::empty());
    lemma_property_written(p6, K_EVIDENCE_RAW_LEGACY@, Seq::empty());
    let saved = context.properties@;
    assert(text_under(saved, K_BUFFERED@) == state.buffered_text@);
    assert(text_under(saved, K_LOCKS@) == spec_lock_frame(state.locks@));
    assert(text_under(saved, K_COMMITTED@) == committed_property(raw, text));
    assert(committed_property(raw, text).len() > 0);
    law_committed_property_roundtrip(raw, text);
    law_locks_roundtrip(state.locks@, read);
}

/// Law: an edit never drops the lock of input already committed to the application: the
/// locks that survive are a prefix of the locks, and that prefix keeps every lock whose
/// input is no longer than the committed input.
pub proof fn law_committed_locks_survive(
    locks: Seq<Lock>,
    committed_raw: Seq<char>,
    first_changed: usize,
    full_length: usize,
)
    ensures
        surviving_locks(locks, committed_raw, first_changed, full_length) == locks.take(
            surviving_locks(locks, committed_raw, first_changed, full_length).len() as int,
        ),
        surviving_locks(locks, committed_raw, first_changed, full_length).len() <= locks.len(),
        forall|i: int|
            0 <= i < locks.len() && encode_utf8((#[trigger] locks[i]).raw@).len() <= encode_utf8(committed_raw).len()
                ==> i < surviving_locks(locks, committed_raw, first_changed, full_length).len(),
    decreases locks.len(),
{
    if locks.len() > 0 && lock_invalidated(locks.last(), committed_raw, first_changed, full_length) {
        let rest = locks.drop_last();
        law_committed_locks_survive(rest, committed_raw, first_changed, full_length);
        let kept = surviving_locks(rest, committed_raw, first_changed, full_length);
        assert(rest.take(kept.len() as int) =~= locks.take(kept.len() as int));
        assert forall|i: int|
            0 <= i < locks.len() && encode_utf8((#[trigger] locks[i]).raw@).len() <= encode_utf8(committed_raw).len()
                implies i < kept.len() by {
            if i == locks.len() - 1 {
                assert(locks[i] == locks.last());
            } else {
                assert(rest[i] == locks[i]);
            }
        }
    } else {
        assert(locks.take(locks.len() as int) =~= locks);
    }
}

} // verus!
