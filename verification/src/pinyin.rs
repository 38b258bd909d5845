//! The pinyin index (`TCSRV01` binary format, optionally gzip-compressed): syllables,
//! spelling keys, coded entry groups and the readings of single characters; and the
//! input pattern of the pinyin lookup.

use vstd::prelude::*;
use vstd::utf8::{decode_utf8, encode_utf8, valid_utf8};
use crate::tables::{no_readings, reading_table_contents, text_views, ReadingTable};
use crate::text::{push_str, to_owned_string};
use crate::punct::{definition_text, PunctTable};
use crate::session::Candidate;
use crate::syllables::{best_kind, chain_end, chain_kind, graph_of, SyllableEdge, KIND_ABBREV, KIND_COMPLETION, KIND_FUZZY, KIND_NORMAL};
use vstd::slice::slice_subrange;

verus! {

/// Index file name (shipped compressed as `.gz`).
pub const PINYIN_FILE: &'static str = "tiger_sentence.pinyin.bin";
/// Compressed index file name.
pub const PINYIN_FILE_GZ: &'static str = "tiger_sentence.pinyin.bin.gz";
/// Candidates of the pinyin lookup.
pub const CANDIDATE_LIMIT: usize = 20;
/// Segment tag of the pinyin lookup.
pub const PINYIN_LOOKUP_TAG: &'static str = "reverse_lookup";
/// Segment prompt of the pinyin lookup.
pub const PINYIN_LOOKUP_TIPS: &'static str = "〔拼音〕";

/// Why an index could not be read.
#[derive(Clone, Copy, Debug, PartialEq, Eq)]
pub enum IndexError {
    /// The data does not start with `TCSRV01\n`.
    BadMagic,
    /// The data ends inside a record.
    Truncated,
    /// A syllable or entry text is not UTF-8.
    InvalidText,
    /// The groups do not account for exactly the entries.
    EntryCountMismatch,
    /// A group's code names a syllable that does not exist.
    UnknownSyllable,
    /// Compressed data that does not decompress.
    BadCompression,
}

// ---------------------------------------------------------------- reading primitives

/// `count` bytes at `pos`, and the position after them.
pub open spec fn read_take(data: Seq<u8>, pos: int, count: int) -> Option<(Seq<u8>, int)> {
    if 0 <= pos && 0 <= count && pos + count <= data.len() {
        Some((data.subrange(pos, pos + count), pos + count))
    } else {
        None
    }
}

/// Little-endian `u16` at `pos`.
pub open spec fn read_u16(data: Seq<u8>, pos: int) -> Option<(u16, int)> {
    match read_take(data, pos, 2) {
        Some((b, next)) => Some(((b[0] + 256 * b[1]) as u16, next)),
        None => None,
    }
}

/// Little-endian `u32` at `pos`.
pub open spec fn read_u32(data: Seq<u8>, pos: int) -> Option<(u32, int)> {
    match read_take(data, pos, 4) {
        Some((b, next)) => Some(((b[0] + 256 * b[1] + 65536 * b[2] + 16777216 * b[3]) as u32, next)),
        None => None,
    }
}

/// A byte at `pos`.
pub open spec fn read_u8(data: Seq<u8>, pos: int) -> Option<(u8, int)> {
    match read_take(data, pos, 1) {
        Some((b, next)) => Some((b[0], next)),
        None => None,
    }
}

/// A `u16` length, then that many bytes.
pub open spec fn read_bytes(data: Seq<u8>, pos: int) -> Option<(Seq<u8>, int)> {
    match read_u16(data, pos) {
        Some((length, next)) => read_take(data, next, length as int),
        None => None,
    }
}

/// A cursor over index data.
pub struct Reader<'a> {
    pub data: &'a [u8],
    pub pos: usize,
}

impl<'a> Reader<'a> {
    /// Takes `count` bytes.
    pub fn take(&mut self, count: usize) -> (taken: Result<&'a [u8], IndexError>)
        requires
            old(self).pos <= old(self).data@.len(),
        ensures
            final(self).data == old(self).data,
            final(self).pos <= final(self).data@.len(),
            match read_take(old(self).data@, old(self).pos as int, count as int) {
                Some((bytes, next)) => taken matches Ok(t) && t@ == bytes && final(self).pos == next,
                None => taken == Err::<&[u8], IndexError>(IndexError::Truncated) && final(self).pos == old(self).pos,
            },
    {
        if count > self.data.len() - self.pos {
            return Err(IndexError::Truncated);
        }
        let (_, rest) = self.data.split_at(self.pos);
        let (slice, _) = rest.split_at(count);
        assert(slice@ =~= self.data@.subrange(self.pos as int, self.pos + count));
        self.pos = self.pos + count;
        Ok(slice)
    }

    /// Reads a byte.
    pub fn u8(&mut self) -> (value: Result<u8, IndexError>)
        requires
            old(self).pos <= old(self).data@.len(),
        ensures
            final(self).data == old(self).data,
            final(self).pos <= final(self).data@.len(),
            match read_u8(old(self).data@, old(self).pos as int) {
                Some((v, next)) => value == Ok::<u8, IndexError>(v) && final(self).pos == next,
                None => value == Err::<u8, IndexError>(IndexError::Truncated),
            },
    {
        let bytes = self.take(1)?;
        Ok(bytes[0])
    }

    /// Reads a little-endian `u16`.
    pub fn u16(&mut self) -> (value: Result<u16, IndexError>)
        requires
            old(self).pos <= old(self).data@.len(),
        ensures
            final(self).data == old(self).data,
            final(self).pos <= final(self).data@.len(),
            match read_u16(old(self).data@, old(self).pos as int) {
                Some((v, next)) => value == Ok::<u16, IndexError>(v) && final(self).pos == next,
                None => value == Err::<u16, IndexError>(IndexError::Truncated),
            },
    {
        let bytes = self.take(2)?;
        Ok(bytes[0] as u16 + 256 * bytes[1] as u16)
    }

    /// Reads a little-endian `u32`.
    pub fn u32(&mut self) -> (value: Result<u32, IndexError>)
        requires
            old(self).pos <= old(self).data@.len(),
        ensures
            final(self).data == old(self).data,
            final(self).pos <= final(self).data@.len(),
            match read_u32(old(self).data@, old(self).pos as int) {
                Some((v, next)) => value == Ok::<u32, IndexError>(v) && final(self).pos == next,
                None => value == Err::<u32, IndexError>(IndexError::Truncated),
            },
    {
        let bytes = self.take(4)?;
        Ok(bytes[0] as u32 + 256 * bytes[1] as u32 + 65536 * bytes[2] as u32 + 16777216 * bytes[3] as u32)
    }

    /// Reads a `u16` length and that many bytes.
    pub fn bytes(&mut self) -> (value: Result<&'a [u8], IndexError>)
        requires
            old(self).pos <= old(self).data@.len(),
        ensures
            final(self).data == old(self).data,
            final(self).pos <= final(self).data@.len(),
            match read_bytes(old(self).data@, old(self).pos as int) {
                Some((v, next)) => value matches Ok(b) && b@ == v && final(self).pos == next,
                None => value == Err::<&[u8], IndexError>(IndexError::Truncated),
            },
    {
        let length = self.u16()?;
        self.take(length as usize)
    }
}

// ---------------------------------------------------------------- the format

/// The text of UTF-8 bytes, or `InvalidText`.
pub open spec fn text_of(bytes: Seq<u8>) -> Result<Seq<char>, IndexError> {
    if valid_utf8(bytes) { Ok(decode_utf8(bytes)) } else { Err(IndexError::InvalidText) }
}

/// `count` syllables from `pos`: each a length-prefixed UTF-8 text.
pub open spec fn read_syllables(data: Seq<u8>, pos: int, count: nat) -> Result<(Seq<Seq<char>>, int), IndexError>
    decreases count,
{
    if count == 0 {
        Ok((Seq::empty(), pos))
    } else {
        match read_syllables(data, pos, (count - 1) as nat) {
            Err(e) => Err(e),
            Ok((list, next)) => match read_bytes(data, next) {
                None => Err(IndexError::Truncated),
                Some((bytes, after)) => match text_of(bytes) {
                    Err(e) => Err(e),
                    Ok(text) => Ok((list.push(text), after)),
                },
            },
        }
    }
}

/// `count` spelling alternatives from `pos`: a syllable id and a kind each.
pub open spec fn read_alternatives(data: Seq<u8>, pos: int, count: nat) -> Option<(Seq<(u32, u8)>, int)>
    decreases count,
{
    if count == 0 {
        Some((Seq::empty(), pos))
    } else {
        match read_alternatives(data, pos, (count - 1) as nat) {
            None => None,
            Some((list, next)) => match read_u32(data, next) {
                None => None,
                Some((syllable, after)) => match read_u8(data, after) {
                    None => None,
                    Some((kind, end)) => Some((list.push((syllable, kind)), end)),
                },
            },
        }
    }
}

/// `count` spelling keys from `pos`: key bytes, then a counted list of alternatives.
pub open spec fn read_spellings(data: Seq<u8>, pos: int, count: nat) -> Option<(Seq<(Seq<u8>, Seq<(u32, u8)>)>, int)>
    decreases count,
{
    if count == 0 {
        Some((Seq::empty(), pos))
    } else {
        match read_spellings(data, pos, (count - 1) as nat) {
            None => None,
            Some((list, next)) => match read_bytes(data, next) {
                None => None,
                Some((key, after)) => match read_u8(data, after) {
                    None => None,
                    Some((n, start)) => match read_alternatives(data, start, n as nat) {
                        None => None,
                        Some((alternatives, end)) => Some((list.push((key, alternatives)), end)),
                    },
                },
            },
        }
    }
}

/// `count` little-endian `u16` syllable ids from `pos`.
pub open spec fn read_codes(data: Seq<u8>, pos: int, count: nat) -> Option<(Seq<u16>, int)>
    decreases count,
{
    if count == 0 {
        Some((Seq::empty(), pos))
    } else {
        match read_codes(data, pos, (count - 1) as nat) {
            None => None,
            Some((list, next)) => match read_u16(data, next) {
                None => None,
                Some((id, after)) => Some((list.push(id), after)),
            },
        }
    }
}

/// `count` entry groups from `pos`: a counted code, then the number of entries.
pub open spec fn read_groups(data: Seq<u8>, pos: int, count: nat) -> Option<(Seq<(Seq<u16>, u32)>, int)>
    decreases count,
{
    if count == 0 {
        Some((Seq::empty(), pos))
    } else {
        match read_groups(data, pos, (count - 1) as nat) {
            None => None,
            Some((list, next)) => match read_u8(data, next) {
                None => None,
                Some((n, start)) => match read_codes(data, start, n as nat) {
                    None => None,
                    Some((code, after)) => match read_u32(data, after) {
                        None => None,
                        Some((entries, end)) => Some((list.push((code, entries)), end)),
                    },
                },
            },
        }
    }
}

/// `count` entries from `pos`: a weight, then a length-prefixed UTF-8 text.
pub open spec fn read_entries(data: Seq<u8>, pos: int, count: nat) -> Result<(Seq<(u32, Seq<char>)>, int), IndexError>
    decreases count,
{
    if count == 0 {
        Ok((Seq::empty(), pos))
    } else {
        match read_entries(data, pos, (count - 1) as nat) {
            Err(e) => Err(e),
            Ok((list, next)) => match read_u32(data, next) {
                None => Err(IndexError::Truncated),
                Some((weight, after)) => match read_bytes(data, after) {
                    None => Err(IndexError::Truncated),
                    Some((bytes, end)) => match text_of(bytes) {
                        Err(e) => Err(e),
                        Ok(text) => Ok((list.push((weight, text)), end)),
                    },
                },
            },
        }
    }
}

/// What an index holds.
pub struct IndexModel {
    pub syllables: Seq<Seq<char>>,
    pub spellings: Seq<(Seq<u8>, Seq<(u32, u8)>)>,
    pub groups: Seq<(Seq<u16>, u32)>,
    pub entries: Seq<(u32, Seq<char>)>,
}

/// Total number of entries the first `n` groups claim.
pub open spec fn claimed_entries(groups: Seq<(Seq<u16>, u32)>, n: int) -> int
    decreases n,
{
    if n <= 0 {
        0
    } else {
        claimed_entries(groups, n - 1) + groups[n - 1].1
    }
}

/// Every syllable id of every group names a syllable.
pub open spec fn codes_known(groups: Seq<(Seq<u16>, u32)>, syllable_count: nat) -> bool {
    forall|g: int, k: int|
        0 <= g < groups.len() && 0 <= k < groups[g].0.len() ==> (#[trigger] groups[g].0[k]) < syllable_count
}

/// The index in `data`: magic, four counts, then syllables, spellings, groups and entries;
/// the groups must claim exactly the entries and name only known syllables.
pub open spec fn spec_parse(data: Seq<u8>) -> Result<IndexModel, IndexError> {
    match read_take(data, 0, 8) {
        None => Err(IndexError::Truncated),
        Some((magic, _)) => if magic != seq![0x54u8, 0x43, 0x53, 0x52, 0x56, 0x30, 0x31, 0x0a] {
            Err(IndexError::BadMagic)
        } else {
            match (read_u32(data, 8), read_u32(data, 12), read_u32(data, 16), read_u32(data, 20)) {
                (Some((syllable_count, _)), Some((spelling_count, _)), Some((group_count, _)), Some((entry_count, _))) =>
                    match read_syllables(data, 24, syllable_count as nat) {
                        Err(e) => Err(e),
                        Ok((syllables, p1)) => match read_spellings(data, p1, spelling_count as nat) {
                            None => Err(IndexError::Truncated),
                            Some((spellings, p2)) => match read_groups(data, p2, group_count as nat) {
                                None => Err(IndexError::Truncated),
                                Some((groups, p3)) => match read_entries(data, p3, entry_count as nat) {
                                    Err(e) => Err(e),
                                    Ok((entries, _)) => if claimed_entries(groups, groups.len() as int) != entry_count {
                                        Err(IndexError::EntryCountMismatch)
                                    } else if !codes_known(groups, syllables.len()) {
                                        Err(IndexError::UnknownSyllable)
                                    } else {
                                        Ok(IndexModel { syllables, spellings, groups, entries })
                                    },
                                },
                            },
                        },
                    },
                _ => Err(IndexError::Truncated),
            }
        },
    }
}

/// The reading of a code: its syllables' texts joined.
pub open spec fn reading_of(syllables: Seq<Seq<char>>, code: Seq<u16>) -> Seq<char>
    decreases code.len(),
{
    if code.len() == 0 {
        Seq::empty()
    } else {
        reading_of(syllables, code.drop_last()) + syllables[code.last() as int]
    }
}

/// `readings` after meeting a single-character entry `ch` read `reading`: the reading is
/// appended unless the character already has it.
pub open spec fn add_reading(readings: Map<char, Seq<Seq<char>>>, ch: char, reading: Seq<char>) -> Map<char, Seq<Seq<char>>> {
    if readings.contains_key(ch) && readings[ch].contains(reading) {
        readings
    } else {
        let current = if readings.contains_key(ch) { readings[ch] } else { Seq::empty() };
        readings.insert(ch, current.push(reading))
    }
}

/// The readings after the first `j` entries of group `g` (starting at entry `first`).
pub open spec fn group_readings(
    model: IndexModel,
    readings: Map<char, Seq<Seq<char>>>,
    g: int,
    first: int,
    j: int,
) -> Map<char, Seq<Seq<char>>>
    decreases j,
{
    if j <= 0 {
        readings
    } else {
        let before = group_readings(model, readings, g, first, j - 1);
        let text = model.entries[first + j - 1].1;
        if text.len() == 1 {
            add_reading(before, text[0], reading_of(model.syllables, model.groups[g].0))
        } else {
            before
        }
    }
}

/// The readings of single characters after the first `n` groups, in source order.
pub open spec fn character_readings(model: IndexModel, n: int) -> Map<char, Seq<Seq<char>>>
    decreases n,
{
    if n <= 0 {
        no_readings()
    } else {
        group_readings(
            model,
            character_readings(model, n - 1),
            n - 1,
            claimed_entries(model.groups, n - 1),
            model.groups[n - 1].1 as int,
        )
    }
}

/// A group of entries sharing one code.
struct Group {
    code: Vec<u16>,
    first: u32,
    count: u32,
}

/// An entry: its weight and text.
struct Entry {
    weight: u32,
    text: String,
}

/// The pinyin index.
pub struct PinyinIndex {
    syllables: Vec<String>,
    spellings: Vec<(Vec<u8>, Vec<(u32, u8)>)>,
    groups: Vec<Group>,
    entries: Vec<Entry>,
    character_pinyin: ReadingTable,
}

/// The model a parsed index was read into, field by field.
pub closed spec fn index_matches(index: PinyinIndex, model: IndexModel) -> bool {
    &&& text_views(index.syllables@) == model.syllables
    &&& index.spellings@.len() == model.spellings.len()
    &&& (forall|i: int| 0 <= i < model.spellings.len() ==> (#[trigger] index.spellings@[i]).0@ == model.spellings[i].0
        && index.spellings@[i].1@ == model.spellings[i].1)
    &&& index.groups@.len() == model.groups.len()
    &&& (forall|i: int| 0 <= i < model.groups.len() ==> (#[trigger] index.groups@[i]).code@ == model.groups[i].0
        && index.groups@[i].count == model.groups[i].1
        && index.groups@[i].first == claimed_entries(model.groups, i))
    &&& index.entries@.len() == model.entries.len()
    &&& (forall|i: int| 0 <= i < model.entries.len() ==> (#[trigger] index.entries@[i]).weight == model.entries[i].0
        && index.entries@[i].text@ == model.entries[i].1)
    &&& reading_table_contents(index.character_pinyin) == character_readings(model, model.groups.len() as int)
}

impl View for PinyinIndex {
    type V = Map<char, Seq<Seq<char>>>;

    /// The readings of single characters.
    closed spec fn view(&self) -> Map<char, Seq<Seq<char>>> {
        reading_table_contents(self.character_pinyin)
    }
}

/// `std::string::String::from_utf8`: the text of well-formed UTF-8 bytes, `None` otherwise.
#[verifier::external_body]
fn string_from_utf8(bytes: &[u8]) -> (text: Option<String>)
    ensures
        text is Some <==> valid_utf8(bytes@),
        text matches Some(t) ==> encode_utf8(t@) == bytes@,
{
    String::from_utf8(bytes.to_vec()).ok()
}

fn text_from(bytes: &[u8]) -> (text: Result<String, IndexError>)
    ensures
        match text {
            Ok(t) => text_of(bytes@) == Ok::<Seq<char>, IndexError>(t@),
            Err(e) => text_of(bytes@) == Err::<Seq<char>, IndexError>(e),
        },
{
    match string_from_utf8(bytes) {
        Some(t) => {
            proof {
                vstd::utf8::encode_utf8_decode_utf8(t@);
            }
            Ok(t)
        },
        None => Err(IndexError::InvalidText),
    }
}

impl PinyinIndex {
    /// The index holds `model`.
    pub closed spec fn model_of(&self, model: IndexModel) -> bool {
        index_matches(*self, model)
    }

    /// Number of syllables held.
    pub closed spec fn syllable_total(&self) -> nat {
        self.syllables@.len()
    }

    /// Number of groups held.
    pub closed spec fn group_total(&self) -> nat {
        self.groups@.len()
    }

    /// Number of entries held.
    pub closed spec fn entry_total(&self) -> nat {
        self.entries@.len()
    }

    /// What an index holding `model` counts and reads.
    pub proof fn lemma_model(&self, model: IndexModel)
        requires
            self.model_of(model),
        ensures
            self.syllable_total() == model.syllables.len(),
            self.group_total() == model.groups.len(),
            self.entry_total() == model.entries.len(),
            self@ == character_readings(model, model.groups.len() as int),
    {
        assert(text_views(self.syllables@).len() == self.syllables@.len());
    }

    /// Reads an index (`TCSRV01`).
    pub fn parse(data: &[u8]) -> (index: Result<PinyinIndex, IndexError>)
        ensures
            match index {
                Ok(i) => spec_parse(data@) matches Ok(model) && i.model_of(model),
                Err(e) => spec_parse(data@) == Err::<IndexModel, IndexError>(e),
            },
    {
        let ghost d = data@;
        let mut reader = Reader { data, pos: 0 };
        let magic = reader.take(8)?;
        let expected: [u8; 8] = [0x54, 0x43, 0x53, 0x52, 0x56, 0x30, 0x31, 0x0a];
        assert(expected@ =~= seq![0x54u8, 0x43, 0x53, 0x52, 0x56, 0x30, 0x31, 0x0a]);
        if !bytes_equal(magic, &expected) {
            return Err(IndexError::BadMagic);
        }
        let syllable_count = reader.u32()?;
        let spelling_count = reader.u32()?;
        let group_count = reader.u32()?;
        let entry_count = reader.u32()?;
        let syllables = read_syllable_list(&mut reader, syllable_count)?;
        let ghost p1 = reader.pos as int;
        let spellings = read_spelling_list(&mut reader, spelling_count)?;
        let ghost p2 = reader.pos as int;
        let codes = read_group_list(&mut reader, group_count)?;
        let ghost p3 = reader.pos as int;
        let entries = read_entry_list(&mut reader, entry_count)?;
        let ghost group_list = read_groups(d, p2, group_count as nat)->Some_0.0;
        let ghost entry_list = read_entries(d, p3, entry_count as nat)->Ok_0.0;
        proof {
            lemma_entries_len(d, p3, entry_count as nat);
            assert(entry_views(entries@).len() == entries@.len());
        }
        let ghost model = IndexModel {
            syllables: text_views(syllables@),
            spellings: read_spellings(d, p1, spelling_count as nat)->Some_0.0,
            groups: group_list,
            entries: entry_list,
        };
        let ghost outcome = if claimed_entries(group_list, group_list.len() as int) != entry_count {
            Err(IndexError::EntryCountMismatch)
        } else if !codes_known(group_list, model.syllables.len()) {
            Err(IndexError::UnknownSyllable)
        } else {
            Ok(model)
        };
        assert(spec_parse(d) == outcome);
        // group offsets
        let mut groups: Vec<Group> = Vec::new();
        let mut first: u64 = 0;
        let mut g: usize = 0;
        while g < codes.len()
            invariant
                spec_parse(d) == outcome,
                d == data@,
                outcome == if claimed_entries(group_list, group_list.len() as int) != entry_count {
                    Err(IndexError::EntryCountMismatch)
                } else if !codes_known(group_list, model.syllables.len()) {
                    Err(IndexError::UnknownSyllable)
                } else {
                    Ok(model)
                },
                g <= codes@.len(),
                codes@.len() == group_list.len(),
                forall|k: int| 0 <= k < group_list.len() ==> (#[trigger] codes@[k]).0@ == group_list[k].0 && codes@[k].1 == group_list[k].1,
                first == claimed_entries(group_list, g as int),
                first <= entry_count as u64 + 0x1_0000_0000,
                groups@.len() == g,
                forall|k: int| 0 <= k < g ==> (#[trigger] groups@[k]).code@ == group_list[k].0 && groups@[k].count == group_list[k].1
                    && groups@[k].first == claimed_entries(group_list, k),
            decreases codes.len() - g,
        {
            let count = codes[g].1;
            if first > entry_count as u64 {
                proof {
                    lemma_claimed_grows(group_list, g as int, group_list.len() as int);
                }
                return Err(IndexError::EntryCountMismatch);
            }
            let mut code: Vec<u16> = Vec::new();
            code.extend_from_slice(codes[g].0.as_slice());
            groups.push(Group { code, first: first as u32, count });
            first = first + count as u64;
            g = g + 1;
        }
        if first != entry_count as u64 {
            return Err(IndexError::EntryCountMismatch);
        }
        // known syllables
        let mut g: usize = 0;
        while g < groups.len()
            invariant
                spec_parse(d) == outcome,
                d == data@,
                model.syllables == text_views(syllables@),
                outcome == if claimed_entries(group_list, group_list.len() as int) != entry_count {
                    Err(IndexError::EntryCountMismatch)
                } else if !codes_known(group_list, model.syllables.len()) {
                    Err(IndexError::UnknownSyllable)
                } else {
                    Ok(model)
                },
                claimed_entries(group_list, group_list.len() as int) == entry_count,
                g <= groups@.len(),
                groups@.len() == group_list.len(),
                forall|k: int| 0 <= k < groups@.len() ==> (#[trigger] groups@[k]).code@ == group_list[k].0,
                forall|a: int, b: int| 0 <= a < g && 0 <= b < group_list[a].0.len() ==> (#[trigger] group_list[a].0[b]) < syllables@.len(),
            decreases groups.len() - g,
        {
            let mut k: usize = 0;
            while k < groups[g].code.len()
                invariant
                    spec_parse(d) == outcome,
                    d == data@,
                    model.syllables == text_views(syllables@),
                    outcome == if claimed_entries(group_list, group_list.len() as int) != entry_count {
                        Err(IndexError::EntryCountMismatch)
                    } else if !codes_known(group_list, model.syllables.len()) {
                        Err(IndexError::UnknownSyllable)
                    } else {
                        Ok(model)
                    },
                    claimed_entries(group_list, group_list.len() as int) == entry_count,
                    g < groups@.len(),
                    groups@.len() == group_list.len(),
                    groups@[g as int].code@ == group_list[g as int].0,
                    k <= group_list[g as int].0.len(),
                    forall|b: int| 0 <= b < k ==> (#[trigger] group_list[g as int].0[b]) < syllables@.len(),
                decreases group_list[g as int].0.len() - k,
            {
                if groups[g].code[k] as usize >= syllables.len() {
                    proof {
                        assert(text_views(syllables@).len() == syllables@.len());
                        assert(group_list[g as int].0[k as int] >= text_views(syllables@).len());
                        assert(!codes_known(group_list, text_views(syllables@).len()));
                    }
                    return Err(IndexError::UnknownSyllable);
                }
                k = k + 1;
            }
            g = g + 1;
        }
        assert(codes_known(group_list, model.syllables.len()));
        let character_pinyin = build_readings(&syllables, &groups, &entries, Ghost(model));
        let index = PinyinIndex { syllables, spellings, groups, entries, character_pinyin };
        assert(index_matches(index, model));
        Ok(index)
    }

    /// Number of syllables.
    pub fn syllable_count(&self) -> (count: usize)
        ensures
            count == self.syllable_total(),
    {
        self.syllables.len()
    }

    /// Number of entry groups.
    pub fn group_count(&self) -> (count: usize)
        ensures
            count == self.group_total(),
    {
        self.groups.len()
    }

    /// Number of entries.
    pub fn entry_count(&self) -> (count: usize)
        ensures
            count == self.entry_total(),
    {
        self.entries.len()
    }

    /// The readings of a character, in source order (empty when it has none).
    pub fn character_pinyin(&self, ch: char) -> (readings: &[String])
        ensures
            text_views(readings@) == if self@.contains_key(ch) { self@[ch] } else { Seq::empty() },
    {
        match self.character_pinyin.get(ch) {
            Some(list) => list.as_slice(),
            None => {
                let empty: &[String] = &[];
                assert(text_views(empty@) =~= Seq::<Seq<char>>::empty());
                empty
            },
        }
    }
}


/// Failing to read the first `k` syllables fails the whole list the same way.
pub proof fn lemma_syllables_stop(data: Seq<u8>, pos: int, k: nat, n: nat)
    requires
        k <= n,
        read_syllables(data, pos, k) is Err,
    ensures
        read_syllables(data, pos, n) == read_syllables(data, pos, k),
    decreases n - k,
{
    if k < n {
        lemma_syllables_stop(data, pos, k, (n - 1) as nat);
    }
}

pub proof fn lemma_alternatives_stop(data: Seq<u8>, pos: int, k: nat, n: nat)
    requires
        k <= n,
        read_alternatives(data, pos, k) is None,
    ensures
        read_alternatives(data, pos, n) is None,
    decreases n - k,
{
    if k < n {
        lemma_alternatives_stop(data, pos, k, (n - 1) as nat);
    }
}

pub proof fn lemma_spellings_stop(data: Seq<u8>, pos: int, k: nat, n: nat)
    requires
        k <= n,
        read_spellings(data, pos, k) is None,
    ensures
        read_spellings(data, pos, n) is None,
    decreases n - k,
{
    if k < n {
        lemma_spellings_stop(data, pos, k, (n - 1) as nat);
    }
}

pub proof fn lemma_codes_stop(data: Seq<u8>, pos: int, k: nat, n: nat)
    requires
        k <= n,
        read_codes(data, pos, k) is None,
    ensures
        read_codes(data, pos, n) is None,
    decreases n - k,
{
    if k < n {
        lemma_codes_stop(data, pos, k, (n - 1) as nat);
    }
}

pub proof fn lemma_groups_stop(data: Seq<u8>, pos: int, k: nat, n: nat)
    requires
        k <= n,
        read_groups(data, pos, k) is None,
    ensures
        read_groups(data, pos, n) is None,
    decreases n - k,
{
    if k < n {
        lemma_groups_stop(data, pos, k, (n - 1) as nat);
    }
}

pub proof fn lemma_entries_stop(data: Seq<u8>, pos: int, k: nat, n: nat)
    requires
        k <= n,
        read_entries(data, pos, k) is Err,
    ensures
        read_entries(data, pos, n) == read_entries(data, pos, k),
    decreases n - k,
{
    if k < n {
        lemma_entries_stop(data, pos, k, (n - 1) as nat);
    }
}

fn read_syllable_list(reader: &mut Reader, count: u32) -> (list: Result<Vec<String>, IndexError>)
    requires
        old(reader).pos <= old(reader).data@.len(),
    ensures
        final(reader).data == old(reader).data,
        final(reader).pos <= final(reader).data@.len(),
        match list {
            Ok(l) => read_syllables(old(reader).data@, old(reader).pos as int, count as nat)
                == Ok::<(Seq<Seq<char>>, int), IndexError>((text_views(l@), final(reader).pos as int)),
            Err(e) => read_syllables(old(reader).data@, old(reader).pos as int, count as nat)
                == Err::<(Seq<Seq<char>>, int), IndexError>(e),
        },
{
    let ghost d = reader.data@;
    let ghost p = reader.pos as int;
    let mut list: Vec<String> = Vec::new();
    let mut i: u32 = 0;
    assert(text_views(list@) =~= Seq::<Seq<char>>::empty());
    while i < count
        invariant
            reader.data@ == d,
            reader.data == old(reader).data,
            d == old(reader).data@,
            p == old(reader).pos,
            reader.pos <= d.len(),
            i <= count,
            read_syllables(d, p, i as nat) == Ok::<(Seq<Seq<char>>, int), IndexError>((text_views(list@), reader.pos as int)),
        decreases count - i,
    {
        let bytes = match reader.bytes() {
            Ok(b) => b,
            Err(e) => {
                proof {
                    lemma_syllables_stop(d, p, (i + 1) as nat, count as nat);
                }
                return Err(e);
            },
        };
        let text = match text_from(bytes) {
            Ok(t) => t,
            Err(e) => {
                proof {
                    lemma_syllables_stop(d, p, (i + 1) as nat, count as nat);
                }
                return Err(e);
            },
        };
        let ghost before = list@;
        list.push(text);
        assert(text_views(list@) =~= text_views(before).push(text@));
        i = i + 1;
    }
    Ok(list)
}

fn read_alternative_list(reader: &mut Reader, count: u8) -> (list: Result<Vec<(u32, u8)>, IndexError>)
    requires
        old(reader).pos <= old(reader).data@.len(),
    ensures
        final(reader).data == old(reader).data,
        final(reader).pos <= final(reader).data@.len(),
        match list {
            Ok(l) => read_alternatives(old(reader).data@, old(reader).pos as int, count as nat) == Some((l@, final(reader).pos as int)),
            Err(e) => e == IndexError::Truncated && read_alternatives(old(reader).data@, old(reader).pos as int, count as nat) is None,
        },
{
    let ghost d = reader.data@;
    let ghost p = reader.pos as int;
    let mut list: Vec<(u32, u8)> = Vec::new();
    let mut i: u8 = 0;
    while i < count
        invariant
            reader.data@ == d,
            reader.data == old(reader).data,
            d == old(reader).data@,
            p == old(reader).pos,
            reader.pos <= d.len(),
            i <= count,
            read_alternatives(d, p, i as nat) == Some((list@, reader.pos as int)),
        decreases count - i,
    {
        let syllable = match reader.u32() {
            Ok(v) => v,
            Err(e) => {
                proof {
                    lemma_alternatives_stop(d, p, (i + 1) as nat, count as nat);
                }
                return Err(e);
            },
        };
        let kind = match reader.u8() {
            Ok(v) => v,
            Err(e) => {
                proof {
                    lemma_alternatives_stop(d, p, (i + 1) as nat, count as nat);
                }
                return Err(e);
            },
        };
        list.push((syllable, kind));
        i = i + 1;
    }
    Ok(list)
}

/// The spelling records read, by views.
pub open spec fn spelling_views(list: Seq<(Vec<u8>, Vec<(u32, u8)>)>) -> Seq<(Seq<u8>, Seq<(u32, u8)>)> {
    list.map_values(|record: (Vec<u8>, Vec<(u32, u8)>)| (record.0@, record.1@))
}

/// The spelling records read match the model's, field by field.
pub open spec fn spellings_match(list: Seq<(Vec<u8>, Vec<(u32, u8)>)>, model: Seq<(Seq<u8>, Seq<(u32, u8)>)>) -> bool {
    spelling_views(list) == model
}

fn read_spelling_list(reader: &mut Reader, count: u32) -> (list: Result<Vec<(Vec<u8>, Vec<(u32, u8)>)>, IndexError>)
    requires
        old(reader).pos <= old(reader).data@.len(),
    ensures
        final(reader).data == old(reader).data,
        final(reader).pos <= final(reader).data@.len(),
        match list {
            Ok(l) => read_spellings(old(reader).data@, old(reader).pos as int, count as nat) matches Some((m, next))
                && next == final(reader).pos && spellings_match(l@, m),
            Err(e) => e == IndexError::Truncated && read_spellings(old(reader).data@, old(reader).pos as int, count as nat) is None,
        },
{
    let ghost d = reader.data@;
    let ghost p = reader.pos as int;
    let mut list: Vec<(Vec<u8>, Vec<(u32, u8)>)> = Vec::new();
    let mut i: u32 = 0;
    assert(spelling_views(list@) =~= Seq::<(Seq<u8>, Seq<(u32, u8)>)>::empty());
    while i < count
        invariant
            reader.data@ == d,
            reader.data == old(reader).data,
            d == old(reader).data@,
            p == old(reader).pos,
            reader.pos <= d.len(),
            i <= count,
            read_spellings(d, p, i as nat) matches Some((m, next)) && next == reader.pos && spellings_match(list@, m),
        decreases count - i,
    {
        let ghost prior = read_spellings(d, p, i as nat)->Some_0.0;
        let ghost q0 = reader.pos as int;
        let key = match reader.bytes() {
            Ok(v) => v,
            Err(e) => {
                proof {
                    lemma_spellings_stop(d, p, (i + 1) as nat, count as nat);
                }
                return Err(e);
            },
        };
        let ghost q1 = reader.pos as int;
        let n = match reader.u8() {
            Ok(v) => v,
            Err(e) => {
                proof {
                    lemma_spellings_stop(d, p, (i + 1) as nat, count as nat);
                }
                return Err(e);
            },
        };
        let ghost q2 = reader.pos as int;
        let alternatives = match read_alternative_list(reader, n) {
            Ok(v) => v,
            Err(e) => {
                proof {
                    lemma_spellings_stop(d, p, (i + 1) as nat, count as nat);
                }
                return Err(e);
            },
        };
        let mut key_bytes: Vec<u8> = Vec::new();
        key_bytes.extend_from_slice(key);
        assert(key_bytes@ =~= key@);
        let ghost before = list@;
        let ghost record = (key_bytes@, alternatives@);
        list.push((key_bytes, alternatives));
        proof {
            assert(read_bytes(d, q0) == Some((key@, q1)));
            assert(read_u8(d, q1) == Some((n, q2)));
            assert(read_alternatives(d, q2, n as nat) == Some((alternatives@, reader.pos as int)));
            assert(read_spellings(d, p, (i + 1) as nat) == Some((prior.push(record), reader.pos as int)));
            assert(spelling_views(list@) =~= spelling_views(before).push(record));
        }
        i = i + 1;
    }
    Ok(list)
}

fn read_code_list(reader: &mut Reader, count: u8) -> (list: Result<Vec<u16>, IndexError>)
    requires
        old(reader).pos <= old(reader).data@.len(),
    ensures
        final(reader).data == old(reader).data,
        final(reader).pos <= final(reader).data@.len(),
        match list {
            Ok(l) => read_codes(old(reader).data@, old(reader).pos as int, count as nat) == Some((l@, final(reader).pos as int)),
            Err(e) => e == IndexError::Truncated && read_codes(old(reader).data@, old(reader).pos as int, count as nat) is None,
        },
{
    let ghost d = reader.data@;
    let ghost p = reader.pos as int;
    let mut list: Vec<u16> = Vec::new();
    let mut i: u8 = 0;
    while i < count
        invariant
            reader.data@ == d,
            reader.data == old(reader).data,
            d == old(reader).data@,
            p == old(reader).pos,
            reader.pos <= d.len(),
            i <= count,
            read_codes(d, p, i as nat) == Some((list@, reader.pos as int)),
        decreases count - i,
    {
        let id = match reader.u16() {
            Ok(v) => v,
            Err(e) => {
                proof {
                    lemma_codes_stop(d, p, (i + 1) as nat, count as nat);
                }
                return Err(e);
            },
        };
        list.push(id);
        i = i + 1;
    }
    Ok(list)
}

/// The group records read, by views.
pub open spec fn group_views(list: Seq<(Vec<u16>, u32)>) -> Seq<(Seq<u16>, u32)> {
    list.map_values(|record: (Vec<u16>, u32)| (record.0@, record.1))
}

/// The group records read match the model's, field by field.
pub open spec fn groups_match(list: Seq<(Vec<u16>, u32)>, model: Seq<(Seq<u16>, u32)>) -> bool {
    group_views(list) == model
}

fn read_group_list(reader: &mut Reader, count: u32) -> (list: Result<Vec<(Vec<u16>, u32)>, IndexError>)
    requires
        old(reader).pos <= old(reader).data@.len(),
    ensures
        final(reader).data == old(reader).data,
        final(reader).pos <= final(reader).data@.len(),
        match list {
            Ok(l) => read_groups(old(reader).data@, old(reader).pos as int, count as nat) matches Some((m, next))
                && next == final(reader).pos && groups_match(l@, m),
            Err(e) => e == IndexError::Truncated && read_groups(old(reader).data@, old(reader).pos as int, count as nat) is None,
        },
{
    let ghost d = reader.data@;
    let ghost p = reader.pos as int;
    let mut list: Vec<(Vec<u16>, u32)> = Vec::new();
    let mut i: u32 = 0;
    assert(group_views(list@) =~= Seq::<(Seq<u16>, u32)>::empty());
    while i < count
        invariant
            reader.data@ == d,
            reader.data == old(reader).data,
            d == old(reader).data@,
            p == old(reader).pos,
            reader.pos <= d.len(),
            i <= count,
            read_groups(d, p, i as nat) matches Some((m, next)) && next == reader.pos && groups_match(list@, m),
        decreases count - i,
    {
        let ghost prior = read_groups(d, p, i as nat)->Some_0.0;
        let n = match reader.u8() {
            Ok(v) => v,
            Err(e) => {
                proof {
                    lemma_groups_stop(d, p, (i + 1) as nat, count as nat);
                }
                return Err(e);
            },
        };
        let code = match read_code_list(reader, n) {
            Ok(v) => v,
            Err(e) => {
                proof {
                    lemma_groups_stop(d, p, (i + 1) as nat, count as nat);
                }
                return Err(e);
            },
        };
        let entries = match reader.u32() {
            Ok(v) => v,
            Err(e) => {
                proof {
                    lemma_groups_stop(d, p, (i + 1) as nat, count as nat);
                }
                return Err(e);
            },
        };
        let ghost before = list@;
        let ghost record = (code@, entries);
        list.push((code, entries));
        proof {
            assert(group_views(list@) =~= group_views(before).push(record));
        }
        i = i + 1;
    }
    Ok(list)
}

/// The entry records read, by views.
spec fn entry_views(list: Seq<Entry>) -> Seq<(u32, Seq<char>)> {
    list.map_values(|entry: Entry| (entry.weight, entry.text@))
}

/// The entry records read match the model's, field by field.
spec fn entries_match(list: Seq<Entry>, model: Seq<(u32, Seq<char>)>) -> bool {
    entry_views(list) == model
}

fn read_entry_list(reader: &mut Reader, count: u32) -> (list: Result<Vec<Entry>, IndexError>)
    requires
        old(reader).pos <= old(reader).data@.len(),
    ensures
        final(reader).data == old(reader).data,
        final(reader).pos <= final(reader).data@.len(),
        match list {
            Ok(l) => read_entries(old(reader).data@, old(reader).pos as int, count as nat) matches Ok((m, next))
                && next == final(reader).pos && entries_match(l@, m),
            Err(e) => read_entries(old(reader).data@, old(reader).pos as int, count as nat) == Err::<(Seq<(u32, Seq<char>)>, int), IndexError>(e),
        },
{
    let ghost d = reader.data@;
    let ghost p = reader.pos as int;
    let mut list: Vec<Entry> = Vec::new();
    let mut i: u32 = 0;
    assert(entry_views(list@) =~= Seq::<(u32, Seq<char>)>::empty());
    while i < count
        invariant
            reader.data@ == d,
            reader.data == old(reader).data,
            d == old(reader).data@,
            p == old(reader).pos,
            reader.pos <= d.len(),
            i <= count,
            read_entries(d, p, i as nat) matches Ok((m, next)) && next == reader.pos && entries_match(list@, m),
        decreases count - i,
    {
        let ghost prior = read_entries(d, p, i as nat)->Ok_0.0;
        let weight = match reader.u32() {
            Ok(v) => v,
            Err(e) => {
                proof {
                    lemma_entries_stop(d, p, (i + 1) as nat, count as nat);
                }
                return Err(e);
            },
        };
        let bytes = match reader.bytes() {
            Ok(v) => v,
            Err(e) => {
                proof {
                    lemma_entries_stop(d, p, (i + 1) as nat, count as nat);
                }
                return Err(e);
            },
        };
        let text = match text_from(bytes) {
            Ok(t) => t,
            Err(e) => {
                proof {
                    lemma_entries_stop(d, p, (i + 1) as nat, count as nat);
                }
                return Err(e);
            },
        };
        let ghost before = list@;
        let ghost record = (weight, text@);
        list.push(Entry { weight, text });
        proof {
            assert(entry_views(list@) =~= entry_views(before).push(record));
        }
        i = i + 1;
    }
    Ok(list)
}

/// A list of entries that reads holds as many entries as asked.
pub proof fn lemma_entries_len(data: Seq<u8>, pos: int, n: nat)
    requires
        read_entries(data, pos, n) is Ok,
    ensures
        read_entries(data, pos, n)->Ok_0.0.len() == n,
    decreases n,
{
    if n > 0 {
        lemma_entries_len(data, pos, (n - 1) as nat);
    }
}

/// `claimed_entries` never shrinks as groups are added.
pub proof fn lemma_claimed_grows(groups: Seq<(Seq<u16>, u32)>, m: int, n: int)
    requires
        0 <= m <= n <= groups.len(),
    ensures
        claimed_entries(groups, m) <= claimed_entries(groups, n),
    decreases n - m,
{
    if m < n {
        lemma_claimed_grows(groups, m, n - 1);
    }
}

fn bytes_equal(a: &[u8], b: &[u8]) -> (equal: bool)
    ensures
        equal == (a@ == b@),
{
    if a.len() != b.len() {
        return false;
    }
    let mut i: usize = 0;
    while i < a.len()
        invariant
            i <= a.len() == b.len(),
            forall|j: int| 0 <= j < i ==> a@[j] == b@[j],
        decreases a.len() - i,
    {
        if a[i] != b[i] {
            return false;
        }
        i = i + 1;
    }
    assert(a@ =~= b@);
    true
}

fn build_readings(syllables: &Vec<String>, groups: &Vec<Group>, entries: &Vec<Entry>, Ghost(model): Ghost<IndexModel>) -> (table: ReadingTable)
    requires
        model.syllables == text_views(syllables@),
        groups@.len() == model.groups.len(),
        forall|k: int| 0 <= k < groups@.len() ==> (#[trigger] groups@[k]).code@ == model.groups[k].0
            && groups@[k].count == model.groups[k].1 && groups@[k].first == claimed_entries(model.groups, k),
        claimed_entries(model.groups, model.groups.len() as int) == entries@.len(),
        entries@.len() == model.entries.len(),
        forall|k: int| 0 <= k < entries@.len() ==> (#[trigger] entries@[k]).text@ == model.entries[k].1,
        codes_known(model.groups, model.syllables.len()),
    ensures
        reading_table_contents(table) == character_readings(model, model.groups.len() as int),
{
    let mut table = ReadingTable::new();
    let mut g: usize = 0;
    while g < groups.len()
        invariant
            g <= groups@.len(),
            model.syllables == text_views(syllables@),
            groups@.len() == model.groups.len(),
            forall|k: int| 0 <= k < groups@.len() ==> (#[trigger] groups@[k]).code@ == model.groups[k].0
                && groups@[k].count == model.groups[k].1 && groups@[k].first == claimed_entries(model.groups, k),
            claimed_entries(model.groups, model.groups.len() as int) == entries@.len(),
            entries@.len() == model.entries.len(),
            forall|k: int| 0 <= k < entries@.len() ==> (#[trigger] entries@[k]).text@ == model.entries[k].1,
            codes_known(model.groups, model.syllables.len()),
            reading_table_contents(table) == character_readings(model, g as int),
        decreases groups.len() - g,
    {
        let group = &groups[g];
        let mut reading = String::new();
        let mut k: usize = 0;
        while k < group.code.len()
            invariant
                k <= group.code@.len(),
                group.code@ == model.groups[g as int].0,
                model.syllables == text_views(syllables@),
                forall|b: int| 0 <= b < group.code@.len() ==> (#[trigger] group.code@[b]) < syllables@.len(),
                reading@ == reading_of(model.syllables, group.code@.take(k as int)),
            decreases group.code@.len() - k,
        {
            proof {
                assert(group.code@.take(k + 1).drop_last() =~= group.code@.take(k as int));
                assert(group.code@.take(k + 1).last() == group.code@[k as int]);
            }
            push_str(&mut reading, syllables[group.code[k] as usize].as_str());
            k = k + 1;
        }
        assert(group.code@.take(k as int) =~= group.code@);
        proof {
            lemma_claimed_grows(model.groups, g + 1, model.groups.len() as int);
        }
        let first = group.first as usize;
        let ghost start_table = reading_table_contents(table);
        let mut j: usize = 0;
        while j < group.count as usize
            invariant
                j <= group.count,
                first == claimed_entries(model.groups, g as int),
                group.count == model.groups[g as int].1,
                first + group.count <= entries@.len(),
                first + group.count <= entries.len(),
                entries@.len() == model.entries.len(),
                forall|k: int| 0 <= k < entries@.len() ==> (#[trigger] entries@[k]).text@ == model.entries[k].1,
                reading@ == reading_of(model.syllables, model.groups[g as int].0),
                reading_table_contents(table) == group_readings(model, start_table, g as int, first as int, j as int),
            decreases group.count - j,
        {
            let text = &entries[first + j].text;
            let chars = crate::learning::char_vec(text.as_str());
            if chars.len() == 1 {
                let ch = chars[0];
                let ghost current = reading_table_contents(table);
                let mut list: Vec<String> = Vec::new();
                let mut present = false;
                match table.get(ch) {
                    Some(existing) => {
                        let mut m: usize = 0;
                        while m < existing.len()
                            invariant
                                m <= existing@.len(),
                                text_views(list@) == text_views(existing@).take(m as int),
                                present == text_views(existing@).take(m as int).contains(reading@),
                            decreases existing.len() - m,
                        {
                            let ghost prefix = text_views(existing@).take(m as int);
                            let ghost before = list@;
                            proof {
                                assert(text_views(existing@).take(m + 1) =~= prefix.push(existing@[m as int]@));
                            }
                            let equal = crate::text::str_eq(existing[m].as_str(), reading.as_str());
                            proof {
                                let next = prefix.push(existing@[m as int]@);
                                if equal {
                                    assert(next[m as int] == reading@);
                                } else if prefix.contains(reading@) {
                                    let w = choose|w: int| 0 <= w < prefix.len() && prefix[w] == reading@;
                                    assert(next[w] == reading@);
                                } else {
                                    assert forall|w: int| 0 <= w < next.len() implies next[w] != reading@ by {
                                        if w < m {
                                            assert(next[w] == prefix[w]);
                                        }
                                    }
                                }
                            }
                            if equal {
                                present = true;
                            }
                            list.push(existing[m].clone());
                            proof {
                                assert(text_views(list@) =~= text_views(before).push(existing@[m as int]@));
                            }
                            m = m + 1;
                        }
                        assert(text_views(existing@).take(m as int) =~= text_views(existing@));
                    },
                    None => {
                        assert(text_views(list@) =~= Seq::<Seq<char>>::empty());
                    },
                }
                if !present {
                    let ghost before_list = list@;
                    list.push(to_owned_string(reading.as_str()));
                    assert(text_views(list@) =~= text_views(before_list).push(reading@));
                    table.insert(ch, list);
                }
                proof {
                    assert(reading_table_contents(table) =~= add_reading(current, ch, reading@));
                }
            }
            j = j + 1;
        }
        g = g + 1;
    }
    table
}

// ---------------------------------------------------------------- lookup input

/// The lookup input: the prefix character, lower-case letters, then at most one `'` at
/// the very end.
pub open spec fn spec_matches_pattern(input: Seq<u8>, prefix: u8) -> bool {
    &&& input.len() > 0
    &&& input[0] == prefix
    &&& forall|i: int| 1 <= i < input.len() ==> (0x61 <= #[trigger] input[i] && input[i] <= 0x7a)
        || (input[i] == 0x27 && i == input.len() - 1)
}

/// Whether the input has the lookup's shape `<prefix>[a-z]*'?` (the prefix taken as a byte).
pub fn matches_pattern(input: &[u8], prefix: char) -> (matches: bool)
    ensures
        matches == spec_matches_pattern(input@, prefix as u8),
{
    let prefix = prefix as u8;
    if input.len() == 0 || input[0] != prefix {
        return false;
    }
    let mut quote = false;
    let mut i: usize = 1;
    while i < input.len()
        invariant
            1 <= i <= input.len(),
            input@[0] == prefix,
            quote ==> i == input.len(),
            forall|k: int| 1 <= k < i ==> (0x61 <= #[trigger] input@[k] && input@[k] <= 0x7a)
                || (input@[k] == 0x27 && k == input@.len() - 1),
        decreases input.len() - i,
    {
        let byte = input[i];
        if 0x61 <= byte && byte <= 0x7a && !quote {
            i = i + 1;
            continue;
        }
        if byte == 0x27 && !quote && i + 1 == input.len() {
            quote = true;
            i = i + 1;
            continue;
        }
        proof {
            assert(!((0x61 <= input@[i as int] && input@[i as int] <= 0x7a) || (input@[i as int] == 0x27 && i
                == input@.len() - 1)));
        }
        return false;
    }
    true
}

/// Width class of a punctuation symbol, as librime's punctuation candidates comment it.
pub open spec fn half_shape_code(code: u32) -> bool {
    (0x20 <= code && code < 0x7f) || (0xff61 <= code && code <= 0xff9f) || (0xffa0 <= code && code <= 0xffdc)
        || code == 0x00a2 || code == 0x00a3 || code == 0x00a5 || code == 0x00a6 || code == 0x00ac
        || code == 0x00af || code == 0x2985 || code == 0x2986 || (0xffe8 <= code && code <= 0xffee)
}

/// Full-width symbols: ideographic space, full-width ASCII, kana, hangul and wide symbols.
pub open spec fn full_shape_code(code: u32) -> bool {
    code == 0x3000 || (0xff01 <= code && code <= 0xff5e) || (0x30a1 <= code && code <= 0x30fc) || code
        == 0x3001 || code == 0x3002 || code == 0x300c || code == 0x300d || code == 0x309b || code == 0x309c
        || (0x3131 <= code && code <= 0x3164) || code == 0xff5f || code == 0xff60 || (0xffe0 <= code && code
        <= 0xffe6) || (0x2190 <= code && code <= 0x2193) || code == 0x2502 || code == 0x25a0 || code == 0x25cb
}

/// The width comment of a punctuation text: `〔半角〕` or `〔全角〕` for one character of a
/// known class, empty otherwise.
pub open spec fn spec_punct_shape_comment(punct: Seq<char>) -> Seq<char> {
    if punct.len() != 1 {
        Seq::empty()
    } else if half_shape_code(punct[0] as u32) {
        "〔半角〕"@
    } else if full_shape_code(punct[0] as u32) {
        "〔全角〕"@
    } else {
        Seq::empty()
    }
}

/// Law: the width comment of a punctuation text. Only a single character is commented.
/// Half width (`〔半角〕`): printable ASCII U+0020–U+007E, half-width katakana
/// U+FF61–U+FF9F and hangul U+FFA0–U+FFDC, the narrow symbols ¢ £ ¥ ¦ ¬ ¯ ⦅ ⦆, and the
/// half-width forms U+FFE8–U+FFEE. Full width (`〔全角〕`): the ideographic space U+3000, the
/// ideographic comma and full stop U+3001 and U+3002, the corner brackets U+300C and U+300D,
/// the full-width forms U+FF01–U+FF5E, katakana U+30A1–U+30FC with the sound marks U+309B
/// and U+309C, hangul letters U+3131–U+3164, the full-width brackets U+FF5F and U+FF60 and
/// signs U+FFE0–U+FFE6, the arrows U+2190–U+2193, and │ ■ ○. Anything else has no comment.
pub proof fn law_punct_shape_comment_classes(text: Seq<char>)
    ensures
        text.len() != 1 ==> spec_punct_shape_comment(text) == Seq::<char>::empty(),
        text.len() == 1 ==> ({
            let c = text[0] as u32;
            let half = (0x20 <= c && c <= 0x7e) || (0xff61 <= c && c <= 0xff9f) || (0xffa0 <= c && c <= 0xffdc)
                || c == 0xa2 || c == 0xa3 || c == 0xa5 || c == 0xa6 || c == 0xac || c == 0xaf || c == 0x2985
                || c == 0x2986 || (0xffe8 <= c && c <= 0xffee);
            let full = c == 0x3000 || c == 0x3001 || c == 0x3002 || c == 0x300c || c == 0x300d || (0xff01 <= c && c
                <= 0xff5e) || (0x30a1 <= c && c <= 0x30fc) || c == 0x309b || c == 0x309c || (0x3131 <= c && c
                <= 0x3164) || c == 0xff5f || c == 0xff60 || (0xffe0 <= c && c <= 0xffe6) || (0x2190 <= c && c
                <= 0x2193) || c == 0x2502 || c == 0x25a0 || c == 0x25cb;
            &&& half ==> spec_punct_shape_comment(text) == "〔半角〕"@
            &&& !half && full ==> spec_punct_shape_comment(text) == "〔全角〕"@
            &&& !half && !full ==> spec_punct_shape_comment(text) == Seq::<char>::empty()
        }),
{
}

/// The width comment librime gives a punctuation candidate.
pub fn punct_shape_comment(punct: &str) -> (comment: String)
    ensures
        comment@ == spec_punct_shape_comment(punct@),
{
    let chars = crate::learning::char_vec(punct);
    if chars.len() != 1 {
        return String::new();
    }
    let code = chars[0] as u32;
    let half = (0x20 <= code && code < 0x7f) || (0xff61 <= code && code <= 0xff9f) || (0xffa0 <= code && code
        <= 0xffdc) || code == 0x00a2 || code == 0x00a3 || code == 0x00a5 || code == 0x00a6 || code == 0x00ac
        || code == 0x00af || code == 0x2985 || code == 0x2986 || (0xffe8 <= code && code <= 0xffee);
    let full = code == 0x3000 || (0xff01 <= code && code <= 0xff5e) || (0x30a1 <= code && code <= 0x30fc)
        || code == 0x3001 || code == 0x3002 || code == 0x300c || code == 0x300d || code == 0x309b || code
        == 0x309c || (0x3131 <= code && code <= 0x3164) || code == 0xff5f || code == 0xff60 || (0xffe0 <= code
        && code <= 0xffe6) || (0x2190 <= code && code <= 0x2193) || code == 0x2502 || code == 0x25a0 || code
        == 0x25cb;
    if half {
        to_owned_string("〔半角〕")
    } else if full {
        to_owned_string("〔全角〕")
    } else {
        String::new()
    }
}

/// The candidate librime's punctuation translator makes of a text over `[start, end)`: kind
/// `punct`, the width comment, and the text as preedit when the span is one byte long.
pub open spec fn punct_candidate_of(candidate: Candidate, text: Seq<char>, start: usize, end: usize) -> bool {
    &&& candidate.kind@ == "punct"@
    &&& candidate.start == start
    &&& candidate.end == end
    &&& candidate.text@ == text
    &&& candidate.comment@ == spec_punct_shape_comment(text)
    &&& if end >= start && end - start == 1 {
        candidate.preedit@ == text
    } else {
        candidate.preedit@.len() == 0
    }
}

/// The candidate of a bare lookup prefix: the punctuation the prefix key commits in the
/// given shape (a pair gives its halves in turn), `None` without a table or a definition.
pub fn punct_candidate(
    punct: Option<&mut PunctTable>,
    prefix: char,
    full_shape: bool,
    start: usize,
    end: usize,
) -> (candidate: Option<Candidate>)
    ensures
        punct is None ==> candidate is None,
        punct is Some ==> {
            let before = *punct.unwrap();
            let after = *final(punct.unwrap());
            &&& after.shape(true) == before.shape(true)
            &&& after.shape(false) == before.shape(false)
            &&& match candidate {
                None => !before.shape(full_shape).contains_key(prefix)
                    && after.pair_state() == before.pair_state(),
                Some(c) => before.shape(full_shape).contains_key(prefix) && punct_candidate_of(
                    c,
                    definition_text(before.shape(full_shape)[prefix], before.pair_state().oddness(prefix, full_shape)),
                    start,
                    end,
                ),
            }
        },
{
    if punct.is_none() {
        return None;
    }
    let table = punct.unwrap();
    let text = match table.resolve(prefix, full_shape) {
        Some(text) => text,
        None => {
            return None;
        },
    };
    let comment = punct_shape_comment(text.as_str());
    let mut candidate = Candidate::new("punct", start, end, text.as_str(), comment.as_str());
    if end >= start && end - start == 1 {
        candidate.preedit = text;
    }
    Some(candidate)
}

/// The bytes `flate2`'s gzip decoder produces from compressed data (`None` when the data
/// does not decompress).
pub uninterp spec fn gunzipped(data: Seq<u8>) -> Option<Seq<u8>>;

/// `flate2::read::GzDecoder` read to the end: the decompressed bytes, named by [`gunzipped`].
#[verifier::external_body]
fn gunzip(data: &[u8]) -> (out: Option<Vec<u8>>)
    ensures
        match out {
            Some(bytes) => gunzipped(data@) == Some(bytes@),
            None => gunzipped(data@) is None,
        },
{
    let mut decoder = flate2::read::GzDecoder::new(data);
    let mut bytes = Vec::new();
    match std::io::Read::read_to_end(&mut decoder, &mut bytes) {
        Ok(_) => Some(bytes),
        Err(_) => None,
    }
}

/// Data that starts with the gzip magic bytes.
pub open spec fn gzip_data(raw: Seq<u8>) -> bool {
    raw.len() >= 2 && raw[0] == 0x1f && raw[1] == 0x8b
}

/// The index in raw file contents: decompressed first when gzip-compressed.
pub open spec fn spec_index_from_bytes(raw: Seq<u8>) -> Result<IndexModel, IndexError> {
    if gzip_data(raw) {
        match gunzipped(raw) {
            None => Err(IndexError::BadCompression),
            Some(data) => spec_parse(data),
        }
    } else {
        spec_parse(raw)
    }
}

impl PinyinIndex {
    /// Reads an index from file contents (gzip is recognised by its magic bytes).
    pub fn from_bytes(raw: &[u8]) -> (index: Result<PinyinIndex, IndexError>)
        ensures
            match index {
                Ok(i) => spec_index_from_bytes(raw@) matches Ok(model) && i.model_of(model),
                Err(e) => spec_index_from_bytes(raw@) == Err::<IndexModel, IndexError>(e),
            },
    {
        if raw.len() >= 2 && raw[0] == 0x1f && raw[1] == 0x8b {
            match gunzip(raw) {
                None => Err(IndexError::BadCompression),
                Some(data) => PinyinIndex::parse(data.as_slice()),
            }
        } else {
            PinyinIndex::parse(raw)
        }
    }
}

// ---------------------------------------------------------------- syllable graph

/// The index's type marks of a spelling: the syllable itself, or an abbreviation.
pub const TYPE_NORMAL: u8 = 0;
pub const TYPE_ABBREV: u8 = 1;

impl PinyinIndex {
    /// The spelling table: key bytes → alternatives (syllable id, type mark).
    pub closed spec fn spelling_table(&self) -> Seq<(Seq<u8>, Seq<(u32, u8)>)> {
        self.spellings@.map_values(|entry: (Vec<u8>, Vec<(u32, u8)>)| (entry.0@, entry.1@))
    }
}

/// An index holding `model` has the model's spelling table.
pub proof fn lemma_parsed_spellings(index: PinyinIndex, model: IndexModel)
    requires
        index.model_of(model),
    ensures
        index.spelling_table() == model.spellings,
{
    assert(index.spelling_table() =~= model.spellings);
}

/// The edge a spelling alternative makes, ending at `end`; from the completion of a tail
/// a non-abbreviated spelling counts as a completion.
pub open spec fn spelling_edge(alternative: (u32, u8), end: int, completion: bool) -> SyllableEdge {
    SyllableEdge {
        end: end as usize,
        syllable: alternative.0,
        kind: if alternative.1 == TYPE_ABBREV {
            KIND_ABBREV
        } else if completion {
            KIND_COMPLETION
        } else {
            KIND_NORMAL
        },
        spelling: alternative.1,
    }
}

/// The edges of a list of alternatives, in order.
pub open spec fn alternative_edges(alternatives: Seq<(u32, u8)>, end: int, completion: bool) -> Seq<SyllableEdge>
    decreases alternatives.len(),
{
    if alternatives.len() == 0 {
        Seq::empty()
    } else {
        alternative_edges(alternatives.drop_last(), end, completion).push(spelling_edge(alternatives.last(), end, completion))
    }
}

/// The edges from `position` of the first `count` spellings, in table order: each non-empty
/// key the code continues with at `position` gives one edge per alternative.
pub open spec fn matched_edges(spellings: Seq<(Seq<u8>, Seq<(u32, u8)>)>, code: Seq<u8>, position: int, count: int) -> Seq<SyllableEdge>
    decreases count,
{
    if count <= 0 || count > spellings.len() {
        Seq::empty()
    } else {
        let key = spellings[count - 1].0;
        if key.len() > 0 && position + key.len() <= code.len() && code.subrange(position, position + key.len()) == key {
            matched_edges(spellings, code, position, count - 1) + alternative_edges(
                spellings[count - 1].1,
                position + key.len(),
                false,
            )
        } else {
            matched_edges(spellings, code, position, count - 1)
        }
    }
}

/// The completion edges of the first `count` spellings for an unmatched `tail`: each key
/// that begins with the tail gives one edge per alternative, ending at `end`.
pub open spec fn completion_edges(spellings: Seq<(Seq<u8>, Seq<(u32, u8)>)>, tail: Seq<u8>, end: int, count: int) -> Seq<SyllableEdge>
    decreases count,
{
    if count <= 0 || count > spellings.len() {
        Seq::empty()
    } else {
        let key = spellings[count - 1].0;
        if tail.len() <= key.len() && key.subrange(0, tail.len() as int) == tail {
            completion_edges(spellings, tail, end, count - 1) + alternative_edges(spellings[count - 1].1, end, true)
        } else {
            completion_edges(spellings, tail, end, count - 1)
        }
    }
}

/// `a` sorts after `b`: by syllable, then by end.
pub open spec fn edge_after(a: SyllableEdge, b: SyllableEdge) -> bool {
    a.syllable > b.syllable || (a.syllable == b.syllable && a.end > b.end)
}

/// `sorted` with `edge` placed before the first edge that sorts after it.
pub open spec fn insert_edge(sorted: Seq<SyllableEdge>, edge: SyllableEdge) -> Seq<SyllableEdge>
    decreases sorted.len(),
{
    if sorted.len() == 0 {
        seq![edge]
    } else if edge_after(sorted[0], edge) {
        seq![edge] + sorted
    } else {
        seq![sorted[0]] + insert_edge(sorted.drop_first(), edge)
    }
}

/// The edges ordered by syllable and end, equal keys keeping their order.
pub open spec fn sorted_edges(edges: Seq<SyllableEdge>) -> Seq<SyllableEdge>
    decreases edges.len(),
{
    if edges.len() == 0 {
        Seq::empty()
    } else {
        insert_edge(sorted_edges(edges.drop_last()), edges.last())
    }
}

/// Inserting before the first edge that sorts after, found at `k`.
proof fn lemma_insert_edge_at(sorted: Seq<SyllableEdge>, edge: SyllableEdge, k: int)
    requires
        0 <= k <= sorted.len(),
        forall|j: int| 0 <= j < k ==> !edge_after(#[trigger] sorted[j], edge),
        k < sorted.len() ==> edge_after(sorted[k], edge),
    ensures
        insert_edge(sorted, edge) == sorted.take(k).push(edge) + sorted.skip(k),
    decreases k,
{
    if k == 0 {
        assert(sorted.take(0).push(edge) + sorted.skip(0) =~= insert_edge(sorted, edge));
    } else {
        lemma_insert_edge_at(sorted.drop_first(), edge, k - 1);
        assert(seq![sorted[0]] + (sorted.drop_first().take(k - 1).push(edge) + sorted.drop_first().skip(k - 1))
            =~= sorted.take(k).push(edge) + sorted.skip(k));
    }
}

/// Orders edges by syllable and end, keeping the order of equal keys.
pub fn sort_edges(edges: &Vec<SyllableEdge>) -> (sorted: Vec<SyllableEdge>)
    ensures
        sorted@ == sorted_edges(edges@),
{
    let mut out: Vec<SyllableEdge> = Vec::new();
    let mut i: usize = 0;
    assert(edges@.take(0) =~= Seq::<SyllableEdge>::empty());
    while i < edges.len()
        invariant
            i <= edges@.len(),
            out@ == sorted_edges(edges@.take(i as int)),
        decreases edges.len() - i,
    {
        let edge = edges[i];
        let mut k: usize = 0;
        while k < out.len() && !(out[k].syllable > edge.syllable || (out[k].syllable == edge.syllable && out[k].end > edge.end))
            invariant
                k <= out@.len(),
                forall|j: int| 0 <= j < k ==> !edge_after(#[trigger] out@[j], edge),
            decreases out.len() - k,
        {
            k = k + 1;
        }
        proof {
            lemma_insert_edge_at(out@, edge, k as int);
            assert(edges@.take(i + 1).drop_last() =~= edges@.take(i as int));
            assert(edges@.take(i + 1).last() == edge);
        }
        let ghost before = out@;
        out.insert(k, edge);
        assert(out@ =~= before.take(k as int).push(edge) + before.skip(k as int));
        i = i + 1;
    }
    assert(edges@.take(i as int) =~= edges@);
    out
}

/// Appends the edges of `alternatives` ending at `end`.
fn push_alternatives(out: &mut Vec<SyllableEdge>, alternatives: &Vec<(u32, u8)>, end: usize, completion: bool)
    ensures
        final(out)@ == old(out)@ + alternative_edges(alternatives@, end as int, completion),
{
    let mut i: usize = 0;
    assert(old(out)@ + alternative_edges(alternatives@.take(0), end as int, completion) =~= old(out)@);
    while i < alternatives.len()
        invariant
            i <= alternatives@.len(),
            out@ == old(out)@ + alternative_edges(alternatives@.take(i as int), end as int, completion),
        decreases alternatives.len() - i,
    {
        let (syllable, mark) = alternatives[i];
        let kind = if mark == TYPE_ABBREV {
            KIND_ABBREV
        } else if completion {
            KIND_COMPLETION
        } else {
            KIND_NORMAL
        };
        let ghost before = out@;
        out.push(SyllableEdge { end, syllable, kind, spelling: mark });
        proof {
            assert(alternatives@.take(i + 1).drop_last() =~= alternatives@.take(i as int));
            assert(alternatives@.take(i + 1).last() == alternatives@[i as int]);
            assert(out@ =~= before.push(spelling_edge(alternatives@[i as int], end as int, completion)));
        }
        i = i + 1;
    }
    assert(alternatives@.take(i as int) =~= alternatives@);
}

/// The spelling edges of each input position, ordered by syllable and end (the last
/// position has none).
pub fn build_edges(index: &PinyinIndex, code: &[u8]) -> (edges: Vec<Vec<SyllableEdge>>)
    requires
        code@.len() < usize::MAX,
    ensures
        edges@.len() == code@.len() + 1,
        forall|p: int|
            0 <= p < code@.len() ==> (#[trigger] edges@[p])@ == sorted_edges(
                matched_edges(index.spelling_table(), code@, p, index.spelling_table().len() as int),
            ),
        edges@[code@.len() as int]@.len() == 0,
{
    let len = code.len();
    let ghost table = index.spelling_table();
    let mut edges: Vec<Vec<SyllableEdge>> = Vec::new();
    let mut position: usize = 0;
    while position < len
        invariant
            len == code@.len(),
            position <= len,
            table == index.spelling_table(),
            edges@.len() == position,
            forall|p: int| 0 <= p < position ==> (#[trigger] edges@[p])@ == sorted_edges(
                matched_edges(table, code@, p, table.len() as int),
            ),
        decreases len - position,
    {
        let mut found: Vec<SyllableEdge> = Vec::new();
        let mut s: usize = 0;
        while s < index.spellings.len()
            invariant
                len == code@.len(),
                position < len,
                table == index.spelling_table(),
                s <= table.len(),
                found@ == matched_edges(table, code@, position as int, s as int),
            decreases index.spellings.len() - s,
        {
            let key = &index.spellings[s].0;
            let alternatives = &index.spellings[s].1;
            proof {
                assert(table[s as int] == (key@, alternatives@));
            }
            if key.len() > 0 && key.len() <= len - position && crate::decode::bytes_start_at(code, position, key.as_slice()) {
                push_alternatives(&mut found, alternatives, position + key.len(), false);
            }
            s = s + 1;
        }
        let sorted = sort_edges(&found);
        edges.push(sorted);
        position = position + 1;
    }
    edges.push(Vec::new());
    edges
}

/// Completes the unmatched tail `code[farthest..]`: every spelling key beginning with it
/// adds an edge per alternative from `farthest` to the end of the input (a completion
/// unless abbreviated), the list then ordered again. Returns whether any edge was added.
pub fn complete(index: &PinyinIndex, edges: &mut Vec<Vec<SyllableEdge>>, code: &[u8], farthest: usize) -> (added: bool)
    requires
        farthest <= code@.len(),
        farthest < old(edges)@.len(),
    ensures
        added == (completion_edges(
            index.spelling_table(),
            code@.subrange(farthest as int, code@.len() as int),
            code@.len() as int,
            index.spelling_table().len() as int,
        ).len() > 0),
        graph_of(final(edges)@) == if added {
            graph_of(old(edges)@).update(
                farthest as int,
                sorted_edges(old(edges)@[farthest as int]@ + completion_edges(
                    index.spelling_table(),
                    code@.subrange(farthest as int, code@.len() as int),
                    code@.len() as int,
                    index.spelling_table().len() as int,
                )),
            )
        } else {
            graph_of(old(edges)@)
        },
{
    let len = code.len();
    let tail = slice_subrange(code, farthest, len);
    let ghost table = index.spelling_table();
    let mut found: Vec<SyllableEdge> = Vec::new();
    let mut s: usize = 0;
    while s < index.spellings.len()
        invariant
            table == index.spelling_table(),
            s <= table.len(),
            tail@ == code@.subrange(farthest as int, len as int),
            len == code@.len(),
            found@ == completion_edges(table, tail@, len as int, s as int),
        decreases index.spellings.len() - s,
    {
        let key = &index.spellings[s].0;
        let alternatives = &index.spellings[s].1;
        proof {
            assert(table[s as int] == (key@, alternatives@));
        }
        if crate::decode::bytes_start_at(key.as_slice(), 0, tail) {
            push_alternatives(&mut found, alternatives, len, true);
        }
        s = s + 1;
    }
    if found.len() == 0 {
        assert(graph_of(edges@) =~= graph_of(old(edges)@));
        return false;
    }
    let mut combined: Vec<SyllableEdge> = Vec::new();
    let mut i: usize = 0;
    while i < edges[farthest].len()
        invariant
            farthest < edges@.len(),
            edges@ == old(edges)@,
            i <= edges@[farthest as int]@.len(),
            combined@ == edges@[farthest as int]@.take(i as int),
        decreases edges@[farthest as int]@.len() - i,
    {
        combined.push(edges[farthest][i]);
        assert(combined@ =~= edges@[farthest as int]@.take(i + 1));
        i = i + 1;
    }
    let mut j: usize = 0;
    let ghost head = combined@;
    while j < found.len()
        invariant
            j <= found@.len(),
            combined@ == head + found@.take(j as int),
        decreases found.len() - j,
    {
        combined.push(found[j]);
        assert(combined@ =~= head + found@.take(j + 1));
        j = j + 1;
    }
    assert(head =~= old(edges)@[farthest as int]@);
    assert(found@.take(j as int) =~= found@);
    let sorted = sort_edges(&combined);
    edges.set(farthest, sorted);
    assert(graph_of(edges@) =~= graph_of(old(edges)@).update(farthest as int, sorted@));
    true
}

/// Every edge of an ordered list is an edge of the list.
proof fn lemma_sorted_members(edges: Seq<SyllableEdge>, edge: SyllableEdge)
    requires
        sorted_edges(edges).contains(edge),
    ensures
        edges.contains(edge),
    decreases edges.len(),
{
    if edges.len() > 0 {
        let rest = sorted_edges(edges.drop_last());
        lemma_insert_members(rest, edges.last(), edge);
        if edge != edges.last() {
            lemma_sorted_members(edges.drop_last(), edge);
            let k = choose|k: int| 0 <= k < edges.drop_last().len() && edges.drop_last()[k] == edge;
            assert(edges[k] == edge);
        } else {
            assert(edges[edges.len() - 1] == edge);
        }
    }
}

/// An edge of an insertion is the inserted edge or one of the list.
proof fn lemma_insert_members(sorted: Seq<SyllableEdge>, inserted: SyllableEdge, edge: SyllableEdge)
    requires
        insert_edge(sorted, inserted).contains(edge),
    ensures
        edge == inserted || sorted.contains(edge),
    decreases sorted.len(),
{
    if sorted.len() > 0 && !edge_after(sorted[0], inserted) {
        let whole = insert_edge(sorted, inserted);
        let k = choose|k: int| 0 <= k < whole.len() && whole[k] == edge;
        if k > 0 {
            assert(insert_edge(sorted.drop_first(), inserted)[k - 1] == edge);
            lemma_insert_members(sorted.drop_first(), inserted, edge);
            if edge != inserted {
                let m = choose|m: int| 0 <= m < sorted.drop_first().len() && sorted.drop_first()[m] == edge;
                assert(sorted[m + 1] == edge);
            }
        } else {
            assert(sorted[0] == edge);
        }
    } else if sorted.len() > 0 {
        let whole = insert_edge(sorted, inserted);
        let k = choose|k: int| 0 <= k < whole.len() && whole[k] == edge;
        if k > 0 {
            assert(sorted[k - 1] == edge);
        }
    }
}

/// The edges of a list of alternatives all end at `end`.
proof fn lemma_alternative_ends(alternatives: Seq<(u32, u8)>, end: int, completion: bool, edge: SyllableEdge)
    requires
        alternative_edges(alternatives, end, completion).contains(edge),
    ensures
        edge.end == end as usize,
    decreases alternatives.len(),
{
    if alternatives.len() > 0 {
        let rest = alternative_edges(alternatives.drop_last(), end, completion);
        let whole = rest.push(spelling_edge(alternatives.last(), end, completion));
        let k = choose|k: int| 0 <= k < whole.len() && whole[k] == edge;
        if k < rest.len() {
            assert(rest[k] == edge);
            lemma_alternative_ends(alternatives.drop_last(), end, completion, edge);
        }
    }
}

/// The matched edges from `position` end within the code, after `position`.
proof fn lemma_matched_ends(spellings: Seq<(Seq<u8>, Seq<(u32, u8)>)>, code: Seq<u8>, position: int, count: int, edge: SyllableEdge)
    requires
        0 <= position,
        code.len() <= usize::MAX,
        matched_edges(spellings, code, position, count).contains(edge),
    ensures
        position < edge.end <= code.len(),
    decreases count,
{
    if 0 < count <= spellings.len() {
        let key = spellings[count - 1].0;
        let prev = matched_edges(spellings, code, position, count - 1);
        if key.len() > 0 && position + key.len() <= code.len() && code.subrange(position, position + key.len()) == key {
            let added = alternative_edges(spellings[count - 1].1, position + key.len(), false);
            let whole = prev + added;
            let k = choose|k: int| 0 <= k < whole.len() && whole[k] == edge;
            if k < prev.len() {
                assert(prev[k] == edge);
                lemma_matched_ends(spellings, code, position, count - 1, edge);
            } else {
                assert(added[k - prev.len()] == edge);
                lemma_alternative_ends(spellings[count - 1].1, position + key.len(), false, edge);
            }
        } else {
            lemma_matched_ends(spellings, code, position, count - 1, edge);
        }
    }
}

/// The spelling graph of a code before pruning: the ordered matched edges of each position.
pub open spec fn initial_graph(index: PinyinIndex, code: Seq<u8>) -> Seq<Seq<SyllableEdge>> {
    Seq::new(
        (code.len() + 1) as nat,
        |p: int|
            if p < code.len() {
                sorted_edges(matched_edges(index.spelling_table(), code, p, index.spelling_table().len() as int))
            } else {
                Seq::empty()
            },
    )
}

/// The best kinds of the positions `0..=len`.
pub open spec fn best_kinds(graph: Seq<Seq<SyllableEdge>>, len: int) -> Seq<Option<u8>> {
    Seq::new((len + 1) as nat, |v: int| choose|kind: Option<u8>| best_kind(graph, v, kind))
}

/// The last position up to `from` that a chain reaches (0 when none before).
pub open spec fn last_reached(kinds: Seq<Option<u8>>, from: int) -> int
    decreases from,
{
    if from <= 0 {
        0
    } else if kinds[from] is Some {
        from
    } else {
        last_reached(kinds, from - 1)
    }
}

/// The kind that pruning accepts: the farthest position's kind, at least fuzzy.
pub open spec fn accepted_kind(kinds: Seq<Option<u8>>, farthest: int) -> u8 {
    let kind = match kinds[farthest] {
        Some(k) => k,
        None => KIND_NORMAL,
    };
    if kind > KIND_FUZZY { kind } else { KIND_FUZZY }
}

/// The syllable graph of a code: the spelling edges, pruned towards the farthest position
/// reached, and completed from there when the input is not covered (`None` when no spelling
/// completes the tail).
pub open spec fn spec_syllable_graph(index: PinyinIndex, code: Seq<u8>) -> Option<Seq<Seq<SyllableEdge>>> {
    let graph = initial_graph(index, code);
    let kinds = best_kinds(graph, code.len() as int);
    let farthest = last_reached(kinds, code.len() as int);
    let last_type = accepted_kind(kinds, farthest);
    let pruned = Seq::new(graph.len(), |p: int| crate::syllables::pruned_edges(graph, kinds, farthest, last_type, p));
    if farthest < code.len() {
        let added = completion_edges(
            index.spelling_table(),
            code.subrange(farthest, code.len() as int),
            code.len() as int,
            index.spelling_table().len() as int,
        );
        if added.len() == 0 {
            None
        } else {
            Some(pruned.update(farthest, sorted_edges(pruned[farthest] + added)))
        }
    } else {
        Some(pruned)
    }
}

/// A position has one best kind.
proof fn lemma_best_kind_unique(graph: Seq<Seq<SyllableEdge>>, v: int, a: Option<u8>, b: Option<u8>)
    requires
        best_kind(graph, v, a),
        best_kind(graph, v, b),
    ensures
        a == b,
{
    match a {
        Some(x) => {
            let p = choose|path: Seq<SyllableEdge>| #[trigger] chain_end(graph, path) == Some(v) && chain_kind(path) == x;
            match b {
                Some(y) => {
                    let q = choose|path: Seq<SyllableEdge>| #[trigger] chain_end(graph, path) == Some(v) && chain_kind(path) == y;
                    assert(chain_kind(p) >= y);
                    assert(chain_kind(q) >= x);
                },
                None => {
                    assert(chain_end(graph, p) != Some(v));
                },
            }
        },
        None => {
            if let Some(y) = b {
                let q = choose|path: Seq<SyllableEdge>| #[trigger] chain_end(graph, path) == Some(v) && chain_kind(path) == y;
                assert(chain_end(graph, q) != Some(v));
            }
        },
    }
}

/// The structural part of a pinyin lookup: the spelling edges of `code`, pruned towards the
/// farthest position reached and completed from there (`spec_syllable_graph`).
pub fn syllable_graph(index: &PinyinIndex, code: &[u8]) -> (graph: Option<Vec<Vec<SyllableEdge>>>)
    requires
        code@.len() < usize::MAX,
    ensures
        match graph {
            Some(edges) => spec_syllable_graph(*index, code@) == Some(graph_of(edges@)),
            None => spec_syllable_graph(*index, code@) is None,
        },
{
    let len = code.len();
    let mut edges = build_edges(index, code);
    let ghost graph = initial_graph(*index, code@);
    proof {
        assert forall|p: int| 0 <= p < graph.len() implies #[trigger] graph_of(edges@)[p] == graph[p] by {
            if p == len {
                assert(edges@[p]@ =~= Seq::<SyllableEdge>::empty());
            }
        }
        assert(graph_of(edges@) =~= graph);
        assert forall|p: int, j: int| 0 <= p < graph.len() && 0 <= j < graph[p].len() implies #[trigger] graph[p][j].end <= len by {
            let edge = graph[p][j];
            assert(graph[p].contains(edge));
            lemma_sorted_members(matched_edges(index.spelling_table(), code@, p, index.spelling_table().len() as int), edge);
            lemma_matched_ends(index.spelling_table(), code@, p, index.spelling_table().len() as int, edge);
        }
    }
    let kinds = crate::syllables::path_types(&edges, len);
    let ghost best = best_kinds(graph, len as int);
    proof {
        assert forall|v: int| 0 <= v <= len implies kinds@[v] == best[v] by {
            assert(crate::syllables::best_kind(graph, v, kinds@[v]));
            let chosen = choose|kind: Option<u8>| crate::syllables::best_kind(graph, v, kind);
            lemma_best_kind_unique(graph, v, kinds@[v], chosen);
        }
        assert(kinds@ =~= best);
        assert(chain_end(graph, Seq::<SyllableEdge>::empty()) == Some(0int));
        assert(crate::syllables::best_kind(graph, 0, kinds@[0]));
    }
    let mut farthest = len;
    while kinds[farthest].is_none()
        invariant
            farthest <= len,
            kinds@.len() == len + 1,
            kinds@[0] is Some,
            last_reached(kinds@, len as int) == last_reached(kinds@, farthest as int),
        decreases farthest,
    {
        farthest = farthest - 1;
    }
    let kind = match kinds[farthest] {
        Some(k) => k,
        None => KIND_NORMAL,
    };
    let last_type = if kind > KIND_FUZZY { kind } else { KIND_FUZZY };
    proof {
        assert forall|p: int, j: int| 0 <= p < edges@.len() && 0 <= j < edges@[p]@.len() implies #[trigger] edges@[p]@[j].end
            < edges@.len() by {
            assert(graph_of(edges@)[p] == edges@[p]@);
            assert(graph[p][j].end <= len);
        }
    }
    crate::syllables::prune(&mut edges, kinds.as_slice(), farthest, last_type);
    let ghost pruned = Seq::new(graph.len(), |p: int| crate::syllables::pruned_edges(graph, best, farthest as int, last_type, p));
    proof {
        assert(graph_of(edges@) =~= pruned);
    }
    if farthest < len && !complete(index, &mut edges, code, farthest) {
        return None;
    }
    Some(edges)
}

/// Every edge of a kept list is kept.
proof fn lemma_kept_edges_kept(
    graph: Seq<Seq<SyllableEdge>>,
    kinds: Seq<Option<u8>>,
    farthest: int,
    last_type: u8,
    position: int,
    list: Seq<SyllableEdge>,
    edge: SyllableEdge,
)
    requires
        crate::syllables::kept_edges(graph, kinds, farthest, last_type, position, list).contains(edge),
    ensures
        crate::syllables::edge_kept(graph, kinds, farthest, last_type, position, edge),
    decreases list.len(),
{
    if list.len() > 0 {
        let rest = crate::syllables::kept_edges(graph, kinds, farthest, last_type, position, list.drop_last());
        if crate::syllables::edge_kept(graph, kinds, farthest, last_type, position, list.last()) {
            let whole = rest.push(list.last());
            let k = choose|k: int| 0 <= k < whole.len() && whole[k] == edge;
            if k < rest.len() {
                assert(rest[k] == edge);
                lemma_kept_edges_kept(graph, kinds, farthest, last_type, position, list.drop_last(), edge);
            }
        } else {
            lemma_kept_edges_kept(graph, kinds, farthest, last_type, position, list.drop_last(), edge);
        }
    }
}

/// Law: when a chain of full spellings covers the whole code, no abbreviation survives:
/// every edge left at a position whose best kind is at worst fuzzy is itself at worst fuzzy.
pub proof fn law_full_spelling_drops_abbreviations(
    index: PinyinIndex,
    code: Seq<u8>,
    graph: Seq<Seq<SyllableEdge>>,
    position: int,
    edge: SyllableEdge,
)
    requires
        spec_syllable_graph(index, code) == Some(graph),
        best_kinds(initial_graph(index, code), code.len() as int)[code.len() as int] == Some(KIND_NORMAL),
        0 <= position < code.len(),
        crate::syllables::kind_accepted(best_kinds(initial_graph(index, code), code.len() as int), position, KIND_FUZZY),
        graph[position].contains(edge),
    ensures
        edge.kind <= KIND_FUZZY,
{
    let initial = initial_graph(index, code);
    let kinds = best_kinds(initial, code.len() as int);
    let farthest = last_reached(kinds, code.len() as int);
    assert(farthest == code.len());
    assert(accepted_kind(kinds, farthest) == KIND_FUZZY);
    assert(graph[position] == crate::syllables::pruned_edges(initial, kinds, farthest, KIND_FUZZY, position));
    lemma_kept_edges_kept(initial, kinds, farthest, KIND_FUZZY, position, initial[position], edge);
}

} // verus!
