//! The code dictionary the decoder searches: each code with its ranked entries, the code
//! lengths in use, and the proper prefixes of its codes.

use vstd::prelude::*;
use vstd::string::StringSliceAdditionalSpecFns;
use crate::decode::{entry_views, CodeEntry};
use crate::tables::{byte_string_set_contents, code_table_contents, no_codes, ByteStringSet, CodeTable};

verus! {

/// The code dictionary.
pub struct Lexicon {
    lengths: Vec<usize>,
    codes: CodeTable,
    prefixes: ByteStringSet,
}

/// `prefix` is a nonempty proper prefix of `code`.
pub open spec fn proper_prefix_of(prefix: Seq<u8>, code: Seq<u8>) -> bool {
    1 <= prefix.len() < code.len() && code.take(prefix.len() as int) == prefix
}

impl Lexicon {
    /// The code lengths in use, ascending.
    pub closed spec fn code_lengths(&self) -> Seq<usize> {
        self.lengths@
    }

    /// Code bytes → entries (text and rank), in rank order.
    pub closed spec fn code_entries(&self) -> Map<Seq<u8>, Seq<(Seq<char>, u32)>> {
        code_table_contents(self.codes)
    }

    /// The nonempty proper prefixes of the codes.
    pub closed spec fn proper_code_prefixes(&self) -> Set<Seq<u8>> {
        byte_string_set_contents(self.prefixes)
    }

    /// The code lengths are positive and strictly ascending, and the proper prefixes are
    /// those of the codes.
    pub open spec fn wf(&self) -> bool {
        &&& forall|prefix: Seq<u8>|
            #[trigger] self.proper_code_prefixes().contains(prefix) <==> exists|code: Seq<u8>|
                #[trigger] self.code_entries().contains_key(code) && proper_prefix_of(prefix, code)
        &&& forall|i: int, j: int|
            0 <= i < j < self.code_lengths().len() ==> self.code_lengths()[i] < self.code_lengths()[j]
        &&& forall|i: int| 0 <= i < self.code_lengths().len() ==> self.code_lengths()[i] >= 1
    }

    /// An empty dictionary.
    pub fn new() -> (lexicon: Self)
        ensures
            lexicon.wf(),
            lexicon.code_lengths() == Seq::<usize>::empty(),
            lexicon.code_entries() == no_codes(),
    {
        let lexicon = Lexicon { lengths: Vec::new(), codes: CodeTable::new(), prefixes: ByteStringSet::new() };
        assert(lexicon.code_entries() == no_codes());
        lexicon
    }

    /// Stores the entries of `code` (replacing earlier entries of the code) and records
    /// the code's length when it is not empty.
    pub fn insert(&mut self, code: &str, entries: Vec<CodeEntry>)
        requires
            old(self).wf(),
        ensures
            final(self).wf(),
            final(self).code_entries() == old(self).code_entries().insert(code.spec_bytes(), entry_views(entries@)),
            forall|length: usize|
                #[trigger] final(self).code_lengths().contains(length) <==> (old(self).code_lengths().contains(length)
                    || (length == code.spec_bytes().len() && length >= 1)),
    {
        let bytes = code.as_bytes();
        let length = bytes.len();
        self.codes.insert(bytes, entries);
        let mut k: usize = 1;
        while k < length
            invariant
                1 <= k,
                length == bytes@.len(),
                self.code_lengths() == old(self).code_lengths(),
                self.code_entries() == old(self).code_entries().insert(bytes@, entry_views(entries@)),
                forall|prefix: Seq<u8>|
                    #[trigger] self.proper_code_prefixes().contains(prefix) <==> (old(self).proper_code_prefixes().contains(prefix)
                        || (proper_prefix_of(prefix, bytes@) && prefix.len() < k)),
            decreases length - k,
        {
            let (head, _) = bytes.split_at(k);
            assert(head@ =~= bytes@.take(k as int));
            let ghost before = self.proper_code_prefixes();
            self.prefixes.insert(head);
            assert(self.proper_code_prefixes() == before.insert(head@));
            assert forall|prefix: Seq<u8>|
                #[trigger] self.proper_code_prefixes().contains(prefix) <==> (old(self).proper_code_prefixes().contains(prefix)
                    || (proper_prefix_of(prefix, bytes@) && prefix.len() < k + 1)) by {
                assert(before.contains(prefix) <==> (old(self).proper_code_prefixes().contains(prefix)
                    || (proper_prefix_of(prefix, bytes@) && prefix.len() < k)));
                if prefix == head@ {
                    assert(bytes@.take(k as int) =~= head@);
                }
                if proper_prefix_of(prefix, bytes@) && prefix.len() == k {
                    assert(prefix =~= head@);
                }
            }
            k = k + 1;
        }
        assert forall|prefix: Seq<u8>|
            #[trigger] self.proper_code_prefixes().contains(prefix) <==> exists|c: Seq<u8>|
                #[trigger] self.code_entries().contains_key(c) && proper_prefix_of(prefix, c) by {
            if self.proper_code_prefixes().contains(prefix) {
                if !old(self).proper_code_prefixes().contains(prefix) {
                    assert(self.code_entries().contains_key(bytes@) && proper_prefix_of(prefix, bytes@));
                } else {
                    let c = choose|c: Seq<u8>| #[trigger] old(self).code_entries().contains_key(c) && proper_prefix_of(prefix, c);
                    assert(self.code_entries().contains_key(c));
                }
            }
            if exists|c: Seq<u8>| #[trigger] self.code_entries().contains_key(c) && proper_prefix_of(prefix, c) {
                let c = choose|c: Seq<u8>| #[trigger] self.code_entries().contains_key(c) && proper_prefix_of(prefix, c);
                if c != bytes@ {
                    assert(old(self).code_entries().contains_key(c));
                }
            }
        }
        assert(self.code_lengths() == old(self).code_lengths());
        if length >= 1 {
            let mut i: usize = 0;
            while i < self.lengths.len() && self.lengths[i] < length
                invariant
                    i <= self.lengths.len(),
                    self.wf(),
                    forall|j: int| 0 <= j < i ==> self.lengths@[j] < length,
                decreases self.lengths.len() - i,
            {
                i = i + 1;
            }
            if i == self.lengths.len() || self.lengths[i] != length {
                let ghost before = self.lengths@;
                let ghost prefixes = self.proper_code_prefixes();
                let ghost codes = self.code_entries();
                assert(i < before.len() ==> before[i as int] > length);
                self.lengths.insert(i, length);
                assert forall|a: int, b: int| 0 <= a < b < self.lengths@.len() implies self.lengths@[a] < self.lengths@[b] by {
                    if b < i {
                    } else if b == i {
                        assert(before[a] < length);
                    } else if a < i {
                        assert(before[a] < length);
                        assert(before[i as int] > length);
                        assert(before[i as int] <= before[b - 1]);
                    } else if a == i {
                        assert(before[i as int] <= before[b - 1]);
                    } else {
                        assert(before[a - 1] < before[b - 1]);
                    }
                }
                assert(self.proper_code_prefixes() == prefixes && self.code_entries() == codes);
                assert(self.wf());
                assert forall|l: usize| #[trigger] self.lengths@.contains(l) <==> (before.contains(l) || l == length) by {
                    if self.lengths@.contains(l) {
                        let k = choose|k: int| 0 <= k < self.lengths@.len() && self.lengths@[k] == l;
                        if k < i {
                            assert(before[k] == l);
                        } else if k > i {
                            assert(before[k - 1] == l);
                        }
                    }
                    if before.contains(l) {
                        let k = choose|k: int| 0 <= k < before.len() && before[k] == l;
                        if k < i {
                            assert(self.lengths@[k] == l);
                        } else {
                            assert(self.lengths@[k + 1] == l);
                        }
                    }
                    if l == length {
                        assert(self.lengths@[i as int] == l);
                    }
                }
            } else {
                assert(self.lengths@[i as int] == length);
            }
        }
    }

    /// How many code lengths are in use.
    pub(crate) fn length_count(&self) -> (count: usize)
        ensures
            count == self.code_lengths().len(),
    {
        self.lengths.len()
    }

    /// The code length at `index`.
    pub(crate) fn length_at(&self, index: usize) -> (length: usize)
        requires
            index < self.code_lengths().len(),
        ensures
            length == self.code_lengths()[index as int],
    {
        self.lengths[index]
    }

    /// Whether `bytes` is a nonempty proper prefix of a code.
    pub fn is_proper_code_prefix(&self, bytes: &[u8]) -> (found: bool)
        ensures
            found == self.proper_code_prefixes().contains(bytes@),
    {
        self.prefixes.contains(bytes)
    }

    /// The entries of a code, when the code is in the dictionary.
    pub(crate) fn entries(&self, code: &[u8]) -> (found: Option<&Vec<CodeEntry>>)
        ensures
            match found {
                Some(list) => self.code_entries().contains_key(code@) && entry_views(list@) == self.code_entries()[code@],
                None => !self.code_entries().contains_key(code@),
            },
    {
        self.codes.get(code)
    }
}

} // verus!
