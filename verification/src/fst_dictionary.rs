//! The fuzzy dictionary: the exact word store together with the fuzzy index
//! over its words.

use crate::error::DictionaryError;
use crate::full_dictionary::place_of;
use crate::full_dictionary::words_of_length;
use crate::full_dictionary::FullDictionary;
use crate::index::automaton_language;
use crate::index::entry_views;
use crate::index::fuzzy_hits;
use crate::index::has_key;
use crate::index::hits_come_from_accepted_entries;
use crate::index::hits_under_key;
use crate::index::hits_where_key;
use crate::index::key_names;
use crate::index::keys_ascending;
use crate::index::named_under;
use crate::index::no_hits_without_key;
use crate::index::search_hits;
use crate::index::FuzzyIndex;
use crate::index::IndexEntry;
use crate::normalize::folded;
use crate::normalize::normalized;
use crate::normalize::seq_to_lowercase;
use crate::normalize::seq_to_normalized;
use crate::selection::dedup_preserving_order;
use crate::selection::interleaved_rounds;
use crate::selection::round_items;
use crate::selection::rounds_stop_when_exhausted;
use crate::selection::selected;
use crate::selection::selected_are_distinct;
use crate::selection::selected_come_from_hits;
use crate::selection::selected_head;
use crate::text::chars_to_string;
use crate::text::same_bytes;
use crate::text::str_to_chars;
use crate::word_metadata::WordMetadata;
use std::sync::Arc;
use vstd::prelude::*;
use vstd::utf8::encode_utf8;

verus! {

/// One result of a fuzzy lookup as a plain value: the word, the distance
/// field, and the word's metadata.
pub type MatchView = (Seq<char>, u8, WordMetadata);

/// The key under which the canonical form of `word` stands in the index.
pub open spec fn canonical_key(word: Seq<char>) -> Seq<u8> {
    encode_utf8(normalized(word))
}

/// The key under which the folded form of `word` stands in the index.
pub open spec fn folded_key(word: Seq<char>) -> Seq<u8> {
    encode_utf8(folded(normalized(word)))
}

/// Whether `key` is a form of `word`: its canonical form or its folded form.
pub open spec fn key_of(key: Seq<u8>, word: Seq<char>) -> bool {
    key == canonical_key(word) || key == folded_key(word)
}

/// An entry fits a word list where it names a word of the list and its key
/// is a form of that word.
pub open spec fn entry_fits(entry: IndexEntry, words: Seq<Seq<char>>) -> bool {
    entry.1 < words.len() && key_of(entry.0, words[entry.1 as int])
}

/// Every entry fits the word list.
pub open spec fn entries_fit(entries: Seq<IndexEntry>, words: Seq<Seq<char>>) -> bool {
    forall|i: int| 0 <= i < entries.len() ==> entry_fits(#[trigger] entries[i], words)
}

/// Whether the search for `query` within `max_distance` accepts `key`.
pub open spec fn search_accepts(query: Seq<char>, max_distance: u8, key: Seq<u8>) -> bool {
    automaton_language(query, max_distance as u32) matches Some(keys) && keys.contains(key)
}

/// Whether a lookup for `word` finds the word `index` by one of its keys: an
/// entry names the word under a key that is a form of it, and the search for
/// the canonical or for the folded form of `word` accepts that key.
pub open spec fn found_by_key(
    entries: Seq<IndexEntry>,
    words: Seq<Seq<char>>,
    word: Seq<char>,
    max_distance: u8,
    index: u64,
) -> bool {
    exists|e: int|
        0 <= e < entries.len() && (#[trigger] entries[e]).1 == index && key_of(
            entries[e].0,
            words[index as int],
        ) && (search_accepts(normalized(word), max_distance, entries[e].0) || search_accepts(
            folded(normalized(word)),
            max_distance,
            entries[e].0,
        ))
}

/// Whether a lookup for `word` finds the listed word `found` by one of its
/// keys.
pub open spec fn word_found_by_key(
    entries: Seq<IndexEntry>,
    words: Seq<Seq<char>>,
    word: Seq<char>,
    max_distance: u8,
    found: Seq<char>,
) -> bool {
    exists|i: u64|
        i < words.len() && #[trigger] words[i as int] == found && found_by_key(
            entries,
            words,
            word,
            max_distance,
            i,
        )
}

/// No two results share a word.
pub open spec fn distinct_words(found: Seq<MatchView>) -> bool {
    forall|a: int, b: int|
        0 <= a < found.len() && 0 <= b < found.len() && a != b ==> found[a].0 != found[b].0
}

/// The index has a key for `word`: its canonical form or its folded form.
pub open spec fn word_indexed(entries: Seq<IndexEntry>, word: Seq<char>) -> bool {
    has_key(entries, canonical_key(word)) || has_key(entries, folded_key(word))
}

/// The index has a key for every word of the list.
pub open spec fn words_indexed(entries: Seq<IndexEntry>, words: Seq<Seq<char>>) -> bool {
    forall|i: int| 0 <= i < words.len() ==> word_indexed(entries, #[trigger] words[i])
}

/// Why a word list and the entries of an index make no dictionary, if they
/// make none: the entries are no sorted map, or an entry does not fit the
/// word list, or a word has no key.
pub open spec fn load_error(words: Seq<Seq<char>>, entries: Seq<IndexEntry>) -> Option<
    DictionaryError,
> {
    if !keys_ascending(entries) {
        Some(DictionaryError::CorruptIndex)
    } else if !entries_fit(entries, words) {
        Some(DictionaryError::InvalidIndex)
    } else if !words_indexed(entries, words) {
        Some(DictionaryError::IncompleteIndex)
    } else {
        None
    }
}

/// The word indices that a fuzzy lookup reports, in order: the hits of the
/// search for the folded form and of the search for the canonical form,
/// interleaved folded first for `max_results` rounds, without repeats, cut to
/// `max_results`. `None` where a search is unsupported.
pub open spec fn fuzzy_indices(
    entries: Seq<IndexEntry>,
    word: Seq<char>,
    max_distance: u8,
    max_results: nat,
) -> Option<Seq<u64>> {
    let exact_hits = fuzzy_hits(entries, normalized(word), max_distance);
    let folded_hits = fuzzy_hits(entries, folded(normalized(word)), max_distance);
    if exact_hits is Some && folded_hits is Some {
        Some(selected(folded_hits->0, exact_hits->0, max_results))
    } else {
        None
    }
}

/// The report for one word index. The distance field carries the low eight
/// bits of the index; it is no edit distance.
pub open spec fn report_of(
    words: Seq<Seq<char>>,
    metadata: Seq<WordMetadata>,
    index: u64,
) -> MatchView {
    (words[index as int], index as u8, metadata[index as int])
}

/// The reports for a list of word indices.
pub open spec fn reports_of(
    words: Seq<Seq<char>>,
    metadata: Seq<WordMetadata>,
    indices: Seq<u64>,
) -> Seq<MatchView> {
    indices.map_values(|index: u64| report_of(words, metadata, index))
}

/// A list of results as plain values.
pub open spec fn match_views(found: Seq<(&[char], u8, WordMetadata)>) -> Seq<MatchView> {
    found.map_values(|m: (&[char], u8, WordMetadata)| (m.0@, m.1, m.2))
}

/// What is left of `hits` after `rounds` rounds of pulling.
pub open spec fn left_after(hits: Seq<u64>, rounds: nat) -> Seq<u64> {
    if rounds < hits.len() {
        hits.skip(rounds as int)
    } else {
        Seq::empty()
    }
}

/// The fuzzy dictionary. It owns one exact store and one fuzzy index, made
/// for each other: every entry of the index names a word of the store under
/// a form of that word, and every word of the store has a key in the index.
#[derive(Debug)]
pub struct FstDictionary {
    /// The exact store, used for everything but fuzzy finding.
    full_dict: Arc<FullDictionary>,
    /// The index, used for fuzzy-finding the indices of words.
    word_map: FuzzyIndex,
}

impl FstDictionary {
    /// The word list, in index order.
    pub closed spec fn words(&self) -> Seq<Seq<char>> {
        self.full_dict.words()
    }

    /// The metadata of each word, in index order.
    pub closed spec fn metadata(&self) -> Seq<WordMetadata> {
        self.full_dict.metadata()
    }

    /// The entries of the fuzzy index, in the byte order of their keys.
    pub closed spec fn index(&self) -> Seq<IndexEntry> {
        self.word_map.entries()
    }

    /// The store and the index are well formed and made for each other.
    pub closed spec fn wf(&self) -> bool {
        &&& self.full_dict.wf()
        &&& self.word_map.wf()
        &&& load_error(self.words(), self.index()) is None
    }

    #[verifier::type_invariant]
    spec fn inv(&self) -> bool {
        self.wf()
    }

    /// What a fuzzy lookup returns, as plain values.
    pub open spec fn fuzzy_matches(&self, word: Seq<char>, max_distance: u8, max_results: nat) -> Option<
        Seq<MatchView>,
    > {
        match fuzzy_indices(self.index(), word, max_distance, max_results) {
            Some(indices) => Some(reports_of(self.words(), self.metadata(), indices)),
            None => None,
        }
    }

    /// What a well-formed dictionary is made of.
    pub proof fn wf_facts(&self)
        requires
            self.wf(),
        ensures
            self.metadata().len() == self.words().len(),
            self.words().no_duplicates(),
            keys_ascending(self.index()),
            entries_fit(self.index(), self.words()),
            words_indexed(self.index(), self.words()),
    {
        self.full_dict.wf_facts();
    }

    /// Assembles the curated dictionary from its two assets, the word list
    /// and the entries of the index compiled for it. The entries must stand
    /// in the strict byte order of their keys; each must name a word of the
    /// list, under that word's canonical or folded form; and every word must
    /// have a key. Else there is no dictionary, and the error says which of
    /// these failed first.
    pub fn curated(full_dict: Arc<FullDictionary>, entries: Vec<(Vec<u8>, u64)>) -> (r: Result<
        Arc<FstDictionary>,
        DictionaryError,
    >)
        ensures
            match r {
                Ok(dictionary) => load_error(full_dict.words(), entry_views(entries@)) is None
                    && dictionary.wf() && dictionary.words() == full_dict.words()
                    && dictionary.metadata() == full_dict.metadata() && dictionary.index()
                    == entry_views(entries@),
                Err(e) => load_error(full_dict.words(), entry_views(entries@)) == Some(e),
            },
    {
        let fit = entries_fit_words(&entries, &full_dict);
        let word_map = match FuzzyIndex::from_entries(entries) {
            Ok(word_map) => word_map,
            Err(e) => {
                return Err(e);
            },
        };
        if !fit {
            return Err(DictionaryError::InvalidIndex);
        }
        if !index_covers_words(&word_map, &full_dict) {
            return Err(DictionaryError::IncompleteIndex);
        }
        proof {
            use_type_invariant(&*full_dict);
            use_type_invariant(&word_map);
        }
        Ok(Arc::new(FstDictionary { full_dict, word_map }))
    }

    /// The exact store of this dictionary.
    pub fn full_dict(&self) -> (r: &Arc<FullDictionary>)
        ensures
            self.wf(),
            r.wf(),
            r.words() == self.words(),
            r.metadata() == self.metadata(),
    {
        proof {
            use_type_invariant(self);
        }
        &self.full_dict
    }

    /// The fuzzy index of this dictionary.
    pub fn word_map(&self) -> (r: &FuzzyIndex)
        ensures
            self.wf(),
            r.wf(),
            r.entries() == self.index(),
    {
        proof {
            use_type_invariant(self);
        }
        &self.word_map
    }

    /// Whether the word list holds exactly these characters.
    pub fn contains_word(&self, word: &[char]) -> (r: bool)
        ensures
            r == self.words().contains(word@),
    {
        self.full_dict.contains_word(word)
    }

    /// Whether the word list holds exactly the characters of `word`.
    pub fn contains_word_str(&self, word: &str) -> (r: bool)
        ensures
            r == self.words().contains(word@),
    {
        self.full_dict.contains_word_str(word)
    }

    /// A copy of the metadata of `word`; of a word that the list does not
    /// hold, the metadata of an unknown word.
    pub fn get_word_metadata(&self, word: &[char]) -> (r: WordMetadata)
        ensures
            r == if self.words().contains(word@) {
                self.metadata()[place_of(self.words(), word@)]
            } else {
                WordMetadata::unknown()
            },
    {
        self.full_dict.get_word_metadata(word)
    }

    /// As [`FstDictionary::get_word_metadata`], of the characters of `word`.
    pub fn get_word_metadata_str(&self, word: &str) -> (r: WordMetadata)
        ensures
            r == if self.words().contains(word@) {
                self.metadata()[place_of(self.words(), word@)]
            } else {
                WordMetadata::unknown()
            },
    {
        self.full_dict.get_word_metadata_str(word)
    }

    /// Every word, in index order. The order is the same at every call.
    pub fn words_iter(&self) -> (r: Vec<&[char]>)
        ensures
            r@.map_values(|w: &[char]| w@) == self.words(),
    {
        self.full_dict.words_iter()
    }

    /// The words that are exactly `len` characters long, in index order.
    pub fn words_with_len_iter(&self, len: usize) -> (r: Vec<&[char]>)
        ensures
            r@.map_values(|w: &[char]| w@) == words_of_length(self.words(), len as nat),
    {
        self.full_dict.words_with_len_iter(len)
    }

    /// Finds up to `max_results` words within `max_distance` edits of `word`.
    /// See [`FstDictionary::fuzzy_match_str`].
    pub fn fuzzy_match(&self, word: &[char], max_distance: u8, max_results: usize) -> (r: Result<
        Vec<(&[char], u8, WordMetadata)>,
        DictionaryError,
    >)
        ensures
            match r {
                Ok(found) => self.fuzzy_matches(word@, max_distance, max_results as nat) == Some(
                    match_views(found@),
                ),
                Err(e) => e == DictionaryError::UnsupportedDistance && self.fuzzy_matches(
                    word@,
                    max_distance,
                    max_results as nat,
                ) is None,
            },
            r matches Ok(found) ==> found@.len() <= max_results && distinct_words(
                match_views(found@),
            ),
    {
        let text = chars_to_string(word);
        self.fuzzy_match_str(text.as_str(), max_distance, max_results)
    }

    /// Finds up to `max_results` words within `max_distance` edits of `word`.
    ///
    /// The word is normalized and searched for twice, once in its folded and
    /// once in its canonical form. The two searches are pulled from in turn,
    /// folded first, for `max_results` rounds; of the indices pulled each is
    /// kept where it was first seen, and the first `max_results` of them are
    /// reported, each with its word, its distance field and its metadata. So
    /// fewer than `max_results` words may be reported though more would match.
    ///
    /// The distance field is no edit distance: it carries the low eight bits
    /// of the word's index.
    ///
    /// A distance that the index does not support is an error, not an empty
    /// result.
    pub fn fuzzy_match_str(&self, word: &str, max_distance: u8, max_results: usize) -> (r: Result<
        Vec<(&[char], u8, WordMetadata)>,
        DictionaryError,
    >)
        ensures
            match r {
                Ok(found) => self.fuzzy_matches(word@, max_distance, max_results as nat) == Some(
                    match_views(found@),
                ),
                Err(e) => e == DictionaryError::UnsupportedDistance && self.fuzzy_matches(
                    word@,
                    max_distance,
                    max_results as nat,
                ) is None,
            },
            r matches Ok(found) ==> found@.len() <= max_results && distinct_words(
                match_views(found@),
            ),
    {
        proof {
            use_type_invariant(self);
            self.wf_facts();
        }
        let chars = str_to_chars(word);
        let misspelled_normalized = seq_to_normalized(chars.as_slice());
        let misspelled_word = chars_to_string(misspelled_normalized.as_slice());
        let lower = seq_to_lowercase(misspelled_normalized.as_slice());
        let misspelled_lower = chars_to_string(lower.as_slice());

        let mut word_indexes_stream = match self.word_map.fuzzy_search(
            misspelled_word.as_str(),
            max_distance,
        ) {
            Ok(stream) => stream,
            Err(e) => {
                return Err(e);
            },
        };
        let mut word_lower_indexes_stream = match self.word_map.fuzzy_search(
            misspelled_lower.as_str(),
            max_distance,
        ) {
            Ok(stream) => stream,
            Err(e) => {
                return Err(e);
            },
        };
        let ghost exact_hits = word_indexes_stream.rest();
        let ghost folded_hits = word_lower_indexes_stream.rest();

        let mut word_indexes: Vec<u64> = Vec::new();
        let mut i: usize = 0;
        while i < max_results
            invariant
                i <= max_results,
                word_indexes@ == interleaved_rounds(folded_hits, exact_hits, i as nat),
                word_lower_indexes_stream.rest() == left_after(folded_hits, i as nat),
                word_indexes_stream.rest() == left_after(exact_hits, i as nat),
            ensures
                word_indexes@ == interleaved_rounds(folded_hits, exact_hits, max_results as nat),
            decreases max_results - i,
        {
            let ghost earlier = word_indexes@;
            let mut flag = false;
            if let Some(v) = word_lower_indexes_stream.next() {
                word_indexes.push(v);
                flag = true;
            }
            if let Some(v) = word_indexes_stream.next() {
                word_indexes.push(v);
                flag = true;
            }
            if !flag {
                proof {
                    rounds_stop_when_exhausted(
                        folded_hits,
                        exact_hits,
                        i as nat,
                        max_results as nat,
                    );
                }
                break ;
            }
            proof {
                assert(word_indexes@ =~= earlier + round_items(folded_hits, exact_hits, i as nat));
                assert(word_lower_indexes_stream.rest() =~= left_after(folded_hits, (i + 1) as nat));
                assert(word_indexes_stream.rest() =~= left_after(exact_hits, (i + 1) as nat));
            }
            i += 1;
        }
        // Dedup but preserve order of word indexes
        let mut kept = dedup_preserving_order(&word_indexes);
        kept.truncate(max_results);
        let ghost indices = selected(folded_hits, exact_hits, max_results as nat);
        proof {
            assert(kept@ =~= indices);
            self.indices_name_words(word@, max_distance, max_results as nat);
        }
        let count = self.full_dict.word_count();
        let mut found: Vec<(&[char], u8, WordMetadata)> = Vec::new();
        let mut j: usize = 0;
        while j < kept.len()
            invariant
                j <= kept.len(),
                count == self.words().len(),
                kept@ == indices,
                self.wf(),
                self.metadata().len() == self.words().len(),
                forall|n: int| 0 <= n < indices.len() ==> indices[n] < self.words().len(),
                match_views(found@) == reports_of(
                    self.words(),
                    self.metadata(),
                    indices.take(j as int),
                ),
            decreases kept.len() - j,
        {
            let index = kept[j];
            let place = index as usize;
            let entry = (
                self.full_dict.get_word(place),
                #[verifier::truncate]
                (index as u8),
                self.full_dict.get_metadata(place),
            );
            let ghost before = found@;
            found.push(entry);
            j += 1;
            proof {
                let part = indices.take(j as int);
                let views = match_views(found@);
                let reports = reports_of(self.words(), self.metadata(), part);
                assert(match_views(before).len() == before.len());
                assert(indices.take(j - 1).len() == j - 1);
                assert(reports_of(self.words(), self.metadata(), indices.take(j - 1)).len() == j - 1);
                assert(views.len() == reports.len());
                assert forall|n: int| 0 <= n < views.len() implies views[n] == reports[n] by {
                    if n < j - 1 {
                        assert(match_views(before)[n] == reports_of(
                            self.words(),
                            self.metadata(),
                            indices.take(j - 1),
                        )[n]);
                    } else {
                        assert(found@[n] == entry);
                        assert(part[n] == index);
                    }
                }
                assert(views =~= reports);
            }
        }
        proof {
            assert(indices.take(j as int) =~= indices);
            self.reports_are_distinct(indices);
        }
        Ok(found)
    }

    /// Every hit of a supported search names a word of the list, through an
    /// entry whose key the search accepts and which is a form of that word.
    pub proof fn hits_name_words(&self, query: Seq<char>, max_distance: u8)
        requires
            self.wf(),
        ensures
            fuzzy_hits(self.index(), query, max_distance) matches Some(hits) ==> forall|n: int|
                0 <= n < hits.len() ==> (#[trigger] hits[n]) < self.words().len() && exists|e: int|
                    0 <= e < self.index().len() && (#[trigger] self.index()[e]).1 == hits[n]
                        && key_of(self.index()[e].0, self.words()[hits[n] as int])
                        && search_accepts(query, max_distance, self.index()[e].0),
    {
        self.wf_facts();
        if let Some(hits) = fuzzy_hits(self.index(), query, max_distance) {
            let keys = automaton_language(query, max_distance as u32)->0;
            hits_come_from_accepted_entries(self.index(), keys);
            assert forall|n: int| 0 <= n < hits.len() implies (#[trigger] hits[n])
                < self.words().len() && exists|e: int|
                0 <= e < self.index().len() && (#[trigger] self.index()[e]).1 == hits[n]
                    && key_of(self.index()[e].0, self.words()[hits[n] as int])
                    && search_accepts(query, max_distance, self.index()[e].0) by {
                assert(named_under(self.index(), keys, hits[n]));
                let e = choose|e: int|
                    0 <= e < self.index().len() && (#[trigger] self.index()[e]).1 == hits[n]
                        && keys.contains(self.index()[e].0);
                assert(entry_fits(self.index()[e], self.words()));
            }
        }
    }

    /// Every word index that a lookup reports names a word of the list, and
    /// the lookup finds that word by one of its keys.
    pub proof fn indices_name_words(&self, word: Seq<char>, max_distance: u8, max_results: nat)
        requires
            self.wf(),
        ensures
            fuzzy_indices(self.index(), word, max_distance, max_results) matches Some(indices)
                ==> indices.no_duplicates() && forall|n: int|
                0 <= n < indices.len() ==> (#[trigger] indices[n]) < self.words().len()
                    && found_by_key(self.index(), self.words(), word, max_distance, indices[n]),
    {
        if let Some(indices) = fuzzy_indices(self.index(), word, max_distance, max_results) {
            let exact_hits = fuzzy_hits(self.index(), normalized(word), max_distance)->0;
            let folded_hits = fuzzy_hits(self.index(), folded(normalized(word)), max_distance)->0;
            selected_come_from_hits(folded_hits, exact_hits, max_results);
            selected_are_distinct(folded_hits, exact_hits, max_results);
            self.hits_name_words(normalized(word), max_distance);
            self.hits_name_words(folded(normalized(word)), max_distance);
            assert forall|n: int| 0 <= n < indices.len() implies (#[trigger] indices[n])
                < self.words().len() && found_by_key(
                self.index(),
                self.words(),
                word,
                max_distance,
                indices[n],
            ) by {
                let x = indices[n];
                assert(indices.contains(x));
                if folded_hits.contains(x) {
                    let m = choose|m: int| 0 <= m < folded_hits.len() && folded_hits[m] == x;
                    assert(folded_hits[m] < self.words().len());
                } else {
                    let m = choose|m: int| 0 <= m < exact_hits.len() && exact_hits[m] == x;
                    assert(exact_hits[m] < self.words().len());
                }
            }
        }
    }

    /// Reports for distinct indices of the list are reports of distinct words.
    pub proof fn reports_are_distinct(&self, indices: Seq<u64>)
        requires
            self.wf(),
            indices.no_duplicates(),
            forall|n: int| 0 <= n < indices.len() ==> indices[n] < self.words().len(),
        ensures
            distinct_words(reports_of(self.words(), self.metadata(), indices)),
    {
        self.wf_facts();
    }
}

/// The key by which a lookup for `word` makes its first choice names the
/// word `index`: the folded key where the index has it, else the canonical key.
pub open spec fn first_choice(entries: Seq<IndexEntry>, word: Seq<char>, index: u64) -> bool {
    ||| key_names(entries, folded_key(word), index)
    ||| (!has_key(entries, folded_key(word)) && key_names(entries, canonical_key(word), index))
}

/// At distance 0, with a budget of at least one, a lookup reports first the
/// word that its first choice of key names.
pub proof fn exact_lookup_reports_first_choice(
    entries: Seq<IndexEntry>,
    word: Seq<char>,
    index: u64,
    max_results: nat,
)
    requires
        max_results >= 1,
        first_choice(entries, word, index),
        fuzzy_indices(entries, word, 0, max_results) is Some,
    ensures
        fuzzy_indices(entries, word, 0, max_results)->0.len() > 0,
        fuzzy_indices(entries, word, 0, max_results)->0[0] == index,
{
    let exact_hits = fuzzy_hits(entries, normalized(word), 0)->0;
    let folded_hits = fuzzy_hits(entries, folded(normalized(word)), 0)->0;
    assert(exact_hits == search_hits(entries, set![canonical_key(word)]));
    assert(folded_hits == search_hits(entries, set![folded_key(word)]));
    if key_names(entries, folded_key(word), index) {
        hits_under_key(entries, folded_key(word), index);
    } else {
        no_hits_without_key(entries, folded_key(word));
        hits_under_key(entries, canonical_key(word), index);
    }
    selected_head(folded_hits, exact_hits, max_results);
}

impl FstDictionary {
    /// Every word of the list is found by the exact lookup, and the index has
    /// a key for it: its canonical form or its folded form.
    pub proof fn every_word_is_indexed(&self, i: int)
        requires
            self.wf(),
            0 <= i < self.words().len(),
        ensures
            self.words().contains(self.words()[i]),
            word_indexed(self.index(), self.words()[i]),
    {
        self.wf_facts();
    }

    /// A lookup has one result: two lists of results that both are what the
    /// lookup returns hold the same values in the same order.
    pub proof fn fuzzy_match_is_determined(
        &self,
        word: Seq<char>,
        max_distance: u8,
        max_results: nat,
        first: Seq<(&[char], u8, WordMetadata)>,
        second: Seq<(&[char], u8, WordMetadata)>,
    )
        requires
            self.fuzzy_matches(word, max_distance, max_results) == Some(match_views(first)),
            self.fuzzy_matches(word, max_distance, max_results) == Some(match_views(second)),
        ensures
            match_views(first) == match_views(second),
            first.len() == second.len(),
    {
        assert(match_views(first).len() == first.len());
        assert(match_views(second).len() == second.len());
    }

    /// A lookup reports no more words than its budget.
    pub proof fn fuzzy_matches_within_budget(&self, word: Seq<char>, max_distance: u8, max_results: nat)
        ensures
            self.fuzzy_matches(word, max_distance, max_results) matches Some(found)
                ==> found.len() <= max_results,
    {
    }

    /// A lookup reports no word twice, and every word it reports is a word
    /// of the list, reported with its own metadata.
    pub proof fn fuzzy_matches_are_distinct_words(
        &self,
        word: Seq<char>,
        max_distance: u8,
        max_results: nat,
    )
        requires
            self.wf(),
        ensures
            self.fuzzy_matches(word, max_distance, max_results) matches Some(found) ==> {
                &&& distinct_words(found)
                &&& forall|a: int|
                    0 <= a < found.len() ==> self.words().contains(#[trigger] found[a].0)
                        && found[a].2 == self.metadata()[place_of(self.words(), found[a].0)]
            },
    {
        self.wf_facts();
        if let Some(indices) = fuzzy_indices(self.index(), word, max_distance, max_results) {
            self.indices_name_words(word, max_distance, max_results);
            self.reports_are_distinct(indices);
            let found = reports_of(self.words(), self.metadata(), indices);
            assert forall|a: int| 0 <= a < found.len() implies self.words().contains(
                #[trigger] found[a].0,
            ) && found[a].2 == self.metadata()[place_of(self.words(), found[a].0)] by {
                let at = indices[a] as int;
                assert(indices[a] < self.words().len());
                assert(self.words()[at] == found[a].0);
                let p = place_of(self.words(), found[a].0);
                assert(0 <= p < self.words().len() && self.words()[p] == found[a].0);
            }
        }
    }

    /// Every word that a lookup reports is found by one of its own keys: the
    /// index holds the word under its canonical or its folded form, and the
    /// search for the canonical or for the folded form of the query accepts
    /// that key.
    pub proof fn fuzzy_matches_are_found_by_key(
        &self,
        word: Seq<char>,
        max_distance: u8,
        max_results: nat,
    )
        requires
            self.wf(),
        ensures
            self.fuzzy_matches(word, max_distance, max_results) matches Some(found) ==> forall|
                a: int,
            |
                0 <= a < found.len() ==> word_found_by_key(
                    self.index(),
                    self.words(),
                    word,
                    max_distance,
                    (#[trigger] found[a]).0,
                ),
    {
        if let Some(indices) = fuzzy_indices(self.index(), word, max_distance, max_results) {
            self.indices_name_words(word, max_distance, max_results);
            let found = reports_of(self.words(), self.metadata(), indices);
            assert forall|a: int| 0 <= a < found.len() implies word_found_by_key(
                self.index(),
                self.words(),
                word,
                max_distance,
                (#[trigger] found[a]).0,
            ) by {
                let i = indices[a];
                assert(i < self.words().len());
                assert(self.words()[i as int] == found[a].0);
                assert(found_by_key(self.index(), self.words(), word, max_distance, i));
            }
        }
    }

    /// A lookup at distance 0 for a word of the list, with a budget of at
    /// least one, finds something wherever it is supported.
    pub proof fn known_word_is_found(&self, i: u64, max_results: nat)
        requires
            self.wf(),
            i < self.words().len(),
            max_results >= 1,
            self.fuzzy_matches(self.words()[i as int], 0, max_results) is Some,
        ensures
            self.fuzzy_matches(self.words()[i as int], 0, max_results)->0.len() > 0,
    {
        self.wf_facts();
        let word = self.words()[i as int];
        let exact_hits = fuzzy_hits(self.index(), normalized(word), 0)->0;
        let folded_hits = fuzzy_hits(self.index(), folded(normalized(word)), 0)->0;
        assert(word_indexed(self.index(), word));
        if has_key(self.index(), canonical_key(word)) {
            hits_where_key(self.index(), canonical_key(word));
        } else {
            hits_where_key(self.index(), folded_key(word));
        }
        selected_head(folded_hits, exact_hits, max_results);
    }

    /// A lookup at distance 0 for a word of the list reports that word first,
    /// where the key of the lookup's first choice names the word. It does not
    /// where another word stands under that key: a word that differs from it
    /// in case only, or in the kind of its apostrophes.
    pub proof fn known_word_comes_first(&self, i: u64, max_results: nat)
        requires
            self.wf(),
            i < self.words().len(),
            max_results >= 1,
            self.fuzzy_matches(self.words()[i as int], 0, max_results) is Some,
            first_choice(self.index(), self.words()[i as int], i),
        ensures
            self.fuzzy_matches(self.words()[i as int], 0, max_results)->0.len() > 0,
            self.fuzzy_matches(self.words()[i as int], 0, max_results)->0[0].0 == self.words()[i as int],
    {
        exact_lookup_reports_first_choice(self.index(), self.words()[i as int], i, max_results);
    }

    /// A query that differs from a word of the list in case only finds that
    /// word through the folded key: where the index has the word's folded key
    /// and the key names the word, a lookup at distance 0 reports the word
    /// first.
    pub proof fn case_variant_surfaces_word(&self, query: Seq<char>, i: u64, max_results: nat)
        requires
            self.wf(),
            i < self.words().len(),
            max_results >= 1,
            folded(normalized(query)) == folded(normalized(self.words()[i as int])),
            key_names(self.index(), folded_key(self.words()[i as int]), i),
            self.fuzzy_matches(query, 0, max_results) is Some,
        ensures
            self.fuzzy_matches(query, 0, max_results)->0.len() > 0,
            self.fuzzy_matches(query, 0, max_results)->0[0].0 == self.words()[i as int],
    {
        exact_lookup_reports_first_choice(self.index(), query, i, max_results);
    }
}

/// Whether `key` is a form of `word`: the bytes of its canonical or of its
/// folded form.
pub fn key_is_form_of(key: &[u8], word: &[char]) -> (r: bool)
    ensures
        r == key_of(key@, word@),
{
    let canonical = seq_to_normalized(word);
    let canonical_text = chars_to_string(canonical.as_slice());
    if same_bytes(key, canonical_text.as_str().as_bytes()) {
        return true;
    }
    let lower = seq_to_lowercase(canonical.as_slice());
    let lower_text = chars_to_string(lower.as_slice());
    same_bytes(key, lower_text.as_str().as_bytes())
}

/// Whether every entry fits `words`: names a word of the list, under a key
/// that is a form of that word.
pub fn entries_fit_words(entries: &Vec<(Vec<u8>, u64)>, words: &FullDictionary) -> (r: bool)
    ensures
        r == entries_fit(entry_views(entries@), words.words()),
{
    let count = words.word_count();
    let ghost views = entry_views(entries@);
    let mut i: usize = 0;
    while i < entries.len()
        invariant
            i <= entries.len(),
            count == words.words().len(),
            views == entry_views(entries@),
            forall|j: int| 0 <= j < i ==> entry_fits(#[trigger] views[j], words.words()),
        decreases entries.len() - i,
    {
        let value = entries[i].1;
        assert(views[i as int] == (entries@[i as int].0@, value));
        if value >= count as u64 {
            assert(!entry_fits(views[i as int], words.words()));
            return false;
        }
        let fits = key_is_form_of(entries[i].0.as_slice(), words.get_word(value as usize));
        if !fits {
            assert(!entry_fits(views[i as int], words.words()));
            return false;
        }
        i += 1;
    }
    true
}

/// Whether `index` has a key for every word of `words`: its canonical form
/// or its folded form.
pub fn index_covers_words(index: &FuzzyIndex, words: &FullDictionary) -> (r: bool)
    ensures
        r == words_indexed(index.entries(), words.words()),
{
    let count = words.word_count();
    let mut i: usize = 0;
    while i < count
        invariant
            i <= count,
            count == words.words().len(),
            forall|j: int| 0 <= j < i ==> word_indexed(index.entries(), #[trigger] words.words()[j]),
        decreases count - i,
    {
        let word = words.get_word(i);
        let canonical = seq_to_normalized(word);
        let canonical_text = chars_to_string(canonical.as_slice());
        if !index.contains_key(canonical_text.as_str()) {
            let lower = seq_to_lowercase(canonical.as_slice());
            let lower_text = chars_to_string(lower.as_slice());
            if !index.contains_key(lower_text.as_str()) {
                assert(!word_indexed(index.entries(), words.words()[i as int]));
                return false;
            }
        }
        assert(word_indexed(index.entries(), words.words()[i as int]));
        i += 1;
    }
    true
}

} // verus!
