//! What every dictionary can be asked, whatever stands behind it.

use crate::error::DictionaryError;
use crate::fst_dictionary::distinct_words;
use crate::fst_dictionary::match_views;
use crate::fst_dictionary::FstDictionary;
use crate::fst_dictionary::MatchView;
use crate::full_dictionary::place_of;
use crate::full_dictionary::words_of_length;
use crate::word_metadata::WordMetadata;
use vstd::prelude::*;

verus! {

/// The questions that a dictionary answers. Whoever consumes a dictionary
/// asks them through this trait and depends on nothing else.
pub trait Dictionary {
    /// The word list, in index order.
    spec fn word_list(&self) -> Seq<Seq<char>>;

    /// The metadata of each word, in index order.
    spec fn metadata_list(&self) -> Seq<WordMetadata>;

    /// What a fuzzy lookup returns, as plain values; `None` where the lookup
    /// is unsupported.
    spec fn fuzzy_results(&self, word: Seq<char>, max_distance: u8, max_results: nat) -> Option<
        Seq<MatchView>,
    >;

    /// Whether the word list holds exactly these characters.
    fn contains_word(&self, word: &[char]) -> (r: bool)
        ensures
            r == self.word_list().contains(word@),
    ;

    /// Whether the word list holds exactly the characters of `word`.
    fn contains_word_str(&self, word: &str) -> (r: bool)
        ensures
            r == self.word_list().contains(word@),
    ;

    /// A copy of the metadata of `word`; of a word that the list does not
    /// hold, the metadata of an unknown word.
    fn get_word_metadata(&self, word: &[char]) -> (r: WordMetadata)
        ensures
            r == if self.word_list().contains(word@) {
                self.metadata_list()[place_of(self.word_list(), word@)]
            } else {
                WordMetadata::unknown()
            },
    ;

    /// As [`Dictionary::get_word_metadata`], of the characters of `word`.
    fn get_word_metadata_str(&self, word: &str) -> (r: WordMetadata)
        ensures
            r == if self.word_list().contains(word@) {
                self.metadata_list()[place_of(self.word_list(), word@)]
            } else {
                WordMetadata::unknown()
            },
    ;

    /// Finds up to `max_results` words within `max_distance` edits of `word`:
    /// never more than `max_results`, and no word twice.
    fn fuzzy_match(&self, word: &[char], max_distance: u8, max_results: usize) -> (r: Result<
        Vec<(&[char], u8, WordMetadata)>,
        DictionaryError,
    >)
        ensures
            match r {
                Ok(found) => self.fuzzy_results(word@, max_distance, max_results as nat) == Some(
                    match_views(found@),
                ),
                Err(e) => e == DictionaryError::UnsupportedDistance && self.fuzzy_results(
                    word@,
                    max_distance,
                    max_results as nat,
                ) is None,
            },
            r matches Ok(found) ==> found@.len() <= max_results && distinct_words(
                match_views(found@),
            ),
    ;

    /// As [`Dictionary::fuzzy_match`], of the characters of `word`.
    fn fuzzy_match_str(&self, word: &str, max_distance: u8, max_results: usize) -> (r: Result<
        Vec<(&[char], u8, WordMetadata)>,
        DictionaryError,
    >)
        ensures
            match r {
                Ok(found) => self.fuzzy_results(word@, max_distance, max_results as nat) == Some(
                    match_views(found@),
                ),
                Err(e) => e == DictionaryError::UnsupportedDistance && self.fuzzy_results(
                    word@,
                    max_distance,
                    max_results as nat,
                ) is None,
            },
            r matches Ok(found) ==> found@.len() <= max_results && distinct_words(
                match_views(found@),
            ),
    ;

    /// Every word, in index order. The order is the same at every call.
    fn words_iter(&self) -> (r: Vec<&[char]>)
        ensures
            r@.map_values(|w: &[char]| w@) == self.word_list(),
    ;

    /// The words that are exactly `len` characters long, in index order.
    fn words_with_len_iter(&self, len: usize) -> (r: Vec<&[char]>)
        ensures
            r@.map_values(|w: &[char]| w@) == words_of_length(self.word_list(), len as nat),
    ;
}

impl Dictionary for FstDictionary {
    open spec fn word_list(&self) -> Seq<Seq<char>> {
        self.words()
    }

    open spec fn metadata_list(&self) -> Seq<WordMetadata> {
        self.metadata()
    }

    open spec fn fuzzy_results(&self, word: Seq<char>, max_distance: u8, max_results: nat) -> Option<
        Seq<MatchView>,
    > {
        self.fuzzy_matches(word, max_distance, max_results)
    }

    fn contains_word(&self, word: &[char]) -> (r: bool) {
        FstDictionary::contains_word(self, word)
    }

    fn contains_word_str(&self, word: &str) -> (r: bool) {
        FstDictionary::contains_word_str(self, word)
    }

    fn get_word_metadata(&self, word: &[char]) -> (r: WordMetadata) {
        FstDictionary::get_word_metadata(self, word)
    }

    fn get_word_metadata_str(&self, word: &str) -> (r: WordMetadata) {
        FstDictionary::get_word_metadata_str(self, word)
    }

    fn fuzzy_match(&self, word: &[char], max_distance: u8, max_results: usize) -> (r: Result<
        Vec<(&[char], u8, WordMetadata)>,
        DictionaryError,
    >) {
        FstDictionary::fuzzy_match(self, word, max_distance, max_results)
    }

    fn fuzzy_match_str(&self, word: &str, max_distance: u8, max_results: usize) -> (r: Result<
        Vec<(&[char], u8, WordMetadata)>,
        DictionaryError,
    >) {
        FstDictionary::fuzzy_match_str(self, word, max_distance, max_results)
    }

    fn words_iter(&self) -> (r: Vec<&[char]>) {
        FstDictionary::words_iter(self)
    }

    fn words_with_len_iter(&self, len: usize) -> (r: Vec<&[char]>) {
        FstDictionary::words_with_len_iter(self, len)
    }
}

} // verus!
