//! The exact word store: the full word list with the metadata of each word.

use crate::text::str_to_chars;
use crate::word_metadata::WordMetadata;
use vstd::prelude::*;

verus! {

/// A `hashbrown::HashMap` from a word to its place in the word list.
#[verifier::external_body]
#[derive(Debug)]
pub struct WordLookup {
    inner: hashbrown::HashMap<Vec<char>, usize>,
}

/// What a [`WordLookup`] holds: each word it knows, with the place recorded for it.
pub uninterp spec fn lookup_entries(lookup: WordLookup) -> Map<Seq<char>, usize>;

/// `hashbrown::HashMap::new`. Trusted: the new map holds nothing.
#[verifier::external_body]
fn lookup_new() -> (r: WordLookup)
    ensures
        lookup_entries(r).dom() == Set::<Seq<char>>::empty(),
{
    WordLookup { inner: hashbrown::HashMap::new() }
}

/// `hashbrown::HashMap::insert`, with a copy of `word` as the key. Trusted: the
/// map afterwards holds `place` for `word` and is otherwise unchanged; the
/// result is the place that `word` had before, if it had one.
#[verifier::external_body]
fn lookup_insert(lookup: &mut WordLookup, word: &[char], place: usize) -> (r: Option<usize>)
    ensures
        lookup_entries(*final(lookup)) == lookup_entries(*old(lookup)).insert(word@, place),
        r == if lookup_entries(*old(lookup)).contains_key(word@) {
            Some(lookup_entries(*old(lookup))[word@])
        } else {
            None
        },
{
    lookup.inner.insert(word.to_vec(), place)
}

/// `hashbrown::HashMap::get`. Trusted: the result is the place recorded for
/// `word`, if the map holds the word.
#[verifier::external_body]
fn lookup_get(lookup: &WordLookup, word: &[char]) -> (r: Option<usize>)
    ensures
        r == if lookup_entries(*lookup).contains_key(word@) {
            Some(lookup_entries(*lookup)[word@])
        } else {
            None
        },
{
    lookup.inner.get(word).copied()
}

/// The place of `word` in `words`: the one index at which it stands.
pub open spec fn place_of(words: Seq<Seq<char>>, word: Seq<char>) -> int {
    choose|i: int| 0 <= i < words.len() && words[i] == word
}

/// The words of `words` that are exactly `len` characters long, in order.
pub open spec fn words_of_length(words: Seq<Seq<char>>, len: nat) -> Seq<Seq<char>> {
    words.filter(|w: Seq<char>| w.len() == len)
}

/// The full word list. A word's index is its place in the list; no word stands
/// in the list twice, and nothing changes once the dictionary is made.
#[derive(Debug)]
pub struct FullDictionary {
    words: Vec<Vec<char>>,
    metadata: Vec<WordMetadata>,
    lookup: WordLookup,
}

impl FullDictionary {
    /// The word list, in index order.
    pub closed spec fn words(&self) -> Seq<Seq<char>> {
        self.words@.map_values(|w: Vec<char>| w@)
    }

    /// The metadata of each word, in index order.
    pub closed spec fn metadata(&self) -> Seq<WordMetadata> {
        self.metadata@
    }

    /// Every word has its metadata, and the lookup table is the word list
    /// turned round: it holds each word of the list, with its index.
    pub closed spec fn wf(&self) -> bool {
        &&& self.metadata@.len() == self.words@.len()
        &&& forall|i: int|
            0 <= i < self.words().len() ==> lookup_entries(self.lookup).contains_key(
                #[trigger] self.words()[i],
            ) && lookup_entries(self.lookup)[self.words()[i]] == i
        &&& forall|w: Seq<char>| #[trigger]
            lookup_entries(self.lookup).contains_key(w) ==> lookup_entries(self.lookup)[w]
                < self.words().len() && self.words()[lookup_entries(self.lookup)[w] as int] == w
    }

    #[verifier::type_invariant]
    pub(crate) open spec fn inv(&self) -> bool {
        self.wf()
    }

    /// In a well-formed dictionary every word has its metadata and no word
    /// stands twice.
    pub proof fn wf_facts(&self)
        requires
            self.wf(),
        ensures
            self.metadata().len() == self.words().len(),
            self.words().no_duplicates(),
    {
        assert forall|i: int, j: int|
            0 <= i < self.words().len() && 0 <= j < self.words().len() && i != j implies self.words()[i]
            != self.words()[j] by {
            if self.words()[i] == self.words()[j] {
                assert(lookup_entries(self.lookup)[self.words()[i]] == i);
                assert(lookup_entries(self.lookup)[self.words()[j]] == j);
            }
        }
    }

    /// Makes a dictionary of `words`, with `metadata[i]` the metadata of
    /// `words[i]`. There is no dictionary where the two lists differ in
    /// length or a word stands twice.
    pub fn new(words: Vec<Vec<char>>, metadata: Vec<WordMetadata>) -> (r: Option<FullDictionary>)
        ensures
            r is Some <==> (words@.len() == metadata@.len() && words@.map_values(
                |w: Vec<char>| w@,
            ).no_duplicates()),
            r matches Some(d) ==> d.wf() && d.words() == words@.map_values(|w: Vec<char>| w@)
                && d.metadata() == metadata@,
    {
        let ghost all = words@.map_values(|w: Vec<char>| w@);
        if words.len() != metadata.len() {
            return None;
        }
        let mut lookup = lookup_new();
        let mut i: usize = 0;
        while i < words.len()
            invariant
                i <= words.len(),
                all == words@.map_values(|w: Vec<char>| w@),
                forall|j: int|
                    0 <= j < i ==> lookup_entries(lookup).contains_key(#[trigger] all[j])
                        && lookup_entries(lookup)[all[j]] == j,
                forall|w: Seq<char>| #[trigger]
                    lookup_entries(lookup).contains_key(w) ==> lookup_entries(lookup)[w] < i
                        && all[lookup_entries(lookup)[w] as int] == w,
            decreases words.len() - i,
        {
            let ghost before = lookup_entries(lookup);
            let earlier = lookup_insert(&mut lookup, words[i].as_slice(), i);
            assert(words[i as int]@ == all[i as int]);
            if earlier.is_some() {
                proof {
                    let j = before[all[i as int]] as int;
                    assert(all[j] == all[i as int] && j != i);
                }
                return None;
            }
            proof {
                assert forall|j: int| 0 <= j < i + 1 implies lookup_entries(lookup).contains_key(
                    #[trigger] all[j],
                ) && lookup_entries(lookup)[all[j]] == j by {
                    if j < i {
                        assert(before.contains_key(all[j]));
                    }
                }
            }
            i += 1;
        }
        proof {
            assert forall|a: int, b: int|
                0 <= a < all.len() && 0 <= b < all.len() && a != b implies all[a] != all[b] by {
                if all[a] == all[b] {
                    assert(lookup_entries(lookup)[all[a]] == a);
                    assert(lookup_entries(lookup)[all[b]] == b);
                }
            }
        }
        Some(FullDictionary { words, metadata, lookup })
    }

    /// The number of words.
    pub fn word_count(&self) -> (r: usize)
        ensures
            r == self.words().len(),
            self.wf(),
    {
        proof {
            use_type_invariant(self);
        }
        self.words.len()
    }

    /// The index of `word` in the word list, if the list holds exactly these
    /// characters.
    pub fn index_of(&self, word: &[char]) -> (r: Option<usize>)
        ensures
            self.wf(),
            r is Some <==> self.words().contains(word@),
            r matches Some(i) ==> i < self.words().len() && self.words()[i as int] == word@ && i
                == place_of(self.words(), word@),
    {
        proof {
            use_type_invariant(self);
            self.wf_facts();
        }
        let found = lookup_get(&self.lookup, word);
        proof {
            if self.words().contains(word@) {
                let i = choose|i: int| 0 <= i < self.words().len() && self.words()[i] == word@;
                assert(lookup_entries(self.lookup).contains_key(self.words()[i]));
            }
            if let Some(i) = found {
                assert(self.words()[i as int] == word@);
                let p = place_of(self.words(), word@);
                assert(0 <= p < self.words().len() && self.words()[p] == word@);
            }
        }
        found
    }

    /// Whether the word list holds exactly these characters.
    pub fn contains_word(&self, word: &[char]) -> (r: bool)
        ensures
            r == self.words().contains(word@),
    {
        self.index_of(word).is_some()
    }

    /// Whether the word list holds exactly the characters of `word`.
    pub fn contains_word_str(&self, word: &str) -> (r: bool)
        ensures
            r == self.words().contains(word@),
    {
        let chars = str_to_chars(word);
        self.contains_word(chars.as_slice())
    }

    /// The word at `index`, borrowed from the dictionary.
    pub fn get_word(&self, index: usize) -> (r: &[char])
        requires
            index < self.words().len(),
        ensures
            r@ == self.words()[index as int],
    {
        self.words[index].as_slice()
    }

    /// A copy of the metadata of the word at `index`.
    pub fn get_metadata(&self, index: usize) -> (r: WordMetadata)
        requires
            index < self.words().len(),
        ensures
            r == self.metadata()[index as int],
    {
        proof {
            use_type_invariant(self);
        }
        self.metadata[index]
    }

    /// A copy of the metadata of `word`; of a word that the list does not
    /// hold, the metadata of an unknown word.
    pub fn get_word_metadata(&self, word: &[char]) -> (r: WordMetadata)
        ensures
            r == if self.words().contains(word@) {
                self.metadata()[place_of(self.words(), word@)]
            } else {
                WordMetadata::unknown()
            },
    {
        match self.index_of(word) {
            Some(i) => self.get_metadata(i),
            None => WordMetadata::default(),
        }
    }

    /// As [`FullDictionary::get_word_metadata`], of the characters of `word`.
    pub fn get_word_metadata_str(&self, word: &str) -> (r: WordMetadata)
        ensures
            r == if self.words().contains(word@) {
                self.metadata()[place_of(self.words(), word@)]
            } else {
                WordMetadata::unknown()
            },
    {
        let chars = str_to_chars(word);
        self.get_word_metadata(chars.as_slice())
    }

    /// Every word, in index order. The order is the same at every call.
    pub fn words_iter(&self) -> (r: Vec<&[char]>)
        ensures
            r@.map_values(|w: &[char]| w@) == self.words(),
    {
        let mut out: Vec<&[char]> = Vec::new();
        let mut i: usize = 0;
        while i < self.words.len()
            invariant
                i <= self.words.len(),
                out@.map_values(|w: &[char]| w@) == self.words().take(i as int),
            decreases self.words.len() - i,
        {
            let ghost before = out@;
            let word = self.words[i].as_slice();
            out.push(word);
            i += 1;
            proof {
                let views = out@.map_values(|w: &[char]| w@);
                let part = self.words().take(i as int);
                assert(self.words().len() == self.words@.len());
                assert(before.map_values(|w: &[char]| w@).len() == before.len());
                assert(self.words().take(i - 1).len() == i - 1);
                assert(views.len() == part.len());
                assert forall|j: int| 0 <= j < views.len() implies views[j] == part[j] by {
                    if j < i - 1 {
                        assert(before.map_values(|w: &[char]| w@)[j] == self.words().take(i - 1)[j]);
                    }
                }
                assert(views =~= part);
            }
        }
        assert(self.words().take(i as int) =~= self.words());
        out
    }

    /// The words that are exactly `len` characters long, in index order.
    pub fn words_with_len_iter(&self, len: usize) -> (r: Vec<&[char]>)
        ensures
            r@.map_values(|w: &[char]| w@) == words_of_length(self.words(), len as nat),
    {
        let mut out: Vec<&[char]> = Vec::new();
        let mut i: usize = 0;
        while i < self.words.len()
            invariant
                i <= self.words.len(),
                out@.map_values(|w: &[char]| w@) == words_of_length(
                    self.words().take(i as int),
                    len as nat,
                ),
            decreases self.words.len() - i,
        {
            proof {
                let next = self.words().take(i + 1);
                assert(next.drop_last() =~= self.words().take(i as int));
                assert(next.last() == self.words()[i as int]);
                reveal(Seq::filter);
            }
            if self.words[i].len() == len {
                out.push(self.words[i].as_slice());
                assert(out@.map_values(|w: &[char]| w@) =~= words_of_length(
                    self.words().take(i + 1),
                    len as nat,
                ));
            }
            i += 1;
        }
        assert(self.words().take(i as int) =~= self.words());
        out
    }
}

} // verus!
