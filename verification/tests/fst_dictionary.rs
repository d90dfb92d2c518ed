use fuzzy_dictionary::normalize::seq_to_lowercase;
use fuzzy_dictionary::seq_to_normalized;
use fuzzy_dictionary::DictionaryError;
use fuzzy_dictionary::FstDictionary;
use fuzzy_dictionary::FullDictionary;
use fuzzy_dictionary::FuzzyIndex;
use fuzzy_dictionary::WordMetadata;
use std::sync::Arc;

const WORDS: [&str; 12] = [
    "hello", "help", "world", "Hello", "hells", "don't", "cat", "cot", "Cat", "Paris", "spelling",
    "checker",
];

fn chars(text: &str) -> Vec<char> {
    text.chars().collect()
}

fn text(word: &[char]) -> String {
    word.iter().collect()
}

fn canonical(word: &str) -> String {
    text(&seq_to_normalized(&chars(word)))
}

fn lower(word: &str) -> String {
    text(&seq_to_lowercase(&seq_to_normalized(&chars(word))))
}

/// The given entries in key order, one for each key.
fn index_of_entries(mut entries: Vec<(String, u64)>) -> Vec<(Vec<u8>, u64)> {
    entries.sort_by(|a, b| a.0.as_bytes().cmp(b.0.as_bytes()));
    entries.dedup_by(|later, earlier| later.0 == earlier.0);
    entries.into_iter().map(|(key, value)| (key.into_bytes(), value)).collect()
}

fn entry(key: &str, value: u64) -> (Vec<u8>, u64) {
    (key.as_bytes().to_vec(), value)
}

/// The entries of the index compiled for a word list: each word's canonical
/// form, and its folded form where that differs.
fn index_for(words: &[&str]) -> Vec<(Vec<u8>, u64)> {
    let mut entries = Vec::new();
    for (i, word) in words.iter().enumerate() {
        entries.push((canonical(word), i as u64));
    }
    for (i, word) in words.iter().enumerate() {
        if lower(word) != canonical(word) {
            entries.push((lower(word), i as u64));
        }
    }
    entries.sort_by_key(|entry| entry.1);
    index_of_entries(entries)
}

fn store_of(words: &[&str]) -> Arc<FullDictionary> {
    let list: Vec<Vec<char>> = words.iter().map(|w| chars(w)).collect();
    let metadata: Vec<WordMetadata> =
        (0..words.len()).map(|i| WordMetadata { attributes: 100 + i as u64 }).collect();
    Arc::new(FullDictionary::new(list, metadata).unwrap())
}

fn dictionary_of(words: &[&str]) -> Arc<FstDictionary> {
    FstDictionary::curated(store_of(words), index_for(words)).unwrap()
}

fn small_dictionary() -> Arc<FstDictionary> {
    dictionary_of(&WORDS)
}

fn found_words(found: &[(&[char], u8, WordMetadata)]) -> Vec<String> {
    found.iter().map(|m| text(m.0)).collect()
}

#[test]
fn fst_contains() {
    let dict = small_dictionary();

    for word in dict.words_iter() {
        let misspelled_normalized = seq_to_normalized(word);
        let misspelled_word: String = misspelled_normalized.iter().collect();
        let misspelled_lower: String =
            misspelled_normalized.iter().flat_map(|v| v.to_lowercase()).collect();

        assert!(!misspelled_word.is_empty());
        assert!(
            dict.word_map().contains_key(&misspelled_word)
                || dict.word_map().contains_key(&misspelled_lower)
        );
    }
}

#[test]
fn fst_contains_hello() {
    let dict = small_dictionary();

    let word: Vec<_> = "hello".chars().collect();
    let misspelled_normalized = seq_to_normalized(&word);
    let misspelled_word: String = misspelled_normalized.iter().collect();
    let misspelled_lower: String =
        misspelled_normalized.iter().flat_map(|v| v.to_lowercase()).collect();

    assert!(dict.contains_word(&misspelled_normalized));
    assert!(
        dict.word_map().contains_key(&misspelled_lower)
            || dict.word_map().contains_key(&misspelled_word)
    );
}

#[test]
fn every_word_is_contained() {
    let dict = small_dictionary();
    assert_eq!(dict.words_iter().len(), WORDS.len());
    for (i, word) in WORDS.iter().enumerate() {
        assert!(dict.contains_word(&chars(word)));
        assert!(dict.contains_word_str(word));
        assert_eq!(text(dict.words_iter()[i]), *word);
    }
    assert!(!dict.contains_word_str("helo"));
    assert!(!dict.contains_word_str("HELLO"));
    assert!(!dict.contains_word_str(""));
}

#[test]
fn metadata_by_word() {
    let dict = small_dictionary();
    assert_eq!(dict.get_word_metadata(&chars("hello")), WordMetadata { attributes: 100 });
    assert_eq!(dict.get_word_metadata_str("Hello"), WordMetadata { attributes: 103 });
    assert_eq!(dict.get_word_metadata_str("checker"), WordMetadata { attributes: 111 });
    assert_eq!(dict.get_word_metadata_str("nothing"), WordMetadata::default());
    assert_eq!(WordMetadata::default(), WordMetadata { attributes: 0 });
}

#[test]
fn words_by_length() {
    let dict = small_dictionary();
    let three: Vec<String> = dict.words_with_len_iter(3).iter().map(|w| text(w)).collect();
    assert_eq!(three, vec!["cat", "cot", "Cat"]);
    let five: Vec<String> = dict.words_with_len_iter(5).iter().map(|w| text(w)).collect();
    assert_eq!(five, vec!["hello", "world", "Hello", "hells", "don't", "Paris"]);
    assert!(dict.words_with_len_iter(0).is_empty());
    assert!(dict.words_with_len_iter(40).is_empty());
}

#[test]
fn exact_query_finds_the_word_first() {
    let dict = dictionary_of(&["hello", "help", "world"]);
    for word in ["hello", "help", "world"] {
        for budget in [1usize, 2, 5] {
            let found = dict.fuzzy_match_str(word, 0, budget).unwrap();
            assert_eq!(found_words(&found), vec![word]);
        }
    }
}

#[test]
fn exact_query_with_a_case_twin_finds_the_folded_key_first() {
    // "Hello" and "hello" share the key "hello", which names "hello".
    let dict = dictionary_of(&["hello", "Hello"]);
    let found = dict.fuzzy_match_str("Hello", 0, 3).unwrap();
    assert_eq!(found_words(&found), vec!["hello", "Hello"]);
}

#[test]
fn one_edit_away() {
    let dict = small_dictionary();
    let found = dict.fuzzy_match_str("helo", 1, 3).unwrap();
    assert_eq!(found_words(&found), vec!["hello", "help"]);
    assert_eq!(found[0].2, WordMetadata { attributes: 100 });
    assert_eq!(found[1].2, WordMetadata { attributes: 101 });
}

#[test]
fn lookup_by_characters_is_lookup_by_text() {
    let dict = small_dictionary();
    for (word, distance, budget) in [("helo", 1u8, 3usize), ("Cat", 1, 3), ("wrld", 2, 4)] {
        let by_text = dict.fuzzy_match_str(word, distance, budget).unwrap();
        let query = chars(word);
        let by_chars = dict.fuzzy_match(&query, distance, budget).unwrap();
        assert_eq!(by_text, by_chars);
    }
}

#[test]
fn hits_are_interleaved_folded_first() {
    let dict = dictionary_of(&["cat", "cot", "Cat"]);
    // Folded search for "cat": "Cat", "cat", "cot". Search for "Cat": "Cat", "cat".
    let found = dict.fuzzy_match_str("Cat", 1, 3).unwrap();
    assert_eq!(found_words(&found), vec!["Cat", "cat", "cot"]);
    let found = dict.fuzzy_match_str("Cat", 1, 2).unwrap();
    assert_eq!(found_words(&found), vec!["Cat", "cat"]);
    let found = dict.fuzzy_match_str("Cat", 1, 1).unwrap();
    assert_eq!(found_words(&found), vec!["Cat"]);
    let found = dict.fuzzy_match_str("Cat", 1, 10).unwrap();
    assert_eq!(found_words(&found), vec!["Cat", "cat", "cot"]);
}

#[test]
fn the_budget_bounds_the_attempts() {
    // Both keys of "Hello" name the same word, so two rounds see one word.
    let dict = dictionary_of(&["Hello", "hells"]);
    let found = dict.fuzzy_match_str("hello", 1, 2).unwrap();
    assert_eq!(found_words(&found), vec!["Hello"]);
    let found = dict.fuzzy_match_str("hello", 1, 3).unwrap();
    assert_eq!(found_words(&found), vec!["Hello", "hells"]);
}

#[test]
fn never_more_than_the_budget() {
    let dict = small_dictionary();
    for word in ["helo", "hello", "cat", "Cat", "wrld", "x", ""] {
        for distance in 0u8..=2 {
            for budget in 0usize..=5 {
                let found = dict.fuzzy_match_str(word, distance, budget).unwrap();
                assert!(found.len() <= budget);
            }
        }
    }
    assert!(dict.fuzzy_match_str("hello", 1, 0).unwrap().is_empty());
}

#[test]
fn no_word_twice() {
    let dict = small_dictionary();
    for word in ["helo", "hello", "Hello", "cat", "Cat", "cot", "hells"] {
        for distance in 0u8..=2 {
            let found = dict.fuzzy_match_str(word, distance, 10).unwrap();
            let words = found_words(&found);
            for a in 0..words.len() {
                for b in 0..a {
                    assert_ne!(words[a], words[b]);
                }
            }
        }
    }
}

#[test]
fn same_arguments_same_results() {
    let dict = small_dictionary();
    for word in ["helo", "Cat", "wrld"] {
        let first = dict.fuzzy_match_str(word, 2, 4).unwrap();
        let second = dict.fuzzy_match_str(word, 2, 4).unwrap();
        assert_eq!(first, second);
    }
}

#[test]
fn case_variants_find_a_mixed_case_word() {
    let dict = small_dictionary();
    for query in ["paris", "PARIS", "Paris", "pArIs"] {
        let found = dict.fuzzy_match_str(query, 0, 3).unwrap();
        assert_eq!(found_words(&found), vec!["Paris"]);
        let found = dict.fuzzy_match_str(query, 1, 3).unwrap();
        assert!(found_words(&found).contains(&"Paris".to_string()));
    }
}

#[test]
fn typographic_apostrophe_is_the_plain_one() {
    let dict = small_dictionary();
    for query in ["don\u{2019}t", "don\u{2018}t", "don\u{ff07}t", "don't"] {
        let found = dict.fuzzy_match_str(query, 0, 3).unwrap();
        assert_eq!(found_words(&found), vec!["don't"]);
    }
}

#[test]
fn the_distance_field_carries_the_index() {
    let dict = small_dictionary();
    let found = dict.fuzzy_match_str("checker", 0, 1).unwrap();
    assert_eq!(found_words(&found), vec!["checker"]);
    assert_eq!(found[0].1, 11);
    let found = dict.fuzzy_match_str("help", 0, 1).unwrap();
    assert_eq!(found[0].1, 1);
}

#[test]
fn the_distance_field_wraps_at_256() {
    let names: Vec<String> = (0..300).map(|i| format!("w{:03}", i)).collect();
    let words: Vec<&str> = names.iter().map(|w| w.as_str()).collect();
    let dict = dictionary_of(&words);
    let found = dict.fuzzy_match_str("w299", 0, 1).unwrap();
    assert_eq!(found_words(&found), vec!["w299"]);
    assert_eq!(found[0].1, 43);
    assert_eq!(found[0].2, WordMetadata { attributes: 399 });
}

#[test]
fn distance_beyond_the_ceiling_is_unsupported() {
    let dict = small_dictionary();
    assert_eq!(dict.fuzzy_match_str("hello", 3, 3), Err(DictionaryError::UnsupportedDistance));
    assert_eq!(dict.fuzzy_match_str("hello", 255, 3), Err(DictionaryError::UnsupportedDistance));
    assert_eq!(
        dict.fuzzy_match(&chars("hello"), 3, 0),
        Err(DictionaryError::UnsupportedDistance)
    );
    assert!(dict.fuzzy_match_str("hello", 2, 3).is_ok());
}

#[test]
fn a_query_too_long_for_an_automaton_is_unsupported() {
    let dict = small_dictionary();
    let long: String = (0..4000).map(|_| 'a').collect();
    assert_eq!(dict.fuzzy_match_str(&long, 2, 3), Err(DictionaryError::UnsupportedDistance));
}

#[test]
fn entries_out_of_order_are_corrupt() {
    let store = store_of(&["hello", "help"]);
    let entries = vec![entry("help", 1), entry("hello", 0)];
    assert_eq!(
        FstDictionary::curated(store.clone(), entries.clone()).err(),
        Some(DictionaryError::CorruptIndex)
    );
    assert_eq!(FuzzyIndex::from_entries(entries).err(), Some(DictionaryError::CorruptIndex));
    // A key that goes on stands after the key that ends.
    assert!(FuzzyIndex::from_entries(vec![entry("hell", 0), entry("hello", 1)]).is_ok());
    assert!(FuzzyIndex::from_entries(vec![entry("hello", 1), entry("hell", 0)]).is_err());
    assert!(FuzzyIndex::from_entries(vec![]).is_ok());
}

#[test]
fn a_key_twice_is_corrupt() {
    let store = store_of(&["hello", "Hello"]);
    let entries = vec![entry("Hello", 1), entry("hello", 0), entry("hello", 1)];
    assert_eq!(FstDictionary::curated(store, entries).err(), Some(DictionaryError::CorruptIndex));
}

#[test]
fn the_first_failure_is_reported() {
    // Out of order, beyond the list, and a word without a key: corrupt comes first.
    let store = store_of(&["hello", "help", "world"]);
    let entries = vec![entry("help", 7), entry("hello", 0)];
    assert_eq!(
        FstDictionary::curated(store.clone(), entries).err(),
        Some(DictionaryError::CorruptIndex)
    );
    // In order, beyond the list, and a word without a key: invalid comes next.
    let entries = vec![entry("hello", 0), entry("help", 7)];
    assert_eq!(FstDictionary::curated(store, entries).err(), Some(DictionaryError::InvalidIndex));
}

#[test]
fn entries_from_a_compiled_buffer() {
    // Compile the index to a buffer and read the entries back from it.
    let words = ["hello", "help", "Paris"];
    let buffer = fst::Map::from_iter(index_for(&words)).unwrap().into_fst().into_inner();
    let entries = fst::Map::new(buffer).unwrap().stream().into_byte_vec();
    assert_eq!(entries, index_for(&words));
    let dict = FstDictionary::curated(store_of(&words), entries).unwrap();
    let found = dict.fuzzy_match_str("helo", 1, 3).unwrap();
    assert_eq!(found_words(&found), vec!["hello", "help"]);
}

#[test]
fn an_index_beyond_the_word_list_is_invalid() {
    let store = store_of(&["hello", "help"]);
    let index = index_of_entries(vec![("hello".to_string(), 0), ("help".to_string(), 2)]);
    assert_eq!(FstDictionary::curated(store, index).err(), Some(DictionaryError::InvalidIndex));
}

#[test]
fn a_key_that_is_no_form_of_its_word_is_invalid() {
    let store = store_of(&["hello", "help"]);
    let entries = vec![entry("hello", 0), entry("help", 1), entry("world", 0)];
    assert_eq!(
        FstDictionary::curated(store.clone(), entries).err(),
        Some(DictionaryError::InvalidIndex)
    );
    // The keys of the two words, each under the other's index.
    let entries = vec![entry("hello", 1), entry("help", 0)];
    assert_eq!(FstDictionary::curated(store, entries).err(), Some(DictionaryError::InvalidIndex));
}

#[test]
fn an_index_that_misses_a_word_is_incomplete() {
    let store = store_of(&["hello", "help", "world"]);
    let index = index_for(&["hello", "help"]);
    assert_eq!(FstDictionary::curated(store, index).err(), Some(DictionaryError::IncompleteIndex));
}

#[test]
fn the_folded_key_alone_covers_a_word() {
    let store = store_of(&["Paris"]);
    let index = index_of_entries(vec![("paris".to_string(), 0)]);
    let dict = FstDictionary::curated(store, index).unwrap();
    let found = dict.fuzzy_match_str("PARIS", 0, 1).unwrap();
    assert_eq!(found_words(&found), vec!["Paris"]);
}

#[test]
fn an_empty_dictionary_finds_nothing() {
    let dict = dictionary_of(&[]);
    assert!(dict.words_iter().is_empty());
    assert!(!dict.contains_word_str("hello"));
    assert!(dict.fuzzy_match_str("hello", 2, 3).unwrap().is_empty());
}

#[test]
fn index_keys() {
    let index = FuzzyIndex::from_entries(index_for(&["Paris", "cat"])).unwrap();
    assert!(index.contains_key("Paris"));
    assert!(index.contains_key("paris"));
    assert!(index.contains_key("cat"));
    assert!(!index.contains_key("Cat"));
    assert!(!index.contains_key("ca"));
    assert!(!index.contains_key(""));
    assert_eq!(index.get("Paris"), Some(0));
    assert_eq!(index.get("paris"), Some(0));
    assert_eq!(index.get("cat"), Some(1));
    assert_eq!(index.get("Cat"), None);
    assert_eq!(index.get(""), None);
}

#[test]
fn the_first_choice_of_a_lookup_can_be_asked() {
    // "Hello" and "hello" share the folded key, which names "hello".
    let dict = dictionary_of(&["hello", "Hello", "Paris"]);
    assert_eq!(dict.word_map().get("hello"), Some(0));
    assert_eq!(dict.word_map().get("Hello"), Some(1));
    assert_eq!(dict.word_map().get("paris"), Some(2));
    let found = dict.fuzzy_match_str("PARIS", 0, 1).unwrap();
    assert_eq!(found_words(&found), vec!["Paris"]);
}

#[test]
fn a_search_hands_out_indices_in_key_order() {
    let index = FuzzyIndex::from_entries(index_for(&["fob", "foo", "fa", "food", "focus"])).unwrap();
    let mut stream = index.fuzzy_search("foo", 1).unwrap();
    let mut seen = Vec::new();
    while let Some(i) = stream.next() {
        seen.push(i);
    }
    assert_eq!(seen, vec![0, 1, 3]);
    assert_eq!(stream.next(), None);
    assert!(index.fuzzy_search("foo", 3).is_err());
}

#[test]
fn dictionaries_with_the_same_words_are_equal() {
    let one = dictionary_of(&["hello", "help"]);
    let same = dictionary_of(&["hello", "help"]);
    let other_order = dictionary_of(&["help", "hello"]);
    let more = dictionary_of(&["hello", "help", "world"]);
    assert!(*one == *same);
    assert!(*one != *other_order);
    assert!(*one != *more);
    let plain = Arc::new(
        FullDictionary::new(
            vec![chars("hello"), chars("help")],
            vec![WordMetadata::default(), WordMetadata::default()],
        )
        .unwrap(),
    );
    let other_metadata = FstDictionary::curated(plain, index_for(&["hello", "help"])).unwrap();
    assert!(*one != *other_metadata);
}

#[test]
fn the_empty_word_is_a_word() {
    let dict = dictionary_of(&["", "a"]);
    assert!(dict.contains_word(&[]));
    assert!(dict.word_map().contains_key(""));
    let found = dict.fuzzy_match_str("", 0, 3).unwrap();
    assert_eq!(found_words(&found), vec![""]);
    let found = dict.fuzzy_match_str("a", 1, 3).unwrap();
    assert_eq!(found_words(&found), vec!["", "a"]);
    let found = dict.fuzzy_match_str("a", 0, 3).unwrap();
    assert_eq!(found_words(&found), vec!["a"]);
}

#[test]
fn a_query_beyond_ascii() {
    let dict = dictionary_of(&["caf\u{e9}", "cafe", "\u{c9}cole"]);
    let found = dict.fuzzy_match_str("caf\u{e9}", 0, 3).unwrap();
    assert_eq!(found_words(&found), vec!["caf\u{e9}"]);
    let found = dict.fuzzy_match_str("\u{e9}cole", 0, 3).unwrap();
    assert_eq!(found_words(&found), vec!["\u{c9}cole"]);
    let found = dict.fuzzy_match_str("\u{c9}COLE", 0, 3).unwrap();
    assert_eq!(found_words(&found), vec!["\u{c9}cole"]);
}
