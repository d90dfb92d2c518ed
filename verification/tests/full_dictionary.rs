use fuzzy_dictionary::equality::same_word;
use fuzzy_dictionary::fst_dictionary::key_is_form_of;
use fuzzy_dictionary::normalize::char_to_normalized;
use fuzzy_dictionary::normalize::seq_to_lowercase;
use fuzzy_dictionary::selection::dedup_preserving_order;
use fuzzy_dictionary::seq_to_normalized;
use fuzzy_dictionary::text::same_bytes;
use fuzzy_dictionary::text::str_to_chars;
use fuzzy_dictionary::FullDictionary;
use fuzzy_dictionary::WordMetadata;

fn chars(text: &str) -> Vec<char> {
    text.chars().collect()
}

fn text(word: &[char]) -> String {
    word.iter().collect()
}

fn store_of(words: &[&str]) -> Option<FullDictionary> {
    let list: Vec<Vec<char>> = words.iter().map(|w| chars(w)).collect();
    let metadata: Vec<WordMetadata> =
        (0..words.len()).map(|i| WordMetadata { attributes: 7 * i as u64 + 1 }).collect();
    FullDictionary::new(list, metadata)
}

#[test]
fn apostrophes_are_normalized() {
    assert_eq!(char_to_normalized('\u{2019}'), '\'');
    assert_eq!(char_to_normalized('\u{2018}'), '\'');
    assert_eq!(char_to_normalized('\u{ff07}'), '\'');
    assert_eq!(char_to_normalized('\''), '\'');
    assert_eq!(char_to_normalized('a'), 'a');
    assert_eq!(char_to_normalized('\u{e9}'), '\u{e9}');
    assert_eq!(text(&seq_to_normalized(&chars("it\u{2019}s Bob\u{2018}s"))), "it's Bob's");
    assert_eq!(seq_to_normalized(&[]), Vec::<char>::new());
}

#[test]
fn normalizing_twice_is_normalizing_once() {
    for word in ["hello", "it\u{2019}s", "\u{2018}\u{2019}\u{ff07}'", "", "Stra\u{df}e"] {
        let once = seq_to_normalized(&chars(word));
        let twice = seq_to_normalized(&once);
        assert_eq!(once, twice);
        assert_eq!(once.len(), chars(word).len());
    }
}

#[test]
fn folding_to_lower_case() {
    assert_eq!(text(&seq_to_lowercase(&chars("HeLLo"))), "hello");
    assert_eq!(text(&seq_to_lowercase(&chars("hello"))), "hello");
    assert_eq!(text(&seq_to_lowercase(&chars("\u{c9}COLE"))), "\u{e9}cole");
    // One character may fold to two.
    assert_eq!(seq_to_lowercase(&['\u{130}']), vec!['i', '\u{307}']);
    assert_eq!(seq_to_lowercase(&[]), Vec::<char>::new());
}

#[test]
fn text_to_characters() {
    assert_eq!(str_to_chars("h\u{e9}llo"), vec!['h', '\u{e9}', 'l', 'l', 'o']);
    assert_eq!(str_to_chars(""), Vec::<char>::new());
}

#[test]
fn same_words() {
    assert!(same_word(&chars("hello"), &chars("hello")));
    assert!(!same_word(&chars("hello"), &chars("hellp")));
    assert!(!same_word(&chars("hello"), &chars("hell")));
    assert!(same_word(&[], &[]));
}

#[test]
fn repeats_are_removed_in_place() {
    assert_eq!(dedup_preserving_order(&vec![3, 5, 3, 7, 5, 3]), vec![3, 5, 7]);
    assert_eq!(dedup_preserving_order(&vec![9, 9, 9]), vec![9]);
    assert_eq!(dedup_preserving_order(&vec![4, 1, 2]), vec![4, 1, 2]);
    assert_eq!(dedup_preserving_order(&vec![]), Vec::<u64>::new());
}

#[test]
fn a_store_holds_its_words() {
    let store = store_of(&["alpha", "beta", "Gamma"]).unwrap();
    assert_eq!(store.word_count(), 3);
    assert!(store.contains_word(&chars("alpha")));
    assert!(store.contains_word_str("Gamma"));
    assert!(!store.contains_word_str("gamma"));
    assert!(!store.contains_word_str("alph"));
    assert_eq!(store.index_of(&chars("beta")), Some(1));
    assert_eq!(store.index_of(&chars("delta")), None);
    assert_eq!(text(store.get_word(2)), "Gamma");
    assert_eq!(store.get_metadata(2), WordMetadata { attributes: 15 });
    assert_eq!(store.get_word_metadata(&chars("beta")), WordMetadata { attributes: 8 });
    assert_eq!(store.get_word_metadata_str("alpha"), WordMetadata { attributes: 1 });
    assert_eq!(store.get_word_metadata_str("delta"), WordMetadata { attributes: 0 });
}

#[test]
fn a_store_lists_its_words_in_order() {
    let store = store_of(&["alpha", "beta", "Gamma", "pi", "delta"]).unwrap();
    let all: Vec<String> = store.words_iter().iter().map(|w| text(w)).collect();
    assert_eq!(all, vec!["alpha", "beta", "Gamma", "pi", "delta"]);
    let again: Vec<String> = store.words_iter().iter().map(|w| text(w)).collect();
    assert_eq!(all, again);
    let five: Vec<String> = store.words_with_len_iter(5).iter().map(|w| text(w)).collect();
    assert_eq!(five, vec!["alpha", "Gamma", "delta"]);
    assert!(store.words_with_len_iter(3).is_empty());
}

#[test]
fn no_store_of_a_repeated_word() {
    assert!(store_of(&["alpha", "beta", "alpha"]).is_none());
    assert!(store_of(&["alpha", "Alpha"]).is_some());
    assert!(store_of(&[]).is_some());
}

#[test]
fn no_store_without_metadata_for_each_word() {
    assert!(FullDictionary::new(vec![chars("alpha")], vec![]).is_none());
    assert!(FullDictionary::new(vec![], vec![WordMetadata::default()]).is_none());
}

#[test]
fn stores_with_the_same_words_are_equal() {
    let one = store_of(&["alpha", "beta"]).unwrap();
    assert!(one == store_of(&["alpha", "beta"]).unwrap());
    assert!(one != store_of(&["beta", "alpha"]).unwrap());
    assert!(one != store_of(&["alpha"]).unwrap());
    assert!(one != store_of(&["alpha", "betb"]).unwrap());
}

#[test]
fn same_byte_strings() {
    assert!(same_bytes(b"hello", b"hello"));
    assert!(!same_bytes(b"hello", b"hellp"));
    assert!(!same_bytes(b"hello", b"hell"));
    assert!(same_bytes(b"", b""));
}

#[test]
fn a_key_is_a_form_of_its_word() {
    assert!(key_is_form_of(b"Paris", &chars("Paris")));
    assert!(key_is_form_of(b"paris", &chars("Paris")));
    assert!(!key_is_form_of(b"PARIS", &chars("Paris")));
    assert!(!key_is_form_of(b"pari", &chars("Paris")));
    assert!(key_is_form_of(b"don't", &chars("don\u{2019}t")));
    assert!(key_is_form_of("\u{e9}cole".as_bytes(), &chars("\u{c9}cole")));
    assert!(key_is_form_of(b"", &[]));
}
