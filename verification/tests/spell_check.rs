use fuzzy_dictionary::normalize::seq_to_lowercase;
use fuzzy_dictionary::seq_to_normalized;
use fuzzy_dictionary::spell_check;
use fuzzy_dictionary::Document;
use fuzzy_dictionary::FstDictionary;
use fuzzy_dictionary::FullDictionary;
use fuzzy_dictionary::Lint;
use fuzzy_dictionary::LintKind;
use fuzzy_dictionary::Span;
use fuzzy_dictionary::Suggestion;
use fuzzy_dictionary::WordMetadata;
use std::sync::Arc;

fn chars(text: &str) -> Vec<char> {
    text.chars().collect()
}

fn text(word: &[char]) -> String {
    word.iter().collect()
}

fn index_for(words: &[&str]) -> Vec<(Vec<u8>, u64)> {
    let mut entries: Vec<(String, u64)> = Vec::new();
    for (i, word) in words.iter().enumerate() {
        let canonical = seq_to_normalized(&chars(word));
        let lower = seq_to_lowercase(&canonical);
        entries.push((text(&canonical), i as u64));
        if lower != canonical {
            entries.push((text(&lower), i as u64));
        }
    }
    entries.sort_by(|a, b| a.0.as_bytes().cmp(b.0.as_bytes()).then(a.1.cmp(&b.1)));
    entries.dedup_by(|later, earlier| later.0 == earlier.0);
    entries.into_iter().map(|(key, value)| (key.into_bytes(), value)).collect()
}

fn small_dictionary() -> Arc<FstDictionary> {
    let words = ["hello", "world", "this", "is", "a", "test", "Paris", "spelling", "help"];
    let list: Vec<Vec<char>> = words.iter().map(|w| chars(w)).collect();
    let metadata = vec![WordMetadata::default(); words.len()];
    let store = Arc::new(FullDictionary::new(list, metadata).unwrap());
    FstDictionary::curated(store, index_for(&words)).unwrap()
}

/// A document whose words are the stretches between blanks.
fn document(text: &str) -> Document {
    let source = chars(text);
    let mut words = Vec::new();
    let mut start = None;
    for (i, c) in source.iter().enumerate() {
        if c.is_whitespace() {
            if let Some(s) = start.take() {
                words.push(Span { start: s, end: i });
            }
        } else if start.is_none() {
            start = Some(i);
        }
    }
    if let Some(s) = start {
        words.push(Span { start: s, end: source.len() });
    }
    Document::new(source, words).unwrap()
}

fn replacements(lint: &Lint) -> Vec<String> {
    lint.suggestions
        .iter()
        .map(|s| match s {
            Suggestion::ReplaceWith(word) => text(word),
        })
        .collect()
}

#[test]
fn known_words_give_no_lint() {
    let dict = small_dictionary();
    assert!(spell_check(&document("this is a test"), &*dict).is_empty());
    assert!(spell_check(&document("hello world hello Paris"), &*dict).is_empty());
    assert!(spell_check(&document(""), &*dict).is_empty());
    assert!(spell_check(&document("   "), &*dict).is_empty());
}

#[test]
fn a_misspelled_word_gives_one_lint() {
    let dict = small_dictionary();
    let lints = spell_check(&document("helo"), &*dict);
    assert_eq!(lints.len(), 1);
    assert_eq!(lints[0].span, Span { start: 0, end: 4 });
    assert_eq!(lints[0].lint_kind, LintKind::Spelling);
    assert!(replacements(&lints[0]).contains(&"hello".to_string()));
    assert_eq!(replacements(&lints[0]), vec!["hello", "help"]);
}

#[test]
fn lints_come_in_document_order() {
    let dict = small_dictionary();
    let lints = spell_check(&document("this iz a tset of speling"), &*dict);
    let spans: Vec<Span> = lints.iter().map(|l| l.span).collect();
    assert_eq!(
        spans,
        vec![
            Span { start: 5, end: 7 },
            Span { start: 10, end: 14 },
            Span { start: 15, end: 17 },
            Span { start: 18, end: 25 },
        ]
    );
    assert_eq!(replacements(&lints[0]), vec!["is"]);
    assert_eq!(replacements(&lints[1]), Vec::<String>::new());
    assert_eq!(replacements(&lints[3]), vec!["spelling"]);
    for lint in &lints {
        assert_eq!(lint.lint_kind, LintKind::Spelling);
        assert!(lint.suggestions.len() <= 3);
    }
}

#[test]
fn an_unknown_word_without_a_match_is_still_flagged() {
    let dict = small_dictionary();
    let lints = spell_check(&document("hello xylophone"), &*dict);
    assert_eq!(
        lints,
        vec![Lint {
            span: Span { start: 6, end: 15 },
            lint_kind: LintKind::Spelling,
            suggestions: vec![],
        }]
    );
}

#[test]
fn exact_characters_decide() {
    let dict = small_dictionary();
    // "paris" is not in the list, "Paris" is: it is flagged, and suggested.
    let lints = spell_check(&document("paris"), &*dict);
    assert_eq!(lints.len(), 1);
    assert_eq!(replacements(&lints[0]), vec!["Paris"]);
}

#[test]
fn a_word_too_long_for_a_lookup_is_flagged_without_suggestions() {
    let dict = small_dictionary();
    let long: String = (0..6000).map(|_| 'a').collect();
    let lints = spell_check(&document(&long), &*dict);
    assert_eq!(lints.len(), 1);
    assert_eq!(lints[0].span, Span { start: 0, end: 6000 });
    assert!(lints[0].suggestions.is_empty());
}

#[test]
fn a_document_keeps_its_words() {
    let doc = document("hello  wide world");
    assert_eq!(
        doc.words().to_vec(),
        vec![Span { start: 0, end: 5 }, Span { start: 7, end: 11 }, Span { start: 12, end: 17 }]
    );
    assert_eq!(text(doc.get_span_content(Span { start: 7, end: 11 })), "wide");
    assert_eq!(text(doc.get_span_content(Span { start: 3, end: 3 })), "");
    assert_eq!(text(doc.get_span_content(Span { start: 0, end: 17 })), "hello  wide world");
}

#[test]
fn no_document_with_a_span_beyond_the_text() {
    assert!(Document::new(chars("hello"), vec![Span { start: 0, end: 6 }]).is_none());
    assert!(Document::new(chars("hello"), vec![Span { start: 3, end: 2 }]).is_none());
    assert!(Document::new(
        chars("hello"),
        vec![Span { start: 0, end: 5 }, Span { start: 9, end: 9 }]
    )
    .is_none());
    assert!(Document::new(chars("hello"), vec![Span { start: 5, end: 5 }]).is_some());
    assert!(Document::new(vec![], vec![]).is_some());
}

/// Asks any dictionary, through the trait alone.
fn ask<D: fuzzy_dictionary::Dictionary>(dictionary: &D, word: &str) -> (bool, Vec<String>) {
    let known = dictionary.contains_word_str(word);
    let found = dictionary.fuzzy_match_str(word, 1, 3).unwrap();
    (known, found.iter().map(|m| text(m.0)).collect())
}

#[test]
fn a_dictionary_answers_through_its_trait() {
    let dict = small_dictionary();
    assert_eq!(ask(&*dict, "hello"), (true, vec!["hello".to_string()]));
    assert_eq!(ask(&*dict, "helo"), (false, vec!["hello".to_string(), "help".to_string()]));
    assert_eq!(ask(&*dict, "qqqqqq"), (false, vec![]));
    let all = fuzzy_dictionary::Dictionary::words_iter(&*dict);
    assert_eq!(all.len(), 9);
    let two = fuzzy_dictionary::Dictionary::words_with_len_iter(&*dict, 2);
    assert_eq!(two.len(), 1);
    assert_eq!(text(two[0]), "is");
    assert_eq!(
        fuzzy_dictionary::Dictionary::get_word_metadata_str(&*dict, "hello"),
        WordMetadata::default()
    );
}
