//! A fuzzy word-lookup engine for spelling suggestions.
//!
//! A [`FullDictionary`] holds the word list and answers exact questions. A
//! [`FuzzyIndex`] is a compact, read-only map from the canonical and folded
//! forms of the words to their indices, searched within a bounded edit
//! distance. An [`FstDictionary`] puts the two together, and [`spell_check`]
//! turns the unknown words of a [`Document`] into [`Lint`]s with suggestions.

pub mod dictionary;
pub mod document;
pub mod equality;
pub mod error;
pub mod fst_dictionary;
pub mod full_dictionary;
pub mod index;
pub mod lint;
pub mod normalize;
pub mod selection;
pub mod spell_check;
pub mod text;
pub mod word_metadata;

pub use dictionary::Dictionary;
pub use document::Document;
pub use document::Span;
pub use error::DictionaryError;
pub use fst_dictionary::FstDictionary;
pub use full_dictionary::FullDictionary;
pub use index::FuzzyIndex;
pub use lint::Lint;
pub use lint::LintKind;
pub use lint::Suggestion;
pub use normalize::seq_to_normalized;
pub use spell_check::spell_check;
pub use word_metadata::WordMetadata;
