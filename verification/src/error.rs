//! The ways a dictionary can fail.

use vstd::prelude::*;

verus! {

/// Why a dictionary could not be assembled, or a fuzzy lookup not be run.
#[derive(Debug, Clone, Copy, PartialEq, Eq, Structural)]
pub enum DictionaryError {
    /// The entries of the index are no sorted map: a key stands out of order,
    /// or twice.
    CorruptIndex,
    /// The requested edit distance is beyond what the automaton supports.
    UnsupportedDistance,
    /// An entry of the index names a word that the word list does not hold, or
    /// names a word under a key that is no form of that word.
    InvalidIndex,
    /// The word list holds a word that the index has no key for.
    IncompleteIndex,
}

} // verus!
