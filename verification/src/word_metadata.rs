//! The attributes attached to each word.

use vstd::prelude::*;

verus! {

/// The attributes of one word, as a set of flags. The dictionary stores and
/// hands out this value without looking inside it.
#[derive(Debug, Clone, Copy, PartialEq, Eq, Structural, Hash)]
pub struct WordMetadata {
    pub attributes: u64,
}

impl WordMetadata {
    /// The metadata of a word of which nothing is known.
    pub open spec fn unknown() -> WordMetadata {
        WordMetadata { attributes: 0 }
    }
}

impl Default for WordMetadata {
    fn default() -> (r: WordMetadata)
        ensures
            r == WordMetadata::unknown(),
    {
        WordMetadata { attributes: 0 }
    }
}

} // verus!
