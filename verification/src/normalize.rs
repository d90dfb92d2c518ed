//! Canonical forms of words: the coordinate space that index keys and queries share.
//!
//! A word is first *normalized* (typographic apostrophes become the plain one) and,
//! for the case-insensitive half of a lookup, *folded* to lower case.

use vstd::prelude::*;

verus! {

/// The canonical spelling of one character: every apostrophe-like mark is `'`,
/// every other character is itself.
pub open spec fn normalized_char(c: char) -> char {
    if c == '\u{2019}' || c == '\u{2018}' || c == '\u{ff07}' {
        '\''
    } else {
        c
    }
}

/// The canonical form of a character sequence.
pub open spec fn normalized(s: Seq<char>) -> Seq<char> {
    s.map_values(|c: char| normalized_char(c))
}

/// The lower-case mapping of one character, as the standard library's Unicode
/// tables give it. One character may fold to several.
pub uninterp spec fn lowercase_of(c: char) -> Seq<char>;

/// The lower-case form of a character sequence: the lower-case mappings of its
/// characters, one after the other.
pub open spec fn folded(s: Seq<char>) -> Seq<char>
    decreases s.len(),
{
    if s.len() == 0 {
        Seq::empty()
    } else {
        folded(s.drop_last()) + lowercase_of(s.last())
    }
}

/// Maps one character to its canonical spelling.
pub fn char_to_normalized(c: char) -> (r: char)
    ensures
        r == normalized_char(c),
{
    if c == '\u{2019}' || c == '\u{2018}' || c == '\u{ff07}' {
        '\''
    } else {
        c
    }
}

/// Brings a character sequence into the canonical form the dictionary is kept in.
pub fn seq_to_normalized(seq: &[char]) -> (r: Vec<char>)
    ensures
        r@ == normalized(seq@),
{
    let mut out: Vec<char> = Vec::new();
    let mut i: usize = 0;
    while i < seq.len()
        invariant
            i <= seq.len(),
            out@ == normalized(seq@.take(i as int)),
        decreases seq.len() - i,
    {
        out.push(char_to_normalized(seq[i]));
        i += 1;
        assert(out@ =~= normalized(seq@.take(i as int)));
    }
    assert(seq@.take(i as int) =~= seq@);
    out
}

/// `char::to_lowercase` of the standard library, collected. Trusted: the result
/// is the character's lower-case mapping, named [`lowercase_of`]; nothing else
/// is claimed of it.
#[verifier::external_body]
fn char_to_lowercase(c: char) -> (r: Vec<char>)
    ensures
        r@ == lowercase_of(c),
{
    c.to_lowercase().collect()
}

/// Folds a character sequence to lower case, character by character.
pub fn seq_to_lowercase(seq: &[char]) -> (r: Vec<char>)
    ensures
        r@ == folded(seq@),
{
    let mut out: Vec<char> = Vec::new();
    let mut i: usize = 0;
    while i < seq.len()
        invariant
            i <= seq.len(),
            out@ == folded(seq@.take(i as int)),
        decreases seq.len() - i,
    {
        let lower = char_to_lowercase(seq[i]);
        let ghost before = out@;
        let mut j: usize = 0;
        while j < lower.len()
            invariant
                j <= lower.len(),
                out@ == before + lower@.take(j as int),
            decreases lower.len() - j,
        {
            out.push(lower[j]);
            j += 1;
            assert(out@ =~= before + lower@.take(j as int));
        }
        i += 1;
        proof {
            assert(lower@.take(j as int) =~= lower@);
            let prefix = seq@.take(i as int);
            assert(prefix.drop_last() =~= seq@.take(i - 1));
            assert(prefix.last() == seq@[i - 1]);
        }
    }
    assert(seq@.take(i as int) =~= seq@);
    out
}

/// Normalizing is idempotent: a canonical form is its own canonical form.
pub proof fn normalize_idempotent(s: Seq<char>)
    ensures
        normalized(normalized(s)) == normalized(s),
{
    assert(normalized(normalized(s)) =~= normalized(s));
}

} // verus!
