//! Conversions between text and character sequences.

use vstd::prelude::*;

verus! {

/// The characters of a string, in order.
pub fn str_to_chars(text: &str) -> (r: Vec<char>)
    ensures
        r@ == text@,
{
    let mut out: Vec<char> = Vec::new();
    for c in it: text.chars()
        invariant
            it.seq() == text@,
            out@ == it.seq().take(it.index() as int),
    {
        out.push(c);
        assert(out@ =~= it.seq().take(it.index() + 1));
    }
    assert(out@ =~= text@);
    out
}

/// Whether two byte strings are the same, byte for byte.
pub fn same_bytes(left: &[u8], right: &[u8]) -> (r: bool)
    ensures
        r == (left@ == right@),
{
    if left.len() != right.len() {
        return false;
    }
    let mut i: usize = 0;
    while i < left.len()
        invariant
            i <= left.len(),
            left.len() == right.len(),
            left@.take(i as int) == right@.take(i as int),
        decreases left.len() - i,
    {
        if left[i] != right[i] {
            return false;
        }
        i += 1;
        assert(left@.take(i as int) =~= left@.take(i - 1).push(left@[i - 1]));
        assert(right@.take(i as int) =~= right@.take(i - 1).push(right@[i - 1]));
    }
    assert(left@.take(i as int) =~= left@);
    assert(right@.take(i as int) =~= right@);
    true
}

/// `String::from_iter` of the standard library, over the characters of a
/// slice. Trusted: the string holds exactly those characters, in order.
#[verifier::external_body]
pub(crate) fn chars_to_string(chars: &[char]) -> (r: String)
    ensures
        r@ == chars@,
{
    String::from_iter(chars.iter())
}

} // verus!
