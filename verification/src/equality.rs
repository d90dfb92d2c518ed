//! When two dictionaries are equal: when they hold the same words, in the
//! same order, with the same metadata.

use crate::fst_dictionary::FstDictionary;
use crate::full_dictionary::FullDictionary;
use vstd::prelude::*;
use vstd::std_specs::cmp::PartialEqSpecImpl;

verus! {

/// Whether two words are the same, character for character.
pub fn same_word(left: &[char], right: &[char]) -> (r: bool)
    ensures
        r == (left@ == right@),
{
    if left.len() != right.len() {
        return false;
    }
    let mut i: usize = 0;
    while i < left.len()
        invariant
            i <= left.len(),
            left.len() == right.len(),
            left@.take(i as int) == right@.take(i as int),
        decreases left.len() - i,
    {
        if left[i] != right[i] {
            return false;
        }
        i += 1;
        assert(left@.take(i as int) =~= left@.take(i - 1).push(left@[i - 1]));
        assert(right@.take(i as int) =~= right@.take(i - 1).push(right@[i - 1]));
    }
    assert(left@.take(i as int) =~= left@);
    assert(right@.take(i as int) =~= right@);
    true
}

impl PartialEq for FullDictionary {
    fn eq(&self, other: &Self) -> (r: bool) {
        let count = self.word_count();
        if count != other.word_count() {
            return false;
        }
        proof {
            self.wf_facts();
            other.wf_facts();
        }
        let mut i: usize = 0;
        while i < count
            invariant
                i <= count,
                count == self.words().len(),
                count == other.words().len(),
                count == self.metadata().len(),
                count == other.metadata().len(),
                self.words().take(i as int) == other.words().take(i as int),
                self.metadata().take(i as int) == other.metadata().take(i as int),
            decreases count - i,
        {
            if !same_word(self.get_word(i), other.get_word(i)) {
                return false;
            }
            if self.get_metadata(i) != other.get_metadata(i) {
                return false;
            }
            i += 1;
            proof {
                assert(self.words().take(i as int) =~= self.words().take(i - 1).push(
                    self.words()[i - 1],
                ));
                assert(other.words().take(i as int) =~= other.words().take(i - 1).push(
                    other.words()[i - 1],
                ));
                assert(self.metadata().take(i as int) =~= self.metadata().take(i - 1).push(
                    self.metadata()[i - 1],
                ));
                assert(other.metadata().take(i as int) =~= other.metadata().take(i - 1).push(
                    other.metadata()[i - 1],
                ));
            }
        }
        proof {
            assert(self.words().take(i as int) =~= self.words());
            assert(other.words().take(i as int) =~= other.words());
            assert(self.metadata().take(i as int) =~= self.metadata());
            assert(other.metadata().take(i as int) =~= other.metadata());
        }
        true
    }
}

impl PartialEqSpecImpl for FullDictionary {
    open spec fn obeys_eq_spec() -> bool {
        true
    }

    open spec fn eq_spec(&self, other: &Self) -> bool {
        self.words() == other.words() && self.metadata() == other.metadata()
    }
}

impl PartialEq for FstDictionary {
    fn eq(&self, other: &Self) -> (r: bool) {
        let mine = self.full_dict();
        let theirs = other.full_dict();
        FullDictionary::eq(mine, theirs)
    }
}

impl PartialEqSpecImpl for FstDictionary {
    open spec fn obeys_eq_spec() -> bool {
        true
    }

    open spec fn eq_spec(&self, other: &Self) -> bool {
        self.words() == other.words() && self.metadata() == other.metadata()
    }
}

} // verus!
