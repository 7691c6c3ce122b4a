//! Dictionaries that were decoded before.

use crate::jb2::{decode_jb2_dictionary, jb2_dictionary, Jb2Dictionary, Jb2Error};
use vstd::prelude::*;

verus! {

/// A dictionary, and where in the file its data is.
#[derive(Debug, Clone, PartialEq, Eq)]
pub struct CachedDictionary {
    pub start: usize,
    pub end: usize,
    pub dictionary: Jb2Dictionary,
}

/// Dictionaries of a file that were decoded before.
#[derive(Debug, Clone, PartialEq, Eq)]
pub struct Jb2DictionaryCache {
    pub entries: Vec<CachedDictionary>,
}

impl CachedDictionary {
    /// Whether the dictionary is what the data in its place stands for.
    pub open spec fn holds(&self, bytes: Seq<u8>) -> bool {
        &&& self.start <= self.end <= bytes.len()
        &&& self.dictionary.wf()
        &&& jb2_dictionary(bytes.subrange(self.start as int, self.end as int), None) == Ok::<
            _,
            Seq<char>,
        >(self.dictionary@)
    }
}

impl Jb2DictionaryCache {
    /// Whether every dictionary is what the data in its place of a file stands for.
    pub open spec fn holds(&self, bytes: Seq<u8>) -> bool {
        forall|i: int| 0 <= i < self.entries@.len() ==> (#[trigger] self.entries@[i]).holds(bytes)
    }

    /// No dictionaries.
    #[must_use]
    pub fn new() -> (cache: Self)
        ensures
            cache.entries@.len() == 0,
            forall|bytes: Seq<u8>| cache.holds(bytes),
    {
        Jb2DictionaryCache { entries: Vec::new() }
    }

    /// The place of the dictionary whose data is in a range of a file; it is decoded where
    /// it was not before.
    pub fn dictionary_at(&mut self, bytes: &[u8], start: usize, end: usize) -> (place: Result<
        usize,
        Jb2Error,
    >)
        requires
            old(self).holds(bytes@),
            start <= end <= bytes@.len(),
        ensures
            final(self).holds(bytes@),
            match jb2_dictionary(bytes@.subrange(start as int, end as int), None) {
                Ok(symbols) => {
                    &&& place is Ok
                    &&& place->Ok_0 < final(self).entries@.len()
                    &&& final(self).entries@[place->Ok_0 as int].dictionary@ == symbols
                    &&& final(self).entries@[place->Ok_0 as int].dictionary.wf()
                },
                Err(message) => place is Err && place->Err_0@ == message,
            },
    {
        let mut index: usize = 0;
        while index < self.entries.len()
            invariant
                index <= self.entries@.len(),
                *self == *old(self),
                self.holds(bytes@),
            decreases self.entries@.len() - index,
        {
            if self.entries[index].start == start && self.entries[index].end == end {
                assert(self.entries@[index as int].holds(bytes@));
                return Ok(index);
            }
            index = index + 1;
        }
        match decode_jb2_dictionary(vstd::slice::slice_subrange(bytes, start, end)) {
            Err(error) => Err(error),
            Ok(dictionary) => {
                self.entries.push(CachedDictionary { start, end, dictionary });
                Ok(self.entries.len() - 1)
            },
        }
    }
}

} // verus!
