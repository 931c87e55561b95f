//! Results of spell checking.
use vstd::prelude::*;

verus! {

/// Where a word occurs: byte offset and byte length.
#[derive(Debug, Clone, Copy)]
pub struct WordLocation {
    pub offset: usize,
    pub length: usize,
}

/// A misspelled word (lower case), its occurrences and suggestions.
#[derive(Debug, Clone)]
pub struct MisspelledWord {
    pub word: String,
    pub locations: Vec<WordLocation>,
    pub suggestions: Vec<String>,
}

impl MisspelledWord {
    pub fn occurrence_count(&self) -> (n: usize)
        ensures
            n == self.locations@.len(),
    {
        self.locations.len()
    }
}

} // verus!
