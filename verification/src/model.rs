//! The shared vocabulary: word lists, frequency tables, and their
//! mathematical views.

use vstd::prelude::*;

verus! {

/// A word as the sequence of its characters.
pub type Token = Seq<char>;

/// An ordered list of words.
pub type WordList = Vec<String>;

/// A frequency table: each distinct word with its number of occurrences.
pub type WordCounts = Vec<(String, usize)>;

/// The words of a list, each as its character sequence.
pub open spec fn word_views(words: Seq<String>) -> Seq<Token> {
    Seq::new(words.len(), |i: int| words[i]@)
}

/// The entries of a frequency table, each as a character sequence and a count.
pub open spec fn count_views(counts: Seq<(String, usize)>) -> Seq<(Token, nat)> {
    Seq::new(counts.len(), |i: int| (counts[i].0@, counts[i].1 as nat))
}

} // verus!
