//! Splitting text into lowercase Unicode words.

use unicode_segmentation::UnicodeSegmentation;
use vstd::prelude::*;

use crate::model::{word_views, Token, WordList};

verus! {

/// The words of `text` in order of appearance: the substrings between UAX #29
/// word boundaries that hold at least one alphanumeric character.
pub uninterp spec fn unicode_words_of(text: Seq<char>) -> Seq<Seq<char>>;

/// The lowercase form of `word` under the Unicode `Lowercase` mapping.
pub uninterp spec fn lowercase_of(word: Seq<char>) -> Seq<char>;

/// The tokens of a text: its Unicode words, each in lowercase.
pub open spec fn tokens_of(text: Seq<char>) -> Seq<Token> {
    unicode_words_of(text).map_values(|word: Seq<char>| lowercase_of(word))
}

/// Calls `UnicodeSegmentation::unicode_words` of the `unicode-segmentation`
/// crate and collects the words it yields as owned strings. The result is a
/// function of the text alone, which the contract names `unicode_words_of`;
/// nothing else is claimed of it.
#[verifier::external_body]
fn unicode_words(text: &str) -> (words: WordList)
    ensures
        word_views(words@) == unicode_words_of(text@),
{
    text.unicode_words().map(String::from).collect()
}

/// Calls `str::to_lowercase`. The result is a function of the word alone,
/// which the contract names `lowercase_of`; nothing else is claimed of it.
#[verifier::external_body]
fn to_lowercase(word: &str) -> (lower: String)
    ensures
        lower@ == lowercase_of(word@),
{
    word.to_lowercase()
}

/// Lowercases every word of a list, keeping their order.
pub fn lowercase_all(words: &WordList) -> (lowered: WordList)
    ensures
        word_views(lowered@) == word_views(words@).map_values(|word: Seq<char>| lowercase_of(word)),
{
    let mut lowered: WordList = Vec::new();
    let mut i: usize = 0;
    while i < words.len()
        invariant
            i <= words.len(),
            lowered.len() == i,
            forall|k: int| 0 <= k < i ==> (#[trigger] lowered@[k])@ == lowercase_of(words@[k]@),
        decreases words.len() - i,
    {
        let lower = to_lowercase(words[i].as_str());
        lowered.push(lower);
        i += 1;
    }
    assert(word_views(lowered@) =~= word_views(words@).map_values(
        |word: Seq<char>| lowercase_of(word),
    ));
    lowered
}

/// Splits `text`, taken as one contiguous buffer, into its lowercase words.
pub fn tokenize(text: &str) -> (words: WordList)
    ensures
        word_views(words@) == tokens_of(text@),
{
    let raw = unicode_words(text);
    lowercase_all(&raw)
}

} // verus!
