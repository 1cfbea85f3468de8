//! The counter service: from a word list and a stop-word list to a frequency
//! table that lists each counted word once, in order of first appearance.

use vstd::hash_map::StringHashMap;
use vstd::hash_set::StringHashSet;
use vstd::prelude::*;
use vstd::seq_lib::*;

use crate::model::{count_views, word_views, Token, WordCounts, WordList};

verus! {

/// A request to the counter service.
#[derive(Debug, PartialEq, Eq)]
pub enum WordCounterCommand {
    /// Count the words of `words` that do not occur in `stopwords`.
    CountWords { words: WordList, stopwords: WordList },
}

/// The test whether a word is a stop word.
pub open spec fn is_stop_word(stop: Set<Token>) -> spec_fn(Token) -> bool {
    |word: Token| stop.contains(word)
}

/// The test whether a word is counted, that is, whether it is no stop word.
pub open spec fn is_counted(stop: Set<Token>) -> spec_fn(Token) -> bool {
    |word: Token| !stop.contains(word)
}

/// The words that are counted: those of `words`, in order, that are no stop words.
pub open spec fn kept(words: Seq<Token>, stop: Set<Token>) -> Seq<Token> {
    words.filter(is_counted(stop))
}

/// The words that are discarded: those of `words`, in order, that are stop words.
pub open spec fn discarded(words: Seq<Token>, stop: Set<Token>) -> Seq<Token> {
    words.filter(is_stop_word(stop))
}

/// How often `word` occurs in `words`.
pub open spec fn occurrences(words: Seq<Token>, word: Token) -> nat {
    words.to_multiset().count(word)
}

/// The distinct words of `words`, each at the place of its first appearance.
pub open spec fn first_appearances(words: Seq<Token>) -> Seq<Token>
    decreases words.len(),
{
    if words.len() == 0 {
        Seq::empty()
    } else {
        let earlier = first_appearances(words.drop_last());
        if words.drop_last().contains(words.last()) {
            earlier
        } else {
            earlier.push(words.last())
        }
    }
}

/// The frequency table of `words` without the stop words: every counted word
/// once, in order of first appearance, with the number of its occurrences.
pub open spec fn frequencies(words: Seq<Token>, stop: Set<Token>) -> Seq<(Token, nat)> {
    let counted = kept(words, stop);
    first_appearances(counted).map_values(|word: Token| (word, occurrences(counted, word)))
}

/// The sum of the counts of a frequency table.
pub open spec fn total(entries: Seq<(Token, nat)>) -> nat
    decreases entries.len(),
{
    if entries.len() == 0 {
        0
    } else {
        total(entries.drop_last()) + entries.last().1
    }
}

/// What a frequency table must satisfy: no word is listed twice and every
/// count is positive.
pub open spec fn is_frequency_table(entries: Seq<(Token, nat)>) -> bool {
    &&& forall|i: int, j: int|
        0 <= i < j < entries.len() ==> (#[trigger] entries[i]).0 != (#[trigger] entries[j]).0
    &&& forall|i: int| 0 <= i < entries.len() ==> (#[trigger] entries[i]).1 >= 1
}

/// A word is among the first appearances exactly if it occurs at all, and no
/// word is listed twice.
pub proof fn lemma_first_appearances(words: Seq<Token>)
    ensures
        forall|word: Token| #[trigger]
            first_appearances(words).contains(word) <==> words.contains(word),
        first_appearances(words).no_duplicates(),
        first_appearances(words).len() <= words.len(),
    decreases words.len(),
{
    if words.len() > 0 {
        let init = words.drop_last();
        let last = words.last();
        let earlier = first_appearances(init);
        lemma_first_appearances(init);
        assert forall|word: Token| #[trigger]
            first_appearances(words).contains(word) <==> words.contains(word) by {
            if words.contains(word) {
                let i = choose|i: int| 0 <= i < words.len() && words[i] == word;
                if i < words.len() - 1 {
                    assert(init[i] == word);
                    assert(init.contains(word));
                    assert(earlier.contains(word));
                    let k = choose|k: int| 0 <= k < earlier.len() && earlier[k] == word;
                    assert(first_appearances(words)[k] == word);
                } else if init.contains(last) {
                    assert(earlier.contains(word));
                } else {
                    assert(earlier.push(last)[earlier.len() as int] == word);
                }
            }
            if first_appearances(words).contains(word) {
                let k = choose|k: int|
                    0 <= k < first_appearances(words).len() && first_appearances(words)[k] == word;
                if k < earlier.len() {
                    assert(earlier[k] == word);
                    assert(earlier.contains(word));
                    assert(init.contains(word));
                    let i = choose|i: int| 0 <= i < init.len() && init[i] == word;
                    assert(words[i] == word);
                } else {
                    assert(words[words.len() - 1] == word);
                }
            }
        }
        if !init.contains(last) {
            assert(!earlier.contains(last));
            assert forall|i: int, j: int|
                0 <= i < earlier.len() + 1 && 0 <= j < earlier.len() + 1 && i != j implies earlier.push(
                last,
            )[i] != earlier.push(last)[j] by {
                if i < earlier.len() {
                    assert(earlier.contains(earlier[i]));
                }
                if j < earlier.len() {
                    assert(earlier.contains(earlier[j]));
                }
            }
        }
    }
}

/// The first appearances come in the order of the input: of two listed
/// words, the one listed first is the one that occurs first.
pub proof fn lemma_first_appearances_in_order(words: Seq<Token>, i: int, j: int)
    requires
        0 <= i < j < first_appearances(words).len(),
    ensures
        words.index_of_first(first_appearances(words)[i]) is Some,
        words.index_of_first(first_appearances(words)[j]) is Some,
        words.index_of_first(first_appearances(words)[i])->0 < words.index_of_first(
            first_appearances(words)[j],
        )->0,
    decreases words.len(),
{
    let firsts = first_appearances(words);
    let init = words.drop_last();
    let earlier = first_appearances(init);
    lemma_first_appearances(init);
    lemma_first_appearances(words);
    assert(words.len() > 0);
    assert(earlier.contains(firsts[i]));
    lemma_first_index_in_prefix(words, firsts[i]);
    if j < earlier.len() {
        assert(earlier.contains(firsts[j]));
        lemma_first_index_in_prefix(words, firsts[j]);
        lemma_first_appearances_in_order(init, i, j);
    } else {
        assert(firsts[j] == words.last());
        assert(!init.contains(words.last()));
        words.index_of_first_ensures(words.last());
        assert(words[words.len() - 1] == words.last());
        let at = words.index_of_first(words.last())->0;
        if at < words.len() - 1 {
            assert(init[at] == words.last());
        }
        init.index_of_first_ensures(firsts[i]);
    }
}

/// A word that occurs before the last place of a sequence first occurs there
/// where it first occurs in the sequence without its last place.
pub proof fn lemma_first_index_in_prefix(words: Seq<Token>, word: Token)
    requires
        words.len() > 0,
        words.drop_last().contains(word),
    ensures
        words.index_of_first(word) == words.drop_last().index_of_first(word),
{
    let init = words.drop_last();
    init.index_of_first_ensures(word);
    words.index_of_first_ensures(word);
    let short = init.index_of_first(word)->0;
    assert(words[short] == word);
    let long = words.index_of_first(word)->0;
    if long < short {
        assert(init[long] == word);
    }
}

/// Appending a word adds one to its own occurrences and leaves the others.
pub proof fn lemma_occurrences_push(words: Seq<Token>, last: Token, word: Token)
    ensures
        occurrences(words.push(last), word) == occurrences(words, word) + if word == last {
            1nat
        } else {
            0nat
        },
        occurrences(words, word) <= words.len(),
        occurrences(words, word) > 0 <==> words.contains(word),
{
    broadcast use vstd::multiset::group_multiset_axioms;

    to_multiset_build(words, last);
    to_multiset_len(words);
    to_multiset_contains(words, word);
}

/// Counting one more word: a stop word changes nothing; a word seen before has
/// its count raised by one; a new word is appended with count one.
pub proof fn lemma_frequencies_push(words: Seq<Token>, stop: Set<Token>, last: Token)
    ensures
        stop.contains(last) ==> frequencies(words.push(last), stop) == frequencies(words, stop),
        !stop.contains(last) && kept(words, stop).contains(last) ==> {
            let before = frequencies(words, stop);
            let at = first_appearances(kept(words, stop)).index_of(last);
            &&& 0 <= at < before.len()
            &&& before[at].0 == last
            &&& frequencies(words.push(last), stop) == before.update(
                at,
                (last, before[at].1 + 1),
            )
        },
        !stop.contains(last) && !kept(words, stop).contains(last) ==> frequencies(
            words.push(last),
            stop,
        ) == frequencies(words, stop).push((last, 1nat)),
{
    let keep = is_counted(stop);
    let counted = kept(words, stop);
    let firsts = first_appearances(counted);
    words.lemma_filter_push(last, keep);
    if !stop.contains(last) {
        let counted2 = counted.push(last);
        assert(kept(words.push(last), stop) == counted2);
        assert(counted2.drop_last() =~= counted);
        lemma_first_appearances(counted);
        assert forall|k: int| 0 <= k < firsts.len() implies occurrences(counted2, #[trigger] firsts[k])
            == occurrences(counted, firsts[k]) + if firsts[k] == last {
            1nat
        } else {
            0nat
        } by {
            lemma_occurrences_push(counted, last, firsts[k]);
        }
        lemma_occurrences_push(counted, last, last);
        if counted.contains(last) {
            assert(firsts.contains(last));
            let at = firsts.index_of(last);
            assert(0 <= at < firsts.len() && firsts[at] == last);
            let before = frequencies(words, stop);
            assert(frequencies(words.push(last), stop) =~= before.update(
                at,
                (last, before[at].1 + 1),
            ));
        } else {
            assert forall|k: int| 0 <= k < firsts.len() implies #[trigger] firsts[k] != last by {
                assert(firsts.contains(firsts[k]));
            }
            assert(frequencies(words.push(last), stop) =~= frequencies(words, stop).push(
                (last, 1nat),
            ));
        }
    } else {
        assert(kept(words.push(last), stop) == counted);
    }
}

/// Replacing the count of one entry changes the total by the difference.
pub proof fn lemma_total_update(entries: Seq<(Token, nat)>, at: int, entry: (Token, nat))
    requires
        0 <= at < entries.len(),
    ensures
        total(entries.update(at, entry)) + entries[at].1 == total(entries) + entry.1,
    decreases entries.len(),
{
    let updated = entries.update(at, entry);
    if at == entries.len() - 1 {
        assert(updated.drop_last() =~= entries.drop_last());
    } else {
        assert(updated.drop_last() =~= entries.drop_last().update(at, entry));
        lemma_total_update(entries.drop_last(), at, entry);
    }
}

/// Every word of the input is either counted or discarded: the counts of the
/// frequency table and the number of stop words among the input add up to the
/// number of words.
pub proof fn lemma_counts_account_for_every_word(words: Seq<Token>, stop: Set<Token>)
    ensures
        total(frequencies(words, stop)) + discarded(words, stop).len() == words.len(),
        kept(words, stop).len() + discarded(words, stop).len() == words.len(),
        total(frequencies(words, stop)) == kept(words, stop).len(),
    decreases words.len(),
{
    reveal(Seq::filter);
    if words.len() > 0 {
        let init = words.drop_last();
        let last = words.last();
        assert(words =~= init.push(last));
        lemma_counts_account_for_every_word(init, stop);
        lemma_frequencies_push(init, stop, last);
        init.lemma_filter_push(last, is_counted(stop));
        init.lemma_filter_push(last, is_stop_word(stop));
        let before = frequencies(init, stop);
        if stop.contains(last) {
        } else if kept(init, stop).contains(last) {
            let at = first_appearances(kept(init, stop)).index_of(last);
            lemma_total_update(before, at, (last, before[at].1 + 1));
        } else {
            assert(before.push((last, 1nat)).drop_last() =~= before);
        }
    } else {
        assert(frequencies(words, stop) =~= Seq::<(Token, nat)>::empty());
    }
}

/// A word that is no stop word occurs as often among the counted words as in
/// the input; a stop word does not occur among them.
pub proof fn lemma_kept_occurrences(words: Seq<Token>, stop: Set<Token>, word: Token)
    ensures
        occurrences(kept(words, stop), word) == if stop.contains(word) {
            0
        } else {
            occurrences(words, word)
        },
    decreases words.len(),
{
    reveal(Seq::filter);
    if words.len() > 0 {
        let init = words.drop_last();
        let last = words.last();
        assert(words =~= init.push(last));
        lemma_kept_occurrences(init, stop, word);
        init.lemma_filter_push(last, is_counted(stop));
        lemma_occurrences_push(init, last, word);
        lemma_occurrences_push(kept(init, stop), last, word);
    } else {
        assert(kept(words, stop) =~= words);
        lemma_occurrences_push(words, word, word);
    }
}

/// The table is a frequency table of the input: no word is listed twice,
/// no stop word is listed, every listed word carries the number of its
/// occurrences in the input, which is positive, and every other word of the
/// input is listed.
pub proof fn lemma_frequencies_are_exact(words: Seq<Token>, stop: Set<Token>)
    ensures
        is_frequency_table(frequencies(words, stop)),
        forall|k: int|
            0 <= k < frequencies(words, stop).len() ==> {
                let entry = #[trigger] frequencies(words, stop)[k];
                &&& !stop.contains(entry.0)
                &&& words.contains(entry.0)
                &&& entry.1 == occurrences(words, entry.0)
            },
        forall|i: int|
            0 <= i < words.len() && !stop.contains(#[trigger] words[i]) ==> exists|k: int|
                0 <= k < frequencies(words, stop).len() && (#[trigger] frequencies(
                    words,
                    stop,
                )[k]).0 == words[i],
{
    let counted = kept(words, stop);
    let firsts = first_appearances(counted);
    let table = frequencies(words, stop);
    lemma_first_appearances(counted);
    assert forall|k: int| 0 <= k < table.len() implies {
        let entry = #[trigger] table[k];
        &&& !stop.contains(entry.0)
        &&& words.contains(entry.0)
        &&& entry.1 == occurrences(words, entry.0)
        &&& entry.1 >= 1
    } by {
        let word = firsts[k];
        assert(firsts.contains(word));
        assert(counted.contains(word));
        let j = choose|j: int| 0 <= j < counted.len() && counted[j] == word;
        words.lemma_filter_pred(is_counted(stop), j);
        lemma_kept_occurrences(words, stop, word);
        lemma_occurrences_push(counted, word, word);
        lemma_occurrences_push(words, word, word);
    }
    assert forall|i: int, j: int| 0 <= i < j < table.len() implies (#[trigger] table[i]).0 != (
    #[trigger] table[j]).0 by {
        assert(firsts[i] != firsts[j]);
    }
    assert forall|i: int| 0 <= i < words.len() && !stop.contains(#[trigger] words[i]) implies exists|
        k: int,
    | 0 <= k < table.len() && (#[trigger] table[k]).0 == words[i] by {
        words.lemma_filter_contains(is_counted(stop), i);
        assert(firsts.contains(words[i]));
        let k = firsts.index_of(words[i]);
        assert(table[k].0 == words[i]);
    }
}

/// Collects a stop-word list into a set for constant-time membership tests.
pub fn stop_word_set(stopwords: &WordList) -> (stop: StringHashSet)
    ensures
        stop@ == word_views(stopwords@).to_set(),
{
    let mut stop = StringHashSet::new();
    let mut i: usize = 0;
    while i < stopwords.len()
        invariant
            i <= stopwords.len(),
            stop@ == word_views(stopwords@).take(i as int).to_set(),
        decreases stopwords.len() - i,
    {
        proof {
            let views = word_views(stopwords@);
            assert(views.take(i + 1) =~= views.take(i as int).push(views[i as int]));
            views.take(i as int).lemma_push_to_set_commute(views[i as int]);
        }
        stop.insert(stopwords[i].clone());
        i += 1;
    }
    assert(word_views(stopwords@).take(i as int) =~= word_views(stopwords@));
    stop
}

/// Serves one request to the counter service: counts every word of the
/// request that is no stop word. The table lists each counted word once, in
/// order of first appearance, and is built with one hash lookup per word.
pub fn wordcounter(command: WordCounterCommand) -> (counts: WordCounts)
    ensures
        count_views(counts@) == frequencies(
            word_views(command->words@),
            word_views(command->stopwords@).to_set(),
        ),
        is_frequency_table(count_views(counts@)),
        total(count_views(counts@)) + discarded(
            word_views(command->words@),
            word_views(command->stopwords@).to_set(),
        ).len() == command->words.len(),
{
    let WordCounterCommand::CountWords { words, stopwords } = command;
    let stop = stop_word_set(&stopwords);
    let ghost all = word_views(words@);
    let mut counts: WordCounts = Vec::new();
    let mut index: StringHashMap<usize> = StringHashMap::new();
    let mut i: usize = 0;
    assert(all.take(0) =~= Seq::<Token>::empty());
    assert(kept(Seq::<Token>::empty(), stop@) =~= Seq::<Token>::empty()) by {
        reveal(Seq::filter);
    }
    assert(count_views(counts@) =~= frequencies(all.take(0), stop@));
    while i < words.len()
        invariant
            i <= words.len(),
            all == word_views(words@),
            count_views(counts@) == frequencies(all.take(i as int), stop@),
            forall|k: int|
                0 <= k < counts.len() ==> index@.contains_key(#[trigger] counts@[k].0@)
                    && index@[counts@[k].0@] == k,
            forall|key: Token| #[trigger]
                index@.contains_key(key) ==> index@[key] < counts.len()
                    && counts@[index@[key] as int].0@ == key,
        decreases words.len() - i,
    {
        let ghost seen = all.take(i as int);
        let ghost word = all[i as int];
        let ghost firsts = first_appearances(kept(seen, stop@));
        let ghost before = count_views(counts@);
        proof {
            assert(all.take(i + 1) =~= seen.push(word));
            lemma_frequencies_push(seen, stop@, word);
            lemma_first_appearances(kept(seen, stop@));
            assert(before.len() == counts.len());
            assert(frequencies(seen, stop@).len() == firsts.len());
            assert forall|k: int| 0 <= k < firsts.len() implies firsts[k] == counts@[k].0@ by {
                assert(before[k].0 == firsts[k]);
            }
        }
        if !stop.contains(words[i].as_str()) {
            match index.get(words[i].as_str()) {
                Some(at) => {
                    let at: usize = *at;
                    proof {
                        assert(firsts[at as int] == word);
                        assert(firsts.contains(word));
                        assert(firsts.index_of(word) == at);
                        assert(before[at as int].1 == occurrences(kept(seen, stop@), word));
                        lemma_occurrences_push(kept(seen, stop@), word, word);
                        seen.lemma_filter_len(is_counted(stop@));
                    }
                    counts[at].1 += 1;
                    assert(count_views(counts@) =~= before.update(
                        at as int,
                        (word, before[at as int].1 + 1),
                    ));
                },
                None => {
                    proof {
                        if firsts.contains(word) {
                            let k = firsts.index_of(word);
                            assert(counts@[k].0@ == word);
                        }
                    }
                    index.insert(words[i].clone(), counts.len());
                    counts.push((words[i].clone(), 1));
                    assert(count_views(counts@) =~= before.push((word, 1nat)));
                },
            }
        }
        i += 1;
    }
    proof {
        assert(all.take(i as int) =~= all);
        lemma_frequencies_are_exact(all, stop@);
        lemma_counts_account_for_every_word(all, stop@);
    }
    counts
}

} // verus!
