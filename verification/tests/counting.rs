use term_frequency::counter::{stop_word_set, wordcounter, WordCounterCommand};
use term_frequency::ranking::top_n;

fn word_list(items: &[&str]) -> Vec<String> {
    items.iter().map(|w| w.to_string()).collect()
}

fn freq_table(entries: &[(&str, usize)]) -> Vec<(String, usize)> {
    entries.iter().map(|(w, c)| (w.to_string(), *c)).collect()
}

fn count(items: &[&str], stop: &[&str]) -> Vec<(String, usize)> {
    wordcounter(WordCounterCommand::CountWords {
        words: word_list(items),
        stopwords: word_list(stop),
    })
}

#[test]
fn stop_words_are_not_counted() {
    assert_eq!(count(&["the", "fox", "the", "dog"], &["the"]), freq_table(&[("fox", 1), ("dog", 1)]));
}

#[test]
fn counts_in_order_of_first_appearance() {
    assert_eq!(
        count(&["b", "a", "b", "c", "a", "b"], &[]),
        freq_table(&[("b", 3), ("a", 2), ("c", 1)])
    );
}

#[test]
fn counts_nothing_for_no_words() {
    assert_eq!(count(&[], &["the"]), freq_table(&[]));
    assert_eq!(count(&[], &[]), freq_table(&[]));
}

#[test]
fn counts_nothing_when_every_word_is_a_stop_word() {
    assert_eq!(count(&["a", "b", "a"], &["b", "a", "c"]), freq_table(&[]));
}

#[test]
fn stop_word_list_may_repeat_words() {
    assert_eq!(count(&["x", "y", "x"], &["y", "y", ""]), freq_table(&[("x", 2)]));
}

#[test]
fn stop_word_set_holds_exactly_the_listed_words() {
    let stop = stop_word_set(&word_list(&["the", "a", "the", ""]));
    assert_eq!(stop.len(), 3);
    assert!(stop.contains("the"));
    assert!(stop.contains("a"));
    assert!(stop.contains(""));
    assert!(!stop.contains("The"));
    assert!(!stop.contains("an"));
    assert!(stop_word_set(&word_list(&[])).is_empty());
}

#[test]
fn counts_are_exact_string_matches() {
    assert_eq!(
        count(&["fox", "Fox", "fox ", "fox"], &["FOX"]),
        freq_table(&[("fox", 2), ("Fox", 1), ("fox ", 1)])
    );
}

#[test]
fn counts_and_stop_words_account_for_every_word() {
    let items = ["to", "be", "or", "not", "to", "be", "that", "is", "the", "question", "to"];
    let stop = ["to", "the", "is"];
    let counts = count(&items, &stop);
    let counted: usize = counts.iter().map(|entry| entry.1).sum();
    let stopped = items.iter().filter(|w| stop.contains(w)).count();
    assert_eq!(counted, 6);
    assert_eq!(stopped, 5);
    assert_eq!(counted + stopped, items.len());
    assert_eq!(
        counts,
        freq_table(&[("be", 2), ("or", 1), ("not", 1), ("that", 1), ("question", 1)])
    );
}

#[test]
fn counts_many_repeats_of_many_words() {
    let mut items: Vec<String> = Vec::new();
    for round in 0..50 {
        for k in 0..40 {
            if k <= round {
                items.push(format!("w{k}"));
            }
        }
    }
    let counts = wordcounter(WordCounterCommand::CountWords { words: items, stopwords: word_list(&["w3"]) });
    assert_eq!(counts.len(), 39);
    assert_eq!(counts[0], ("w0".to_string(), 50));
    assert_eq!(counts[3], ("w4".to_string(), 46));
    assert_eq!(counts[38], ("w39".to_string(), 11));
}

#[test]
fn top_two_breaks_tie_by_first_appearance() {
    let counts = freq_table(&[("a", 3), ("b", 3), ("c", 5)]);
    assert_eq!(top_n(&counts, 2), freq_table(&[("c", 5), ("a", 3)]));
}

#[test]
fn ranking_is_stable_among_equal_counts() {
    let counts = freq_table(&[("a", 1), ("b", 2), ("c", 1), ("d", 2), ("e", 3), ("f", 1)]);
    assert_eq!(
        top_n(&counts, 6),
        freq_table(&[("e", 3), ("b", 2), ("d", 2), ("a", 1), ("c", 1), ("f", 1)])
    );
    assert_eq!(top_n(&counts, 4), freq_table(&[("e", 3), ("b", 2), ("d", 2), ("a", 1)]));
    assert_eq!(top_n(&counts, 1), freq_table(&[("e", 3)]));
}

#[test]
fn ranking_more_than_there_is_gives_all() {
    let counts = freq_table(&[("x", 1), ("y", 7)]);
    assert_eq!(top_n(&counts, 25), freq_table(&[("y", 7), ("x", 1)]));
    assert_eq!(top_n(&freq_table(&[]), 25), freq_table(&[]));
}

#[test]
fn ranking_none_gives_none() {
    assert_eq!(top_n(&freq_table(&[("x", 1), ("y", 7)]), 0), freq_table(&[]));
}

#[test]
fn ranking_keeps_rising_counts_that_arrive_late() {
    let counts = freq_table(&[("a", 1), ("b", 2), ("c", 3), ("d", 4), ("e", 5)]);
    assert_eq!(top_n(&counts, 2), freq_table(&[("e", 5), ("d", 4)]));
    assert_eq!(top_n(&counts, 3), freq_table(&[("e", 5), ("d", 4), ("c", 3)]));
}

#[test]
fn ranking_takes_twenty_five_of_thirty() {
    let mut counts: Vec<(String, usize)> = Vec::new();
    for k in 0..30usize {
        counts.push((format!("w{k}"), (k * 7) % 10));
    }
    let top = top_n(&counts, 25);
    assert_eq!(top.len(), 25);
    let mut expected = counts.clone();
    expected.sort_by(|a, b| b.1.cmp(&a.1));
    expected.truncate(25);
    assert_eq!(top, expected);
}
