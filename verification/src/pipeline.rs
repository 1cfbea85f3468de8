//! The whole computation in one piece: from the text of the input and the
//! text of the stop-word file to the ranking, and the proof that a run of the
//! orchestrator with both services arrives at the same ranking.

use vstd::prelude::*;

use crate::counter::{
    discarded, frequencies, lemma_counts_account_for_every_word, total, wordcounter,
    WordCounterCommand,
};
use crate::failure::{Failure, FileKind};
use crate::loader::{loader_reply, ReadOutcome};
use crate::model::{count_views, Token, WordCounts};
use crate::orchestrator::{lemma_run_push, run, ActionModel, EventModel, RunModel};
use crate::ranking::{leading, ranked, top_n};
use crate::stop_words::{stop_word_list, stop_words_of};
use crate::tokenizer::{tokenize, tokens_of};

verus! {

/// The ranking for an input text and a stop-word buffer: the `limit` most
/// frequent tokens of the text that are no stop words, most frequent first,
/// tokens of equal count in the order of their first appearance in the text.
pub open spec fn top_words_of(text: Seq<char>, stop_text: Seq<char>, limit: nat) -> Seq<
    (Token, nat),
> {
    leading(ranked(frequencies(tokens_of(text), stop_words_of(stop_text).to_set())), limit)
}

/// Computes the ranking for an input text and a stop-word buffer. The text is
/// tokenized as one buffer, so a line break is a word boundary like any other.
pub fn top_words(text: &str, stop_text: &str, limit: usize) -> (ranking: WordCounts)
    ensures
        count_views(ranking@) == top_words_of(text@, stop_text@, limit as nat),
{
    let words = tokenize(text);
    let stopwords = stop_word_list(stop_text);
    let counts = wordcounter(WordCounterCommand::CountWords { words, stopwords });
    top_n(&counts, limit)
}

/// Every token of a text is accounted for: the counts of its frequency table
/// and the number of its tokens that are stop words add up to the number of
/// tokens that the tokenizer finds in it.
pub proof fn lemma_every_token_is_accounted_for(text: Seq<char>, stop_text: Seq<char>)
    ensures
        total(frequencies(tokens_of(text), stop_words_of(stop_text).to_set())) + discarded(
            tokens_of(text),
            stop_words_of(stop_text).to_set(),
        ).len() == tokens_of(text).len(),
{
    lemma_counts_account_for_every_word(tokens_of(text), stop_words_of(stop_text).to_set());
}

/// The events of a run in which both files can be read and both services do
/// their work: the beginning, the words of the input, the stop words, the
/// frequency table of the one without the other, and the end of printing.
pub open spec fn events_of_run(text: Seq<char>, stop_text: Seq<char>) -> Seq<EventModel> {
    seq![
        EventModel::Begin,
        EventModel::Words(Ok(tokens_of(text))),
        EventModel::Words(Ok(stop_words_of(stop_text))),
        EventModel::Counts(
            Ok(frequencies(tokens_of(text), stop_words_of(stop_text).to_set())),
        ),
        EventModel::Printed,
    ]
}

/// A run in which both files can be read asks for the input, then for the
/// stop words, then for the count of the one without the other, hands out
/// the ranking of the two texts, and is done once that is printed.
pub proof fn lemma_run_emits_top_words(
    input_path: Seq<char>,
    stop_words_path: Seq<char>,
    limit: nat,
    text: Seq<char>,
    stop_text: Seq<char>,
)
    ensures
        run(
            RunModel::Start { input_path, stop_words_path, limit },
            events_of_run(text, stop_text),
        ) == (
            RunModel::Done,
            seq![
                ActionModel::AskLoader { kind: FileKind::Input, path: input_path },
                ActionModel::AskLoader { kind: FileKind::StopWords, path: stop_words_path },
                ActionModel::AskCounter {
                    words: tokens_of(text),
                    stopwords: stop_words_of(stop_text),
                },
                ActionModel::Emit(top_words_of(text, stop_text, limit)),
                ActionModel::Idle,
            ],
        ),
{
    let start = RunModel::Start { input_path, stop_words_path, limit };
    let events = events_of_run(text, stop_text);
    let none = Seq::<EventModel>::empty();
    lemma_run_push(start, none, events[0]);
    lemma_run_push(start, none.push(events[0]), events[1]);
    lemma_run_push(start, none.push(events[0]).push(events[1]), events[2]);
    lemma_run_push(start, none.push(events[0]).push(events[1]).push(events[2]), events[3]);
    lemma_run_push(
        start,
        none.push(events[0]).push(events[1]).push(events[2]).push(events[3]),
        events[4],
    );
    assert(none.push(events[0]).push(events[1]).push(events[2]).push(events[3]).push(events[4])
        =~= events);
    assert(run(start, none).1 =~= Seq::<ActionModel>::empty());
    let actions = run(start, events).1;
    assert(actions =~= seq![
        ActionModel::AskLoader { kind: FileKind::Input, path: input_path },
        ActionModel::AskLoader { kind: FileKind::StopWords, path: stop_words_path },
        ActionModel::AskCounter { words: tokens_of(text), stopwords: stop_words_of(stop_text) },
        ActionModel::Emit(top_words_of(text, stop_text, limit)),
        ActionModel::Idle,
    ]);
}

/// Running twice gives the same ranking: two runs with the same limit that
/// read the same input text and the same stop-word text hand out the same
/// ranking, wherever the files lie.
pub proof fn lemma_same_texts_same_ranking(
    first: RunModel,
    second: RunModel,
    text: Seq<char>,
    stop_text: Seq<char>,
)
    requires
        first is Start,
        second is Start,
        first->Start_limit == second->Start_limit,
    ensures
        run(first, events_of_run(text, stop_text)).1[3] == run(
            second,
            events_of_run(text, stop_text),
        ).1[3],
        run(first, events_of_run(text, stop_text)).1[3] == ActionModel::Emit(
            top_words_of(text, stop_text, first->Start_limit),
        ),
{
    lemma_run_emits_top_words(
        first->Start_input_path,
        first->Start_stop_words_path,
        first->Start_limit,
        text,
        stop_text,
    );
    lemma_run_emits_top_words(
        second->Start_input_path,
        second->Start_stop_words_path,
        second->Start_limit,
        text,
        stop_text,
    );
}

/// A run whose input cannot be read reports that failure and nothing else:
/// it asks for the input, and never for the stop words or a count.
pub proof fn lemma_unreadable_input_ends_run(
    input_path: Seq<char>,
    stop_words_path: Seq<char>,
    limit: nat,
    outcome: ReadOutcome,
)
    requires
        !(outcome is Contents),
    ensures
        loader_reply(FileKind::Input, outcome) is Err,
        run(
            RunModel::Start { input_path, stop_words_path, limit },
            seq![EventModel::Begin, EventModel::Words(loader_reply(FileKind::Input, outcome))],
        ) == (
            RunModel::Failed(loader_reply(FileKind::Input, outcome)->Err_0),
            seq![
                ActionModel::AskLoader { kind: FileKind::Input, path: input_path },
                ActionModel::Report(loader_reply(FileKind::Input, outcome)->Err_0),
            ],
        ),
{
    let start = RunModel::Start { input_path, stop_words_path, limit };
    let reply = EventModel::Words(loader_reply(FileKind::Input, outcome));
    let none = Seq::<EventModel>::empty();
    lemma_run_push(start, none, EventModel::Begin);
    lemma_run_push(start, none.push(EventModel::Begin), reply);
    assert(none.push(EventModel::Begin).push(reply) =~= seq![EventModel::Begin, reply]);
    assert(run(start, none).1 =~= Seq::<ActionModel>::empty());
    let failure: Failure = loader_reply(FileKind::Input, outcome)->Err_0;
    assert(run(start, seq![EventModel::Begin, reply]).1 =~= seq![
        ActionModel::AskLoader { kind: FileKind::Input, path: input_path },
        ActionModel::Report(failure),
    ]);
}

} // verus!
