use term_frequency::counter::{wordcounter, WordCounterCommand};
use term_frequency::failure::{Failure, FileKind};
use term_frequency::loader::{fileloader, FileLoaderCommand, ReadOutcome};
use term_frequency::orchestrator::{
    Action, Event, Orchestrator, DEFAULT_LIMIT, DEFAULT_STOP_WORDS_PATH,
};
use term_frequency::pipeline::top_words;

fn names(items: &[&str]) -> Vec<String> {
    items.iter().map(|w| w.to_string()).collect()
}

fn pairs(entries: &[(&str, usize)]) -> Vec<(String, usize)> {
    entries.iter().map(|(w, c)| (w.to_string(), *c)).collect()
}

fn start(limit: usize) -> Orchestrator {
    Orchestrator::new("in.txt".to_string(), "stop.txt".to_string(), limit)
}

fn awaiting_input() -> Orchestrator {
    start(25).step(Event::Begin).0
}

fn awaiting_stop_words() -> Orchestrator {
    awaiting_input().step(Event::Words(Ok(names(&["b", "a", "b"])))).0
}

fn awaiting_count() -> Orchestrator {
    awaiting_stop_words().step(Event::Words(Ok(names(&["a"])))).0
}

/// Drives a run to its end, with the two files given as texts, and returns
/// every action that the run asked for.
fn drive(mut run: Orchestrator, input: Option<&str>, stop: Option<&str>) -> Vec<Action> {
    let mut actions = Vec::new();
    let mut event = Event::Begin;
    loop {
        let (next, action) = run.step(event);
        run = next;
        event = match &action {
            Action::AskLoader(command) => {
                let text = match command.file_kind() {
                    FileKind::Input => input,
                    FileKind::StopWords => stop,
                };
                let outcome = match text {
                    Some(text) => ReadOutcome::Contents(text.to_string()),
                    None => ReadOutcome::OpenFailed,
                };
                Event::Words(fileloader(command, outcome))
            }
            Action::AskCounter(WordCounterCommand::CountWords { words, stopwords }) => {
                Event::Counts(Ok(wordcounter(WordCounterCommand::CountWords {
                    words: words.clone(),
                    stopwords: stopwords.clone(),
                })))
            }
            Action::Emit(_) => {
                assert_eq!(run, Orchestrator::Ranking);
                Event::Printed
            }
            Action::Report(_) | Action::Idle => {
                actions.push(action);
                assert!(run.is_over());
                return actions;
            }
        };
        actions.push(action);
    }
}

#[test]
fn run_asks_in_order_and_emits_ranking() {
    let actions = drive(start(2), Some("The cat saw the Dog; the dog saw THE cat. Cat!"), Some("the,a"));
    assert_eq!(
        actions,
        vec![
            Action::AskLoader(FileLoaderCommand::LoadInput { filename: "in.txt".to_string() }),
            Action::AskLoader(FileLoaderCommand::LoadStopWords { filename: "stop.txt".to_string() }),
            Action::AskCounter(WordCounterCommand::CountWords {
                words: names(&["the", "cat", "saw", "the", "dog", "the", "dog", "saw", "the", "cat", "cat"]),
                stopwords: names(&["the", "a"]),
            }),
            Action::Emit(pairs(&[("cat", 3), ("saw", 2)])),
            Action::Idle,
        ]
    );
}

#[test]
fn run_agrees_with_direct_computation() {
    let text = "one two three two three three four four four four";
    let stop = "one,five";
    let actions = drive(start(3), Some(text), Some(stop));
    assert_eq!(actions[3], Action::Emit(top_words(text, stop, 3)));
    assert_eq!(top_words(text, stop, 3), pairs(&[("four", 4), ("three", 3), ("two", 2)]));
}

#[test]
fn running_twice_gives_same_ranking() {
    let text = "b a b c a b\nC c d D e";
    let stop = "e,x";
    let first = top_words(text, stop, 25);
    let second = top_words(text, stop, 25);
    assert_eq!(first, second);
    assert_eq!(first, pairs(&[("b", 3), ("c", 3), ("a", 2), ("d", 2)]));
    assert_eq!(drive(start(25), Some(text), Some(stop)), drive(start(25), Some(text), Some(stop)));
}

#[test]
fn default_limit_is_twenty_five() {
    assert_eq!(DEFAULT_LIMIT, 25);
    assert_eq!(DEFAULT_STOP_WORDS_PATH, "./stop_words.txt");
    let text: String = (0..40).map(|k| format!("w{k} ")).collect();
    let ranking = top_words(&text, "", DEFAULT_LIMIT);
    assert_eq!(ranking.len(), 25);
    assert_eq!(ranking[0], ("w0".to_string(), 1));
    assert_eq!(ranking[24], ("w24".to_string(), 1));
}

#[test]
fn missing_input_file_fails_the_run_before_stop_words_are_asked() {
    let actions = drive(start(25), None, Some("the"));
    assert_eq!(
        actions,
        vec![
            Action::AskLoader(FileLoaderCommand::LoadInput { filename: "in.txt".to_string() }),
            Action::Report(Failure::FileOpenFailure(FileKind::Input)),
        ]
    );
}

#[test]
fn missing_stop_word_file_fails_the_run_before_counting() {
    let actions = drive(start(25), Some("some text"), None);
    assert_eq!(
        actions,
        vec![
            Action::AskLoader(FileLoaderCommand::LoadInput { filename: "in.txt".to_string() }),
            Action::AskLoader(FileLoaderCommand::LoadStopWords { filename: "stop.txt".to_string() }),
            Action::Report(Failure::FileOpenFailure(FileKind::StopWords)),
        ]
    );
}

#[test]
fn each_step_moves_to_the_next_state() {
    assert_eq!(
        start(7),
        Orchestrator::Start {
            input_path: "in.txt".to_string(),
            stop_words_path: "stop.txt".to_string(),
            limit: 7
        }
    );
    assert_eq!(
        awaiting_input(),
        Orchestrator::AwaitInput { stop_words_path: "stop.txt".to_string(), limit: 25 }
    );
    assert_eq!(
        awaiting_stop_words(),
        Orchestrator::AwaitStopWords { words: names(&["b", "a", "b"]), limit: 25 }
    );
    assert_eq!(awaiting_count(), Orchestrator::AwaitCount { limit: 25 });
    let (ranking, action) = awaiting_count().step(Event::Counts(Ok(pairs(&[("a", 1), ("b", 2)]))));
    assert_eq!(ranking, Orchestrator::Ranking);
    assert_eq!(action, Action::Emit(pairs(&[("b", 2), ("a", 1)])));
    assert_eq!(ranking.step(Event::Printed), (Orchestrator::Done, Action::Idle));
}

#[test]
fn failed_reply_fails_the_run_with_its_failure() {
    let failure = Failure::FileReadFailure(FileKind::Input);
    assert_eq!(
        awaiting_input().step(Event::Words(Err(failure))),
        (Orchestrator::Failed(failure), Action::Report(failure))
    );
    let failure = Failure::FileReadFailure(FileKind::StopWords);
    assert_eq!(
        awaiting_stop_words().step(Event::Words(Err(failure))),
        (Orchestrator::Failed(failure), Action::Report(failure))
    );
    assert_eq!(
        awaiting_count().step(Event::Counts(Err(Failure::ChannelFailure))),
        (Orchestrator::Failed(Failure::ChannelFailure), Action::Report(Failure::ChannelFailure))
    );
}

#[test]
fn lost_service_fails_the_run_with_channel_failure() {
    let failed = (Orchestrator::Failed(Failure::ChannelFailure), Action::Report(Failure::ChannelFailure));
    assert_eq!(start(25).step(Event::Disconnected), failed);
    assert_eq!(awaiting_input().step(Event::Disconnected), failed);
    assert_eq!(awaiting_stop_words().step(Event::Disconnected), failed);
    assert_eq!(awaiting_count().step(Event::Disconnected), failed);
    assert_eq!(Orchestrator::Ranking.step(Event::Disconnected), failed);
}

#[test]
fn reply_out_of_turn_fails_the_run_with_channel_failure() {
    let failed = (Orchestrator::Failed(Failure::ChannelFailure), Action::Report(Failure::ChannelFailure));
    assert_eq!(start(25).step(Event::Words(Ok(names(&["a"])))), failed);
    assert_eq!(awaiting_input().step(Event::Counts(Ok(pairs(&[("a", 1)])))), failed);
    assert_eq!(awaiting_input().step(Event::Begin), failed);
    assert_eq!(awaiting_stop_words().step(Event::Counts(Err(Failure::MissingArgument))), failed);
    assert_eq!(awaiting_count().step(Event::Words(Ok(names(&["a"])))), failed);
    assert_eq!(awaiting_count().step(Event::Words(Err(Failure::MissingArgument))), failed);
    assert_eq!(awaiting_count().step(Event::Printed), failed);
    assert_eq!(Orchestrator::Ranking.step(Event::Begin), failed);
    assert_eq!(Orchestrator::Ranking.step(Event::Counts(Ok(pairs(&[])))), failed);
}

#[test]
fn run_that_is_over_stays_over_and_asks_nothing() {
    let ranking = awaiting_count().step(Event::Counts(Ok(pairs(&[])))).0;
    assert!(!ranking.is_over());
    let done = ranking.step(Event::Printed).0;
    assert!(done.is_over());
    assert_eq!(done.step(Event::Begin), (Orchestrator::Done, Action::Idle));
    assert_eq!(Orchestrator::Done.step(Event::Printed), (Orchestrator::Done, Action::Idle));
    let failure = Failure::FileOpenFailure(FileKind::Input);
    let failed = awaiting_input().step(Event::Words(Err(failure))).0;
    assert!(failed.is_over());
    let (still, action) = failed.step(Event::Words(Ok(names(&["late"]))));
    assert_eq!((&still, &action), (&Orchestrator::Failed(failure), &Action::Idle));
    assert_eq!(still.step(Event::Disconnected), (Orchestrator::Failed(failure), Action::Idle));
    assert!(!start(25).is_over());
    assert!(!awaiting_input().is_over());
    assert!(!awaiting_stop_words().is_over());
    assert!(!awaiting_count().is_over());
}

#[test]
fn run_needs_an_input_path_argument() {
    assert_eq!(
        Orchestrator::from_args(&names(&[]), "stop.txt".to_string(), 25),
        Err(Failure::MissingArgument)
    );
    assert_eq!(
        Orchestrator::from_args(&names(&["prog"]), "stop.txt".to_string(), 25),
        Err(Failure::MissingArgument)
    );
    assert_eq!(
        Orchestrator::from_args(&names(&["prog", "in.txt", "extra"]), "stop.txt".to_string(), 25),
        Ok(start(25))
    );
}
