//! The orchestrator: the state machine that drives one run. It issues the
//! three requests of a run in the order of their dependencies, waits for the
//! reply to each before it issues the next, ranks the frequency table and
//! hands the ranking out, or ends the run at the first failure.
//!
//! The machine decides; its caller acts. Every transition takes the event
//! that the caller observed and returns the action that the caller owes:
//! a request to send, a ranking to print, a failure to report.
//!
//! ```text
//! Start --Begin--> AwaitInput --words--> AwaitStopWords --stop words--> AwaitCount
//!       --table--> Ranking --Printed--> Done
//! ```
//!
//! Every state before `Done` leads to `Failed` on a failed reply, on a
//! service that went away, and on an event that is out of turn.

use vstd::prelude::*;

use crate::counter::WordCounterCommand;
use crate::failure::{Failure, FileKind, Reply};
use crate::loader::FileLoaderCommand;
use crate::model::{count_views, word_views, Token, WordCounts, WordList};
use crate::ranking::{leading, ranked, top_n};

verus! {

/// How many entries a ranking shows unless told otherwise.
pub const DEFAULT_LIMIT: usize = 25;

/// Where the stop words are read from unless told otherwise.
pub const DEFAULT_STOP_WORDS_PATH: &'static str = "./stop_words.txt";

/// The state of a run.
#[derive(Debug, PartialEq, Eq)]
pub enum Orchestrator {
    /// Nothing has been asked yet.
    Start { input_path: String, stop_words_path: String, limit: usize },
    /// The input text has been asked for.
    AwaitInput { stop_words_path: String, limit: usize },
    /// The words of the input are here; the stop words have been asked for.
    AwaitStopWords { words: WordList, limit: usize },
    /// Both word lists have gone to the counter.
    AwaitCount { limit: usize },
    /// The frequency table is ranked; the ranking is out to be printed.
    Ranking,
    /// The ranking has been printed.
    Done,
    /// The run has failed.
    Failed(Failure),
}

/// What the caller of the machine observed.
#[derive(Debug, PartialEq, Eq)]
pub enum Event {
    /// The run is to begin.
    Begin,
    /// The loader service replied.
    Words(Reply<WordList>),
    /// The counter service replied.
    Counts(Reply<WordCounts>),
    /// The ranking has been printed.
    Printed,
    /// A service went away before it replied.
    Disconnected,
}

/// What the caller of the machine is to do next.
#[derive(Debug, PartialEq, Eq)]
pub enum Action {
    /// Send this request to the loader service and wait for its reply.
    AskLoader(FileLoaderCommand),
    /// Send this request to the counter service and wait for its reply.
    AskCounter(WordCounterCommand),
    /// Print this ranking, entry by entry, and say when it is printed.
    Emit(WordCounts),
    /// Report this failure; the run is over.
    Report(Failure),
    /// Nothing: the run was over before.
    Idle,
}

/// The state of a run as a mathematical value.
pub enum RunModel {
    Start { input_path: Seq<char>, stop_words_path: Seq<char>, limit: nat },
    AwaitInput { stop_words_path: Seq<char>, limit: nat },
    AwaitStopWords { words: Seq<Token>, limit: nat },
    AwaitCount { limit: nat },
    Ranking,
    Done,
    Failed(Failure),
}

/// An event as a mathematical value.
pub enum EventModel {
    Begin,
    Words(Reply<Seq<Token>>),
    Counts(Reply<Seq<(Token, nat)>>),
    Printed,
    Disconnected,
}

/// An action as a mathematical value.
pub enum ActionModel {
    AskLoader { kind: FileKind, path: Seq<char> },
    AskCounter { words: Seq<Token>, stopwords: Seq<Token> },
    Emit(Seq<(Token, nat)>),
    Report(Failure),
    Idle,
}

impl View for Orchestrator {
    type V = RunModel;

    open spec fn view(&self) -> RunModel {
        match *self {
            Orchestrator::Start { input_path, stop_words_path, limit } => RunModel::Start {
                input_path: input_path@,
                stop_words_path: stop_words_path@,
                limit: limit as nat,
            },
            Orchestrator::AwaitInput { stop_words_path, limit } => RunModel::AwaitInput {
                stop_words_path: stop_words_path@,
                limit: limit as nat,
            },
            Orchestrator::AwaitStopWords { words, limit } => RunModel::AwaitStopWords {
                words: word_views(words@),
                limit: limit as nat,
            },
            Orchestrator::AwaitCount { limit } => RunModel::AwaitCount { limit: limit as nat },
            Orchestrator::Ranking => RunModel::Ranking,
            Orchestrator::Done => RunModel::Done,
            Orchestrator::Failed(failure) => RunModel::Failed(failure),
        }
    }
}

impl View for Event {
    type V = EventModel;

    open spec fn view(&self) -> EventModel {
        match *self {
            Event::Begin => EventModel::Begin,
            Event::Words(Ok(words)) => EventModel::Words(Ok(word_views(words@))),
            Event::Words(Err(failure)) => EventModel::Words(Err(failure)),
            Event::Counts(Ok(counts)) => EventModel::Counts(Ok(count_views(counts@))),
            Event::Counts(Err(failure)) => EventModel::Counts(Err(failure)),
            Event::Printed => EventModel::Printed,
            Event::Disconnected => EventModel::Disconnected,
        }
    }
}

impl View for Action {
    type V = ActionModel;

    open spec fn view(&self) -> ActionModel {
        match *self {
            Action::AskLoader(command) => ActionModel::AskLoader {
                kind: command.kind(),
                path: command.path(),
            },
            Action::AskCounter(command) => ActionModel::AskCounter {
                words: word_views(command->words@),
                stopwords: word_views(command->stopwords@),
            },
            Action::Emit(ranking) => ActionModel::Emit(count_views(ranking@)),
            Action::Report(failure) => ActionModel::Report(failure),
            Action::Idle => ActionModel::Idle,
        }
    }
}

impl RunModel {
    /// The run is over: nothing more will be asked of any service.
    pub open spec fn is_over(self) -> bool {
        self is Done || self is Failed
    }

    /// How far the run has come, counted in the events that brought it on.
    pub open spec fn progress(self) -> nat {
        match self {
            RunModel::Start { .. } => 0,
            RunModel::AwaitInput { .. } => 1,
            RunModel::AwaitStopWords { .. } => 2,
            RunModel::AwaitCount { .. } => 3,
            RunModel::Ranking => 4,
            RunModel::Done => 5,
            RunModel::Failed(_) => 5,
        }
    }
}

impl ActionModel {
    /// The action sends a request to a service.
    pub open spec fn is_request(self) -> bool {
        self is AskLoader || self is AskCounter
    }
}

/// The end of a run that failed: the failure is kept and reported.
pub open spec fn fail(failure: Failure) -> (RunModel, ActionModel) {
    (RunModel::Failed(failure), ActionModel::Report(failure))
}

/// The transitions of a run.
///
/// A run that has not begun asks for the input text when it begins. While it
/// waits for a reply, the reply it waits for takes it one step on: the words
/// of the input make it ask for the stop words, the stop words make it send
/// both lists to the counter, and the frequency table is ranked and handed
/// out to be printed. Once the ranking is printed the run is done. A failed
/// reply ends the run with that failure. Anything else that happens before
/// the run is over (a service that went away, a reply of the wrong kind, a
/// second beginning) ends it with a channel failure. A run that is over stays
/// as it is and asks for nothing.
pub open spec fn transition(state: RunModel, event: EventModel) -> (RunModel, ActionModel) {
    match state {
        RunModel::Start { input_path, stop_words_path, limit } => match event {
            EventModel::Begin => (
                RunModel::AwaitInput { stop_words_path, limit },
                ActionModel::AskLoader { kind: FileKind::Input, path: input_path },
            ),
            _ => fail(Failure::ChannelFailure),
        },
        RunModel::AwaitInput { stop_words_path, limit } => match event {
            EventModel::Words(Ok(words)) => (
                RunModel::AwaitStopWords { words, limit },
                ActionModel::AskLoader { kind: FileKind::StopWords, path: stop_words_path },
            ),
            EventModel::Words(Err(failure)) => fail(failure),
            _ => fail(Failure::ChannelFailure),
        },
        RunModel::AwaitStopWords { words, limit } => match event {
            EventModel::Words(Ok(stopwords)) => (
                RunModel::AwaitCount { limit },
                ActionModel::AskCounter { words, stopwords },
            ),
            EventModel::Words(Err(failure)) => fail(failure),
            _ => fail(Failure::ChannelFailure),
        },
        RunModel::AwaitCount { limit } => match event {
            EventModel::Counts(Ok(counts)) => (
                RunModel::Ranking,
                ActionModel::Emit(leading(ranked(counts), limit)),
            ),
            EventModel::Counts(Err(failure)) => fail(failure),
            _ => fail(Failure::ChannelFailure),
        },
        RunModel::Ranking => match event {
            EventModel::Printed => (RunModel::Done, ActionModel::Idle),
            _ => fail(Failure::ChannelFailure),
        },
        RunModel::Done => (RunModel::Done, ActionModel::Idle),
        RunModel::Failed(failure) => (RunModel::Failed(failure), ActionModel::Idle),
    }
}

impl Orchestrator {
    /// A run that has not begun. It will read the input from `input_path` and
    /// the stop words from `stop_words_path`, and show the `limit` most
    /// frequent words.
    pub fn new(input_path: String, stop_words_path: String, limit: usize) -> (run: Orchestrator)
        ensures
            run@ == (RunModel::Start {
                input_path: input_path@,
                stop_words_path: stop_words_path@,
                limit: limit as nat,
            }),
    {
        Orchestrator::Start { input_path, stop_words_path, limit }
    }

    /// A run for the arguments of a command line: the name of the program,
    /// then the path of the input. Without a path there is no run to make.
    pub fn from_args(args: &Vec<String>, stop_words_path: String, limit: usize) -> (run: Result<
        Orchestrator,
        Failure,
    >)
        ensures
            args.len() < 2 ==> run == Err::<Orchestrator, Failure>(Failure::MissingArgument),
            args.len() >= 2 ==> run is Ok && run->Ok_0@ == (RunModel::Start {
                input_path: args@[1]@,
                stop_words_path: stop_words_path@,
                limit: limit as nat,
            }),
    {
        if args.len() < 2 {
            Err(Failure::MissingArgument)
        } else {
            Ok(Orchestrator::new(args[1].clone(), stop_words_path, limit))
        }
    }

    /// Whether the run is over.
    pub fn is_over(&self) -> (over: bool)
        ensures
            over == self@.is_over(),
    {
        match self {
            Orchestrator::Done => true,
            Orchestrator::Failed(_) => true,
            _ => false,
        }
    }

    /// Takes one transition: from this state and the event that the caller
    /// observed to the next state and the action that the caller owes.
    pub fn step(self, event: Event) -> (next: (Orchestrator, Action))
        ensures
            (next.0@, next.1@) == transition(self@, event@),
    {
        match self {
            Orchestrator::Start { input_path, stop_words_path, limit } => match event {
                Event::Begin => (
                    Orchestrator::AwaitInput { stop_words_path, limit },
                    Action::AskLoader(FileLoaderCommand::LoadInput { filename: input_path }),
                ),
                _ => Self::failed(Failure::ChannelFailure),
            },
            Orchestrator::AwaitInput { stop_words_path, limit } => match event {
                Event::Words(Ok(words)) => (
                    Orchestrator::AwaitStopWords { words, limit },
                    Action::AskLoader(
                        FileLoaderCommand::LoadStopWords { filename: stop_words_path },
                    ),
                ),
                Event::Words(Err(failure)) => Self::failed(failure),
                _ => Self::failed(Failure::ChannelFailure),
            },
            Orchestrator::AwaitStopWords { words, limit } => match event {
                Event::Words(Ok(stopwords)) => (
                    Orchestrator::AwaitCount { limit },
                    Action::AskCounter(WordCounterCommand::CountWords { words, stopwords }),
                ),
                Event::Words(Err(failure)) => Self::failed(failure),
                _ => Self::failed(Failure::ChannelFailure),
            },
            Orchestrator::AwaitCount { limit } => match event {
                Event::Counts(Ok(counts)) => (
                    Orchestrator::Ranking,
                    Action::Emit(top_n(&counts, limit)),
                ),
                Event::Counts(Err(failure)) => Self::failed(failure),
                _ => Self::failed(Failure::ChannelFailure),
            },
            Orchestrator::Ranking => match event {
                Event::Printed => (Orchestrator::Done, Action::Idle),
                _ => Self::failed(Failure::ChannelFailure),
            },
            Orchestrator::Done => (Orchestrator::Done, Action::Idle),
            Orchestrator::Failed(failure) => (Orchestrator::Failed(failure), Action::Idle),
        }
    }

    /// The end of a run that failed.
    fn failed(failure: Failure) -> (next: (Orchestrator, Action))
        ensures
            (next.0@, next.1@) == fail(failure),
    {
        (Orchestrator::Failed(failure), Action::Report(failure))
    }
}

/// The state that a run reaches, and the actions that it asks for, when it
/// is fed the given events one after another.
pub open spec fn run(state: RunModel, events: Seq<EventModel>) -> (RunModel, Seq<ActionModel>)
    decreases events.len(),
{
    if events.len() == 0 {
        (state, Seq::empty())
    } else {
        let (reached, actions) = run(state, events.drop_last());
        let (next, action) = transition(reached, events.last());
        (next, actions.push(action))
    }
}

/// A run that is over stays as it is and asks for nothing, whatever happens.
pub proof fn lemma_over_stays_over(state: RunModel, event: EventModel)
    requires
        state.is_over(),
    ensures
        transition(state, event) == (state, ActionModel::Idle),
{
}

/// A run that is not over comes one state nearer to its end with every
/// event, or fails and reports the failure: no event leaves it waiting where
/// it was. Nothing is reported unless the run fails.
pub proof fn lemma_every_event_advances(state: RunModel, event: EventModel)
    requires
        !state.is_over(),
    ensures
        ({
            let (next, action) = transition(state, event);
            ||| next is Failed && action == ActionModel::Report(next->Failed_0)
            ||| next.progress() == state.progress() + 1 && !(next is Failed) && !(action is Report)
        }),
{
}

/// Nothing is asked before what it depends on is here. The input is asked
/// for only when the run begins. The stop words are asked for only on the
/// reply that brings the words of the input. The counter is asked only on
/// the reply that brings the stop words, and gets exactly the two word lists
/// that the loader sent. A ranking is handed out only on the reply that
/// brings the frequency table, and is the ranking of that table.
pub proof fn lemma_requests_wait_for_replies(state: RunModel, event: EventModel)
    ensures
        ({
            let (next, action) = transition(state, event);
            &&& action is AskLoader && action->kind == FileKind::Input ==> {
                &&& state is Start
                &&& event is Begin
                &&& action->path == state->Start_input_path
            }
            &&& action is AskLoader && action->kind == FileKind::StopWords ==> {
                &&& state is AwaitInput
                &&& event == EventModel::Words(Ok(next->AwaitStopWords_words))
                &&& action->path == state->AwaitInput_stop_words_path
            }
            &&& action is AskCounter ==> {
                &&& state is AwaitStopWords
                &&& event == EventModel::Words(Ok(action->stopwords))
                &&& action->words == state->AwaitStopWords_words
            }
            &&& action is Emit ==> {
                &&& state is AwaitCount
                &&& event is Counts
                &&& event->Counts_0 is Ok
                &&& action->Emit_0 == leading(ranked(event->Counts_0->Ok_0), state->AwaitCount_limit)
            }
        }),
{
}

/// A failed reply ends the run with the failure that the reply carries, and
/// a service that goes away while the run waits ends it with a channel
/// failure. The failure is reported once; nothing is asked afterwards.
pub proof fn lemma_failures_end_the_run(state: RunModel, failure: Failure, later: EventModel)
    requires
        !state.is_over(),
    ensures
        state is AwaitInput || state is AwaitStopWords ==> transition(
            state,
            EventModel::Words(Err(failure)),
        ) == fail(failure),
        state is AwaitCount ==> transition(state, EventModel::Counts(Err(failure))) == fail(
            failure,
        ),
        transition(state, EventModel::Disconnected) == fail(Failure::ChannelFailure),
        transition(fail(failure).0, later) == (RunModel::Failed(failure), ActionModel::Idle),
{
}

/// One more event at the end of a sequence is one more transition.
pub proof fn lemma_run_push(state: RunModel, events: Seq<EventModel>, event: EventModel)
    ensures
        run(state, events.push(event)) == ({
            let (reached, actions) = run(state, events);
            let (next, action) = transition(reached, event);
            (next, actions.push(action))
        }),
        run(state, events).1.len() == events.len(),
    decreases events.len(),
{
    assert(events.push(event).drop_last() =~= events);
    if events.len() > 0 {
        lemma_run_push(state, events.drop_last(), events.last());
        assert(events.drop_last().push(events.last()) =~= events);
    }
}

/// No run goes on forever: after five events every run is over, whatever
/// the events were.
pub proof fn lemma_run_is_over_after_five_events(state: RunModel, events: Seq<EventModel>)
    ensures
        run(state, events).0.is_over() || run(state, events).0.progress() >= state.progress()
            + events.len(),
        events.len() >= 5 ==> run(state, events).0.is_over(),
    decreases events.len(),
{
    if events.len() > 0 {
        let reached = run(state, events.drop_last()).0;
        lemma_run_is_over_after_five_events(state, events.drop_last());
        if reached.is_over() {
            lemma_over_stays_over(reached, events.last());
        } else {
            lemma_every_event_advances(reached, events.last());
        }
    }
}

} // verus!
