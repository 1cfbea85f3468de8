//! The loader service: from the contents of a file to a word list.

use vstd::prelude::*;

use crate::failure::{Failure, FileKind, Reply};
use crate::model::{word_views, Token, WordList};
use crate::stop_words::{stop_word_list, stop_words_of};
use crate::tokenizer::{tokenize, tokens_of};

verus! {

/// A request to the loader service.
#[derive(Debug, PartialEq, Eq)]
pub enum FileLoaderCommand {
    /// Load the text whose words are counted.
    LoadInput { filename: String },
    /// Load the stop words.
    LoadStopWords { filename: String },
}

impl FileLoaderCommand {
    /// The file that the request names.
    pub open spec fn path(self) -> Seq<char> {
        match self {
            FileLoaderCommand::LoadInput { filename } => filename@,
            FileLoaderCommand::LoadStopWords { filename } => filename@,
        }
    }

    /// Which of the two files the request asks for.
    pub open spec fn kind(self) -> FileKind {
        match self {
            FileLoaderCommand::LoadInput { .. } => FileKind::Input,
            FileLoaderCommand::LoadStopWords { .. } => FileKind::StopWords,
        }
    }

    /// The file to read for this request.
    pub fn filename(&self) -> (name: &String)
        ensures
            name@ == self.path(),
    {
        match self {
            FileLoaderCommand::LoadInput { filename } => filename,
            FileLoaderCommand::LoadStopWords { filename } => filename,
        }
    }

    /// Which of the two files this request asks for.
    pub fn file_kind(&self) -> (kind: FileKind)
        ensures
            kind == self.kind(),
    {
        match self {
            FileLoaderCommand::LoadInput { .. } => FileKind::Input,
            FileLoaderCommand::LoadStopWords { .. } => FileKind::StopWords,
        }
    }
}

/// How the attempt to read a file ended.
#[derive(Debug, PartialEq, Eq)]
pub enum ReadOutcome {
    /// The file was read to its end; this is its text.
    Contents(String),
    /// The file could not be opened.
    OpenFailed,
    /// The file was opened, but reading it failed.
    ReadFailed,
}

/// The word list that a file of the given kind holds: the tokens of an input
/// text taken as one buffer, or the stop words of a comma-separated buffer.
pub open spec fn loaded_words(kind: FileKind, text: Seq<char>) -> Seq<Token> {
    match kind {
        FileKind::Input => tokens_of(text),
        FileKind::StopWords => stop_words_of(text),
    }
}

/// The reply that the loader service owes to a request, given how reading the
/// file ended: the word list of the file, or the failure, which names the
/// file that the request asked for.
pub open spec fn loader_reply(kind: FileKind, outcome: ReadOutcome) -> Reply<Seq<Token>> {
    match outcome {
        ReadOutcome::Contents(text) => Ok(loaded_words(kind, text@)),
        ReadOutcome::OpenFailed => Err(Failure::FileOpenFailure(kind)),
        ReadOutcome::ReadFailed => Err(Failure::FileReadFailure(kind)),
    }
}

/// The word list of a reply, seen as character sequences.
pub open spec fn words_reply_view(reply: Reply<WordList>) -> Reply<Seq<Token>> {
    match reply {
        Ok(words) => Ok(word_views(words@)),
        Err(failure) => Err(failure),
    }
}

/// Serves one request to the loader service. The caller has tried to read
/// the file that the request names and hands in how that ended. A file that
/// was read is turned into its word list; a file that could not be opened or
/// read gives a failed reply, so that the service can go on to its next
/// request.
pub fn fileloader(command: &FileLoaderCommand, outcome: ReadOutcome) -> (reply: Reply<WordList>)
    ensures
        words_reply_view(reply) == loader_reply(command.kind(), outcome),
{
    match outcome {
        ReadOutcome::Contents(text) => {
            match command {
                FileLoaderCommand::LoadInput { .. } => Ok(tokenize(text.as_str())),
                FileLoaderCommand::LoadStopWords { .. } => Ok(stop_word_list(text.as_str())),
            }
        },
        ReadOutcome::OpenFailed => Err(Failure::FileOpenFailure(command.file_kind())),
        ReadOutcome::ReadFailed => Err(Failure::FileReadFailure(command.file_kind())),
    }
}

} // verus!
