//! Replies, and why a run can fail.

use vstd::prelude::*;

verus! {

/// Which of the two files of a run a request or a failure concerns.
#[derive(Debug, Clone, Copy, PartialEq, Eq, Structural)]
pub enum FileKind {
    /// The text whose words are counted.
    Input,
    /// The list of words that are not counted.
    StopWords,
}

/// Why a run ended without a ranking.
#[derive(Debug, Clone, Copy, PartialEq, Eq, Structural)]
pub enum Failure {
    /// No input path was given on the command line.
    MissingArgument,
    /// A file could not be opened.
    FileOpenFailure(FileKind),
    /// A file was opened, but reading it failed.
    FileReadFailure(FileKind),
    /// A service went away, or answered out of turn.
    ChannelFailure,
}

/// What a service sends back: what was asked for, or why it could not be had.
pub type Reply<T> = Result<T, Failure>;

impl Failure {
    /// The exit status with which a run that failed this way ends: a missing
    /// argument ends the run cleanly, every other failure with status one.
    pub open spec fn exit_status_of(self) -> u8 {
        match self {
            Failure::MissingArgument => 0,
            _ => 1,
        }
    }

    /// The exit status for this failure.
    pub fn exit_status(&self) -> (status: u8)
        ensures
            status == self.exit_status_of(),
    {
        match self {
            Failure::MissingArgument => 0,
            _ => 1,
        }
    }

    /// The words in which this failure is reported to the user.
    pub open spec fn message_of(self) -> Seq<char> {
        match self {
            Failure::MissingArgument => "Missing required argument: input file path."@,
            Failure::FileOpenFailure(FileKind::Input) => "Unable to open input file for reading."@,
            Failure::FileOpenFailure(FileKind::StopWords) =>
                "Unable to open stop words file for reading."@,
            Failure::FileReadFailure(FileKind::Input) => "Failed to read input file"@,
            Failure::FileReadFailure(FileKind::StopWords) => "Failed to read stop words file"@,
            Failure::ChannelFailure => "A worker went away before it replied."@,
        }
    }

    /// The message for this failure.
    pub fn message(&self) -> (text: &'static str)
        ensures
            text@ == self.message_of(),
    {
        match self {
            Failure::MissingArgument => "Missing required argument: input file path.",
            Failure::FileOpenFailure(FileKind::Input) => "Unable to open input file for reading.",
            Failure::FileOpenFailure(FileKind::StopWords) =>
                "Unable to open stop words file for reading.",
            Failure::FileReadFailure(FileKind::Input) => "Failed to read input file",
            Failure::FileReadFailure(FileKind::StopWords) => "Failed to read stop words file",
            Failure::ChannelFailure => "A worker went away before it replied.",
        }
    }
}

} // verus!
