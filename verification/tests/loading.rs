use term_frequency::failure::{Failure, FileKind};
use term_frequency::loader::{fileloader, FileLoaderCommand, ReadOutcome};

fn strings(items: &[&str]) -> Vec<String> {
    items.iter().map(|w| w.to_string()).collect()
}

fn load_input() -> FileLoaderCommand {
    FileLoaderCommand::LoadInput { filename: "input.txt".to_string() }
}

fn load_stop_words() -> FileLoaderCommand {
    FileLoaderCommand::LoadStopWords { filename: "./stop_words.txt".to_string() }
}

#[test]
fn loads_input_as_tokens() {
    let reply = fileloader(&load_input(), ReadOutcome::Contents("The Quick, quick fox!".to_string()));
    assert_eq!(reply, Ok(strings(&["the", "quick", "quick", "fox"])));
}

#[test]
fn loads_input_with_commas_as_tokens_not_fields() {
    let reply = fileloader(&load_input(), ReadOutcome::Contents("A,B c".to_string()));
    assert_eq!(reply, Ok(strings(&["a", "b", "c"])));
}

#[test]
fn loads_stop_words_as_lowercased_fields() {
    let reply = fileloader(&load_stop_words(), ReadOutcome::Contents("The,a an,OF".to_string()));
    assert_eq!(reply, Ok(strings(&["the", "a an", "of"])));
}

#[test]
fn file_that_cannot_be_opened_gives_failed_reply() {
    assert_eq!(
        fileloader(&load_input(), ReadOutcome::OpenFailed),
        Err(Failure::FileOpenFailure(FileKind::Input))
    );
    assert_eq!(
        fileloader(&load_stop_words(), ReadOutcome::OpenFailed),
        Err(Failure::FileOpenFailure(FileKind::StopWords))
    );
}

#[test]
fn file_that_cannot_be_read_gives_failed_reply() {
    assert_eq!(
        fileloader(&load_input(), ReadOutcome::ReadFailed),
        Err(Failure::FileReadFailure(FileKind::Input))
    );
    assert_eq!(
        fileloader(&load_stop_words(), ReadOutcome::ReadFailed),
        Err(Failure::FileReadFailure(FileKind::StopWords))
    );
}

#[test]
fn loader_serves_valid_request_after_failed_one() {
    let missing = FileLoaderCommand::LoadInput { filename: "/no/such/file".to_string() };
    assert_eq!(
        fileloader(&missing, ReadOutcome::OpenFailed),
        Err(Failure::FileOpenFailure(FileKind::Input))
    );
    assert_eq!(
        fileloader(&load_input(), ReadOutcome::Contents("still here".to_string())),
        Ok(strings(&["still", "here"]))
    );
}

#[test]
fn command_names_its_file_and_kind() {
    assert_eq!(load_input().filename(), "input.txt");
    assert_eq!(load_input().file_kind(), FileKind::Input);
    assert_eq!(load_stop_words().filename(), "./stop_words.txt");
    assert_eq!(load_stop_words().file_kind(), FileKind::StopWords);
}

#[test]
fn missing_argument_ends_cleanly_and_other_failures_do_not() {
    assert_eq!(Failure::MissingArgument.exit_status(), 0);
    assert_eq!(Failure::FileOpenFailure(FileKind::Input).exit_status(), 1);
    assert_eq!(Failure::FileOpenFailure(FileKind::StopWords).exit_status(), 1);
    assert_eq!(Failure::FileReadFailure(FileKind::Input).exit_status(), 1);
    assert_eq!(Failure::FileReadFailure(FileKind::StopWords).exit_status(), 1);
    assert_eq!(Failure::ChannelFailure.exit_status(), 1);
}

#[test]
fn every_failure_has_its_message() {
    assert_eq!(Failure::MissingArgument.message(), "Missing required argument: input file path.");
    assert_eq!(
        Failure::FileOpenFailure(FileKind::Input).message(),
        "Unable to open input file for reading."
    );
    assert_eq!(
        Failure::FileOpenFailure(FileKind::StopWords).message(),
        "Unable to open stop words file for reading."
    );
    assert_eq!(Failure::FileReadFailure(FileKind::Input).message(), "Failed to read input file");
    assert_eq!(
        Failure::FileReadFailure(FileKind::StopWords).message(),
        "Failed to read stop words file"
    );
    assert_eq!(Failure::ChannelFailure.message(), "A worker went away before it replied.");
}
