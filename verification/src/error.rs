//! What can go wrong with a checkpoint store.
use crate::json::{error_words, json_error_is_io, json_error_text};
use crate::text::{decimal, decimal_text};
use vstd::prelude::*;

verus! {

/// An error of a checkpoint store.
#[derive(Debug)]
pub enum ResumeError {
    /// The store holds no checkpoint.
    NoCheckpoint(String),
    /// A row of the store cannot be read.
    CheckpointCorrupt { message: String, line_number: Option<usize> },
    /// Reading or writing failed.
    Io(std::io::Error),
    /// A text is not JSON.
    Json(serde_json::Error),
    /// The text of a row holds a line feed.
    NewlineInPayload,
}

/// Whether two errors are the same: of one kind, and with the same content.
pub open spec fn same_error(one: ResumeError, other: ResumeError) -> bool {
    match (one, other) {
        (ResumeError::NoCheckpoint(a), ResumeError::NoCheckpoint(b)) => a@ == b@,
        (
            ResumeError::CheckpointCorrupt { message: a, line_number: m },
            ResumeError::CheckpointCorrupt { message: b, line_number: n },
        ) => a@ == b@ && m == n,
        (ResumeError::Io(a), ResumeError::Io(b)) => a == b,
        (ResumeError::Json(a), ResumeError::Json(b)) => a == b,
        (ResumeError::NewlineInPayload, ResumeError::NewlineInPayload) => true,
        _ => false,
    }
}

impl ResumeError {
    /// Whether the error comes from input or output.
    pub open spec fn from_io(self) -> bool {
        match self {
            ResumeError::Io(_) => true,
            ResumeError::Json(error) => json_error_is_io(error),
            _ => false,
        }
    }

    /// Whether `text` is what the error says of itself. The words of an input or
    /// output error are the operating system's own.
    pub open spec fn says(self, text: Seq<char>) -> bool {
        match self {
            ResumeError::NoCheckpoint(message) => text == "no checkpoint: "@ + message@,
            ResumeError::CheckpointCorrupt { message, line_number: Some(n) } => text
                == "checkpoint corrupt at line "@ + decimal(n as nat) + ": "@ + message@,
            ResumeError::CheckpointCorrupt { message, line_number: None } => text
                == "checkpoint corrupt: "@ + message@,
            ResumeError::Io(_) => "IO error: "@.is_prefix_of(text),
            ResumeError::Json(error) => {
                &&& "JSON error: "@.is_prefix_of(text)
                &&& !json_error_is_io(error) ==> text == "JSON error: "@ + json_error_text(error)
            },
            ResumeError::NewlineInPayload => text == "checkpoint payload contains a newline"@,
        }
    }

    /// What the error says of itself.
    pub fn to_string(&self) -> (text: String)
        ensures
            self.says(text@),
    {
        match self {
            ResumeError::NoCheckpoint(message) => "no checkpoint: ".to_owned().concat(
                message.as_str(),
            ),
            ResumeError::CheckpointCorrupt { message, line_number } => {
                if let Some(n) = line_number {
                    "checkpoint corrupt at line ".to_owned().concat(
                        decimal_text(*n).as_str(),
                    ).concat(": ").concat(message.as_str())
                } else {
                    "checkpoint corrupt: ".to_owned().concat(message.as_str())
                }
            },
            ResumeError::Io(error) => {
                let text = io_text(io_words(error).as_str());
                assert(text@.take("IO error: "@.len() as int) =~= "IO error: "@);
                text
            },
            ResumeError::Json(error) => {
                let text = json_error_message(error_words(error).as_str());
                assert(text@.take("JSON error: "@.len() as int) =~= "JSON error: "@);
                text
            },
            ResumeError::NewlineInPayload => "checkpoint payload contains a newline".to_owned(),
        }
    }

    /// Whether the error comes from input or output, so that what it says of itself
    /// may differ from one machine to another.
    pub fn is_io(&self) -> (io: bool)
        ensures
            io == self.from_io(),
    {
        match self {
            ResumeError::Io(_) => true,
            ResumeError::Json(error) => error.is_io(),
            _ => false,
        }
    }
}

/// What an input or output error with these words says of itself.
pub fn io_text(words: &str) -> (text: String)
    ensures
        text@ == "IO error: "@ + words@,
{
    "IO error: ".to_owned().concat(words)
}

/// What an error of JSON with these words says of itself.
pub fn json_error_message(words: &str) -> (text: String)
    ensures
        text@ == "JSON error: "@ + words@,
{
    "JSON error: ".to_owned().concat(words)
}

/// The `Display` text of a `std::io::Error`. Nothing is stated of it: the words
/// may be the operating system's, which differ from one machine to another.
#[verifier::external_body]
fn io_words(error: &std::io::Error) -> String {
    error.to_string()
}

impl From<std::io::Error> for ResumeError {
    fn from(error: std::io::Error) -> (e: Self) {
        ResumeError::Io(error)
    }
}

impl vstd::std_specs::convert::FromSpecImpl<std::io::Error> for ResumeError {
    open spec fn obeys_from_spec() -> bool {
        true
    }

    open spec fn from_spec(error: std::io::Error) -> Self {
        ResumeError::Io(error)
    }
}

impl From<serde_json::Error> for ResumeError {
    fn from(error: serde_json::Error) -> (e: Self) {
        ResumeError::Json(error)
    }
}

impl vstd::std_specs::convert::FromSpecImpl<serde_json::Error> for ResumeError {
    open spec fn obeys_from_spec() -> bool {
        true
    }

    open spec fn from_spec(error: serde_json::Error) -> Self {
        ResumeError::Json(error)
    }
}

} // verus!
