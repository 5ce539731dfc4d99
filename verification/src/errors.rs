//! The kinds of error the client reports.

use vstd::prelude::*;
use crate::text::{owned, push_str};

verus! {

/// What went wrong, with a message.
#[derive(Clone, Debug)]
pub enum ErrorKind {
    Client(String),
    Config(String),
    Input(String),
    UnknownShell(String),
    UnknownOutputFormat(String),
    Unknown(String),
}

/// The text an error is shown as.
pub open spec fn error_kind_text(kind: ErrorKind) -> Seq<char> {
    match kind {
        ErrorKind::Client(message) => message@,
        ErrorKind::Config(message) => message@,
        ErrorKind::Input(message) => "Input error: "@ + message@,
        ErrorKind::UnknownShell(shell) => "Unknown shell `"@ + shell@ + "`"@,
        ErrorKind::UnknownOutputFormat(message) => message@,
        ErrorKind::Unknown(message) => "An unknown error has occurred: "@ + message@,
    }
}

impl ErrorKind {
    /// The text this error is shown as.
    pub fn message(&self) -> (text: String)
        ensures
            text@ == error_kind_text(*self),
    {
        match self {
            ErrorKind::Client(message) => message.clone(),
            ErrorKind::Config(message) => message.clone(),
            ErrorKind::Input(message) => {
                let mut text = owned("Input error: ");
                push_str(&mut text, message.as_str());
                text
            },
            ErrorKind::UnknownShell(shell) => {
                let mut text = owned("Unknown shell `");
                push_str(&mut text, shell.as_str());
                push_str(&mut text, "`");
                text
            },
            ErrorKind::UnknownOutputFormat(message) => message.clone(),
            ErrorKind::Unknown(message) => {
                let mut text = owned("An unknown error has occurred: ");
                push_str(&mut text, message.as_str());
                text
            },
        }
    }
}

} // verus!
