//! The ways in which a poll operation fails.

use vstd::prelude::*;

verus! {

/// Why a poll could not be started, shown or voted on.
#[derive(Clone, Copy, Debug, PartialEq, Eq, Structural)]
pub enum PollError {
    /// The option input names no label.
    NoOptions,
    /// The store holds no poll under the given identifier.
    UnknownPoll,
    /// The poll does not offer the chosen option.
    UnknownOption,
    /// The host platform did not accept the poll's display.
    UpstreamDisplayFailure,
}

impl PollError {
    /// What went wrong, in words.
    pub open spec fn text(self) -> Seq<char> {
        match self {
            PollError::NoOptions => "no options"@,
            PollError::UnknownPoll => "unexpected interaction id"@,
            PollError::UnknownOption => "unknown option"@,
            PollError::UpstreamDisplayFailure => "failed to create response"@,
        }
    }

    /// What went wrong, in words, for a log line.
    pub fn describe(&self) -> (words: &'static str)
        ensures
            words@ == self.text(),
    {
        match self {
            PollError::NoOptions => "no options",
            PollError::UnknownPoll => "unexpected interaction id",
            PollError::UnknownOption => "unknown option",
            PollError::UpstreamDisplayFailure => "failed to create response",
        }
    }
}

} // verus!
