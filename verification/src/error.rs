//! The failures this system reports.

use vstd::prelude::*;

use crate::text::concat_strs;

verus! {

/// Everything that can go wrong while managing sessions.
#[derive(Debug)]
pub enum TsmError {
    /// An operation that needs an active multiplexer session ran outside one.
    NotInTmux,
    /// The driver rejected a command; its diagnostic is passed through.
    TmuxCommand(String),
    /// Reading or writing the ledger file failed.
    Io(String),
    /// Running the interactive picker failed.
    Fzf(String),
    /// A malformed argument, such as a bad window address.
    InvalidArgument(String),
}

impl TsmError {
    /// A human-readable description of the failure.
    pub fn message(&self) -> (r: String)
        ensures
            r@ == match self {
                TsmError::NotInTmux => "not inside a tmux session"@,
                TsmError::TmuxCommand(d) => "failed to execute tmux command: "@ + d@,
                TsmError::Io(d) => "IO error: "@ + d@,
                TsmError::Fzf(d) => "failed to execute fzf command: "@ + d@,
                TsmError::InvalidArgument(d) => "invalid argument: "@ + d@,
            },
    {
        match self {
            TsmError::NotInTmux => "not inside a tmux session".to_owned(),
            TsmError::TmuxCommand(d) => concat_strs("failed to execute tmux command: ", d.as_str()),
            TsmError::Io(d) => concat_strs("IO error: ", d.as_str()),
            TsmError::Fzf(d) => concat_strs("failed to execute fzf command: ", d.as_str()),
            TsmError::InvalidArgument(d) => concat_strs("invalid argument: ", d.as_str()),
        }
    }
}

} // verus!
