//! Moving a window, as a free function.
//!
//! Unlike [`crate::cli::move_window::MoveWindowCommand::run`], this variant
//! reports a missing session context or a shortage of sessions as an
//! informational message rather than an error, and always resolves the
//! source window through an explicit address or the picker.

use vstd::prelude::*;

use crate::cli::move_window::{find_target_session, find_window_to_move, spec_window_spec};
use crate::error::TsmError;
use crate::text::{opt_view, opt_ref_view, spec_split, spec_trim};

verus! {

/// What this variant of the move decides.
#[derive(Debug)]
pub enum MoveHandleOutcome {
    /// Moving the current window needs a session context.
    NotInside,
    /// Moving needs at least two sessions.
    NotEnoughSessions,
    /// The user cancelled the window pick: a clean no-op.
    Cancelled,
    /// No target session was chosen.
    NoTarget,
    /// Move this window to this session.
    Proceed { from_session: String, from_index: u32, to_session: String },
}

impl MoveHandleOutcome {
    /// The informational message to show, where no move happens.
    pub fn message(&self) -> (r: Option<String>)
        ensures
            match self {
                MoveHandleOutcome::NotInside => r is Some && r -> 0@
                    == "Error: Must be inside a tmux session to move the current window"@,
                MoveHandleOutcome::NotEnoughSessions => r is Some && r -> 0@
                    == "At least two sessions are required to move a window"@,
                MoveHandleOutcome::Cancelled => r is None,
                MoveHandleOutcome::NoTarget => r is Some && r -> 0@
                    == "No target session selected, aborting move"@,
                MoveHandleOutcome::Proceed { .. } => r is None,
            },
    {
        match self {
            MoveHandleOutcome::NotInside => Some(
                "Error: Must be inside a tmux session to move the current window".to_owned(),
            ),
            MoveHandleOutcome::NotEnoughSessions => Some(
                "At least two sessions are required to move a window".to_owned(),
            ),
            MoveHandleOutcome::NoTarget => Some(
                "No target session selected, aborting move".to_owned(),
            ),
            _ => None,
        }
    }
}

/// The pre-move decision of this variant.
pub open spec fn move_handle_post(
    from: Option<Seq<char>>,
    to: Option<Seq<char>>,
    inside: bool,
    sessions_len: int,
    from_selection: Option<Seq<char>>,
    to_selection: Option<Seq<char>>,
    r: &Result<MoveHandleOutcome, TsmError>,
) -> bool {
    match r {
        Err(TsmError::InvalidArgument(_)) => {
            &&& (from is Some || inside)
            &&& sessions_len >= 2
            &&& match from {
                Some(f) => spec_window_spec(f) is None,
                None => from_selection is Some && spec_split(from_selection -> 0, '\t').len() == 2
                    && spec_window_spec(spec_trim(spec_split(from_selection -> 0, '\t')[1]))
                    is None,
            }
        },
        Err(_) => false,
        Ok(MoveHandleOutcome::NotInside) => from is None && !inside,
        Ok(MoveHandleOutcome::NotEnoughSessions) => (from is Some || inside) && sessions_len < 2,
        Ok(MoveHandleOutcome::Cancelled) => {
            &&& (from is Some || inside)
            &&& sessions_len >= 2
            &&& from is None
            &&& (from_selection is None || spec_split(from_selection -> 0, '\t').len() != 2)
        },
        Ok(MoveHandleOutcome::NoTarget) => {
            &&& (from is Some || inside)
            &&& sessions_len >= 2
            &&& to is None && to_selection is None
        },
        Ok(MoveHandleOutcome::Proceed { from_session, from_index, to_session }) => {
            &&& (from is Some || inside)
            &&& sessions_len >= 2
            &&& match from {
                Some(f) => spec_window_spec(f) matches Some(p) && p.0 == from_session@ && p.1
                    == from_index,
                None => from_selection is Some && spec_split(from_selection -> 0, '\t').len() == 2
                    && (spec_window_spec(spec_trim(spec_split(from_selection -> 0, '\t')[1]))
                    matches Some(p) && p.0 == from_session@ && p.1 == from_index),
            }
            &&& (to is Some || to_selection is Some)
            &&& to_session@ == if to is Some {
                to -> 0
            } else {
                to_selection -> 0
            }
        },
    }
}

/// The pre-move decision: validates the context and resolves the source
/// window and target session, reporting missing preconditions as messages.
pub fn handle(
    from: Option<String>,
    to: Option<String>,
    inside: bool,
    sessions_len: usize,
    from_selection: Option<&String>,
    to_selection: Option<&String>,
) -> (r: Result<MoveHandleOutcome, TsmError>)
    ensures
        move_handle_post(
            opt_view(&from),
            opt_view(&to),
            inside,
            sessions_len as int,
            opt_ref_view(from_selection),
            opt_ref_view(to_selection),
            &r,
        ),
{
    if from.is_none() && !inside {
        return Ok(MoveHandleOutcome::NotInside);
    }
    if sessions_len < 2 {
        return Ok(MoveHandleOutcome::NotEnoughSessions);
    }
    let window_address: Option<(String, u32)> = match find_window_to_move(&from, from_selection) {
        Ok(w) => w,
        Err(e) => {
            return Err(e);
        },
    };
    let (from_session, from_index): (String, u32) = match window_address {
        Some(p) => p,
        None => {
            return Ok(MoveHandleOutcome::Cancelled);
        },
    };
    let to_session: String = match find_target_session(&to, to_selection) {
        Some(t) => t,
        None => {
            return Ok(MoveHandleOutcome::NoTarget);
        },
    };
    Ok(MoveHandleOutcome::Proceed { from_session, from_index, to_session })
}

} // verus!
