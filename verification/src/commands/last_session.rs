//! Switching to the last window of another session, as a free function.

use vstd::prelude::*;

use crate::cli::last_session::{LastSessionCommand, last_session_post};
use crate::cli::last_window::opt_addr_view;
use crate::history::WindowHistory;
use crate::nav::NavOutcome;
use crate::tmux::{Window, wviews};

verus! {

/// Decides the switch target; same decision as [`LastSessionCommand::run`].
pub fn handle(
    windows: Vec<Window>,
    active: Option<(String, u32)>,
    now: u64,
    history: &mut WindowHistory,
) -> (r: NavOutcome)
    requires
        old(history).wf(),
    ensures
        last_session_post(
            wviews(windows@),
            opt_addr_view(&active),
            now,
            old(history)@,
            final(history)@,
            &r,
        ),
        final(history).wf(),
        final(history).spec_path() == old(history).spec_path(),
{
    let cmd = LastSessionCommand;
    cmd.run(windows, active, now, history)
}

} // verus!
