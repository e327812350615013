//! Swapping two windows, as a free function.

use vstd::prelude::*;

use crate::cli::last_window::opt_addr_view;
use crate::cli::swap::{SwapOutcome, SwapWindowCommand, swap_post};
use crate::error::TsmError;
use crate::history::WindowHistory;
use crate::tmux::{Window, wviews};

verus! {

/// Decides the swap; same decision as [`SwapWindowCommand::run`].
pub fn handle(
    source: Option<u32>,
    target: u32,
    quiet: bool,
    inside: bool,
    active: Option<(String, u32)>,
    windows: &Vec<Window>,
    now: u64,
    history: &mut WindowHistory,
) -> (r: Result<SwapOutcome, TsmError>)
    requires
        old(history).wf(),
    ensures
        swap_post(
            source,
            target,
            quiet,
            inside,
            opt_addr_view(&active),
            wviews(windows@),
            now,
            old(history)@,
            final(history)@,
            &r,
        ),
        final(history).wf(),
        final(history).spec_path() == old(history).spec_path(),
{
    let cmd = SwapWindowCommand { source, target, quiet };
    cmd.run(inside, active, windows, now, history)
}

} // verus!
