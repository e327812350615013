//! Killing sessions, as a free function.

use vstd::prelude::*;

use crate::cli::kill::{KillCommand, KillOutcome, kill_post};
use crate::text::{opt_view, opt_ref_view};

verus! {

/// Plans killing one session (or every session); same decision as
/// [`KillCommand::run`].
pub fn handle(
    session: Option<String>,
    prompt: String,
    all: bool,
    quiet: bool,
    inside: bool,
    current: Option<&String>,
    sessions: &Vec<(String, u64)>,
    selection: Option<&String>,
) -> (r: KillOutcome)
    ensures
        kill_post(
            opt_view(&session),
            all,
            quiet,
            inside,
            opt_ref_view(current),
            sessions@.map_values(|e: (String, u64)| (e.0@, e.1)),
            opt_ref_view(selection),
            &r,
        ),
{
    let cmd = KillCommand { session, all, prompt, quiet };
    cmd.run(inside, current, sessions, selection)
}

} // verus!
