//! Switching to a session, as a free function.

use vstd::prelude::*;

use crate::cli::switch::{SwitchCommand, SwitchOutcome, switch_post};
use crate::text::{opt_view, opt_ref_view};

verus! {

/// Plans the switch; same decision as [`SwitchCommand::run`].
pub fn handle(name: Option<String>, prompt: String, inside: bool, selection: Option<&String>) -> (r:
    SwitchOutcome)
    ensures
        switch_post(opt_view(&name), inside, opt_ref_view(selection), &r),
{
    let cmd = SwitchCommand { name, prompt };
    cmd.run(inside, selection)
}

} // verus!
