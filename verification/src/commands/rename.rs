//! Renaming a session, as a free function.

use vstd::prelude::*;

use crate::cli::rename::{RenameCommand, rename_post};
use crate::error::TsmError;
use crate::text::{opt_view, opt_ref_view};
use crate::tmux::CmdRequest;

verus! {

/// Plans the rename; same decision as [`RenameCommand::run`].
pub fn handle(current_name: Option<String>, new_name: String, active: Option<&String>) -> (r:
    Result<CmdRequest, TsmError>)
    ensures
        rename_post(opt_view(&current_name), new_name@, opt_ref_view(active), &r),
{
    let cmd = RenameCommand { current_name, new_name };
    cmd.run(active)
}

} // verus!
