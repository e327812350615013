//! Renaming a session.

use vstd::prelude::*;

use crate::error::TsmError;
use crate::text::{opt_view, opt_ref_view};
use crate::tmux::{CmdRequest, TmuxClient};

verus! {

/// Renames a session; without an explicit current name, the active one.
pub struct RenameCommand {
    pub current_name: Option<String>,
    pub new_name: String,
}

/// What renaming decides: the driver request naming the session to rename,
/// or the failure when no session can be named.
pub open spec fn rename_post(
    current_name: Option<Seq<char>>,
    new_name: Seq<char>,
    active: Option<Seq<char>>,
    r: &Result<CmdRequest, TsmError>,
) -> bool {
    match r {
        Ok(req) => {
            &&& (current_name is Some || active is Some)
            &&& req.args.deep_view() == seq![
                "rename-session"@,
                "-t"@,
                if current_name is Some {
                    current_name -> 0
                } else {
                    active -> 0
                },
                new_name,
            ]
        },
        Err(TsmError::NotInTmux) => current_name is None && active is None,
        Err(_) => false,
    }
}

impl RenameCommand {
    /// Plans the rename; `active` is the session the client is attached to,
    /// if any.
    pub fn run(&self, active: Option<&String>) -> (r: Result<CmdRequest, TsmError>)
        ensures
            rename_post(opt_view(&self.current_name), self.new_name@, opt_ref_view(active), &r),
    {
        let client = TmuxClient::new();
        match &self.current_name {
            Some(n) => client.rename_session(Some(n.as_str()), self.new_name.as_str(), active),
            None => client.rename_session(None, self.new_name.as_str(), active),
        }
    }
}

} // verus!
