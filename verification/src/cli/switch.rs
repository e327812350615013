//! Switching to a session by name or interactive choice.

use vstd::prelude::*;

use crate::text::{opt_view, opt_ref_view};
use crate::tmux::{CmdRequest, TmuxClient};

verus! {

/// Switches to a session, asking the picker when no name was given.
pub struct SwitchCommand {
    pub name: Option<String>,
    pub prompt: String,
}

/// What switching decides.
#[derive(Debug)]
pub enum SwitchOutcome {
    /// The user cancelled the picker: a clean no-op.
    Cancelled,
    /// Enter this session.
    Go(CmdRequest),
}

/// The switch decision: the named or picked session is entered, by a switch
/// from inside the multiplexer or an attach from outside; with neither a
/// name nor a pick, nothing happens.
pub open spec fn switch_post(
    name: Option<Seq<char>>,
    inside: bool,
    selection: Option<Seq<char>>,
    r: &SwitchOutcome,
) -> bool {
    match r {
        SwitchOutcome::Cancelled => name is None && selection is None,
        SwitchOutcome::Go(req) => {
            &&& (name is Some || selection is Some)
            &&& req.args.deep_view() == seq![
                if inside {
                    "switch-client"@
                } else {
                    "attach-session"@
                },
                "-t"@,
                if name is Some {
                    name -> 0
                } else {
                    selection -> 0
                },
            ]
        },
    }
}

impl SwitchCommand {
    /// Plans the switch; `selection` is what the picker returned when it was
    /// needed.
    pub fn run(&self, inside: bool, selection: Option<&String>) -> (r: SwitchOutcome)
        ensures
            switch_post(opt_view(&self.name), inside, opt_ref_view(selection), &r),
    {
        let client = TmuxClient::new();
        let target: &String = match &self.name {
            Some(n) => n,
            None => match selection {
                Some(s) => s,
                None => {
                    return SwitchOutcome::Cancelled;
                },
            },
        };
        if inside {
            SwitchOutcome::Go(client.switch_session(target.as_str()))
        } else {
            SwitchOutcome::Go(client.attach_session(target.as_str()))
        }
    }
}

} // verus!
