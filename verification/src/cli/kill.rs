//! Killing sessions.

use vstd::prelude::*;

use crate::text::{concat_strs, opt_view, opt_ref_view};
use crate::tmux::{CmdRequest, KillPlan, TmuxClient, spec_first_other};

verus! {

/// Kills one session by name or pick, or the whole server.
pub struct KillCommand {
    pub session: Option<String>,
    pub all: bool,
    pub prompt: String,
    pub quiet: bool,
}

/// What killing decides.
#[derive(Debug)]
pub enum KillOutcome {
    /// Shut the whole server down.
    KillAll(CmdRequest),
    /// The user cancelled the picker: a clean no-op.
    Cancelled,
    /// Run the plan, then show the message if there is one.
    Kill(KillPlan, Option<String>),
}

/// The kill decision: with `all`, the server goes down; otherwise the named
/// or picked session is killed, after switching away from it when the
/// client sits inside it, and a success message is shown unless quieted.
pub open spec fn kill_post(
    session: Option<Seq<char>>,
    all: bool,
    quiet: bool,
    inside: bool,
    current: Option<Seq<char>>,
    sessions: Seq<(Seq<char>, u64)>,
    selection: Option<Seq<char>>,
    r: &KillOutcome,
) -> bool {
    match r {
        KillOutcome::KillAll(req) => all && req.args.deep_view() == seq!["kill-server"@],
        KillOutcome::Cancelled => !all && session is None && selection is None,
        KillOutcome::Kill(plan, message) => {
            let target = if session is Some {
                session -> 0
            } else {
                selection -> 0
            };
            let others = spec_first_other(sessions, target);
            &&& !all
            &&& (session is Some || selection is Some)
            &&& plan.kill.args.deep_view() == seq!["kill-session"@, "-t"@, target]
            &&& match plan.pre_switch {
                Some(req) => inside && current is Some && current -> 0 == target && others is Some
                    && req.args.deep_view() == seq!["switch-client"@, "-t"@, others -> 0],
                None => !(inside && current is Some && current -> 0 == target && others is Some),
            }
            &&& match message {
                Some(m) => !quiet && m@ == "Killed session: "@ + target,
                None => quiet,
            }
        },
    }
}

impl KillCommand {
    /// Plans the kill; `current` is the attached session, `sessions` the
    /// list most recently attached first, `selection` what the picker
    /// returned when it was needed.
    pub fn run(
        &self,
        inside: bool,
        current: Option<&String>,
        sessions: &Vec<(String, u64)>,
        selection: Option<&String>,
    ) -> (r: KillOutcome)
        ensures
            kill_post(
                opt_view(&self.session),
                self.all,
                self.quiet,
                inside,
                opt_ref_view(current),
                sessions@.map_values(|e: (String, u64)| (e.0@, e.1)),
                opt_ref_view(selection),
                &r,
            ),
    {
        let client = TmuxClient::new();
        if self.all {
            return KillOutcome::KillAll(client.kill_all_sessions());
        }
        let target: &String = match &self.session {
            Some(n) => n,
            None => match selection {
                Some(s) => s,
                None => {
                    return KillOutcome::Cancelled;
                },
            },
        };
        let plan = client.kill_session(target.as_str(), inside, current, sessions);
        let message = if self.quiet {
            None
        } else {
            Some(concat_strs("Killed session: ", target.as_str()))
        };
        KillOutcome::Kill(plan, message)
    }
}

} // verus!
