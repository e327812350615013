//! Switching to the most recently visited window of another session.

use vstd::prelude::*;

use crate::history::{WindowHistory, canon_id, spec_record};
use crate::nav::{NavOutcome, filter_session, sort_windows_by_history, spec_annotated,
    spec_filter_session, switch_to_window};
use crate::order::sort_desc;
use crate::tmux::{Window, WindowV, wviews};
use crate::cli::last_window::opt_addr_view;

verus! {

/// Switches to the last active window in a different session.
pub struct LastSessionCommand;

/// The last-session decision: the active window is recorded, every window
/// of the current session is excluded (the whole session, not just the
/// active window), and the top-ranked remainder is the target.
pub open spec fn last_session_post(
    ws: Seq<WindowV>,
    active: Option<(Seq<char>, u32)>,
    now: u64,
    h0: Seq<(Seq<char>, u64)>,
    h1: Seq<(Seq<char>, u64)>,
    r: &NavOutcome,
) -> bool {
    let h_rec = match active {
        Some(a) => spec_record(h0, canon_id(a.0, a.1), now),
        None => h0,
    };
    let filtered = match active {
        Some(a) => spec_filter_session(ws, a.0, false),
        None => ws,
    };
    let sorted = sort_desc(spec_annotated(filtered, h_rec));
    match r {
        NavOutcome::NoWindows => ws.len() == 0 && h1 == h0,
        NavOutcome::NoPrevious => ws.len() > 0 && sorted.len() == 0 && h1 == h_rec,
        NavOutcome::Switch(w, req) => {
            &&& ws.len() > 0
            &&& sorted.len() >= 1
            &&& w@ == sorted[0].0
            &&& h1 == spec_record(
                h_rec,
                canon_id(sorted[0].0.session_name, sorted[0].0.index),
                now,
            )
            &&& req.args.deep_view() == seq![
                if active is Some {
                    "switch-client"@
                } else {
                    "attach-session"@
                },
                "-t"@,
                canon_id(sorted[0].0.session_name, sorted[0].0.index),
            ]
        },
    }
}

impl LastSessionCommand {
    /// Decides the switch target: the most recently accessed window outside
    /// the current session. On a switch the caller persists the ledger, then
    /// runs the request.
    pub fn run(
        &self,
        windows: Vec<Window>,
        active: Option<(String, u32)>,
        now: u64,
        history: &mut WindowHistory,
    ) -> (r: NavOutcome)
        requires
            old(history).wf(),
        ensures
            last_session_post(
                wviews(windows@),
                opt_addr_view(&active),
                now,
                old(history)@,
                final(history)@,
                &r,
            ),
            final(history).wf(),
            final(history).spec_path() == old(history).spec_path(),
    {
        let ghost ws = wviews(windows@);
        let inside = active.is_some();
        if windows.len() == 0 {
            return NavOutcome::NoWindows;
        }
        match &active {
            Some(a) => {
                history.record_access_at(a.0.as_str(), a.1, now);
            },
            None => {},
        }
        let ghost h_rec = history@;
        let filtered: Vec<Window> = match &active {
            Some(a) => filter_session(windows, a.0.as_str(), false),
            None => windows,
        };
        let mut sorted = sort_windows_by_history(filtered, history);
        if sorted.len() >= 1 {
            let pair = sorted.remove(0);
            let w = pair.0;
            proof {
                assert(w@ == sort_desc(spec_annotated(
                    match opt_addr_view(&active) {
                        Some(a) => spec_filter_session(ws, a.0, false),
                        None => ws,
                    },
                    h_rec,
                ))[0].0);
            }
            let req = switch_to_window(&w, history, inside, now);
            NavOutcome::Switch(w, req)
        } else {
            NavOutcome::NoPrevious
        }
    }
}

} // verus!
