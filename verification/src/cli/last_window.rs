//! Switching to the previous window: the one visited immediately before the
//! window that is active now.

use vstd::prelude::*;

use crate::error::TsmError;
use crate::history::{WindowHistory, canon_id, spec_record};
use crate::nav::{NavOutcome, filter_session, sort_windows_by_history, spec_annotated,
    spec_filter_session, switch_to_window};
use crate::order::sort_desc;
use crate::tmux::{Window, WindowV, wviews};

verus! {

/// Switches to the second most recently accessed window, optionally within
/// the current session only.
pub struct LastWindowCommand {
    pub current_session: bool,
}

/// The view of the active window address, if any.
pub open spec fn opt_addr_view(active: &Option<(String, u32)>) -> Option<(Seq<char>, u32)> {
    match active {
        Some(a) => Some((a.0@, a.1)),
        None => None,
    }
}

/// The previous-window decision: the active window is recorded first, so
/// after the recency sort it ranks first and the entry at position 1 is the
/// window visited just before it. Fewer than two candidates mean there is
/// no previous window; restricting to the current session needs one.
pub open spec fn last_window_post(
    scope_current: bool,
    ws: Seq<WindowV>,
    active: Option<(Seq<char>, u32)>,
    now: u64,
    h0: Seq<(Seq<char>, u64)>,
    h1: Seq<(Seq<char>, u64)>,
    r: &Result<NavOutcome, TsmError>,
) -> bool {
    match r {
        Err(TsmError::NotInTmux) => scope_current && active is None && h1 == h0,
        Err(_) => false,
        Ok(outcome) => {
            let filtered = if scope_current {
                spec_filter_session(ws, (active -> 0).0, true)
            } else {
                ws
            };
            let h_rec = match active {
                Some(a) => spec_record(h0, canon_id(a.0, a.1), now),
                None => h0,
            };
            let sorted = sort_desc(spec_annotated(filtered, h_rec));
            &&& !(scope_current && active is None)
            &&& match outcome {
                NavOutcome::NoWindows => filtered.len() == 0 && h1 == h0,
                NavOutcome::NoPrevious => filtered.len() > 0 && sorted.len() < 2 && h1 == h_rec,
                NavOutcome::Switch(w, req) => {
                    &&& sorted.len() >= 2
                    &&& w@ == sorted[1].0
                    &&& h1 == spec_record(
                        h_rec,
                        canon_id(sorted[1].0.session_name, sorted[1].0.index),
                        now,
                    )
                    &&& req.args.deep_view() == seq![
                        if active is Some {
                            "switch-client"@
                        } else {
                            "attach-session"@
                        },
                        "-t"@,
                        canon_id(sorted[1].0.session_name, sorted[1].0.index),
                    ]
                },
            }
        },
    }
}

impl LastWindowCommand {
    /// Decides the switch target from the live inventory, the active window
    /// (when inside the multiplexer) and the clock, recording accesses as it
    /// goes. On a switch the caller persists the ledger, then runs the
    /// request.
    pub fn run(
        &self,
        windows: Vec<Window>,
        active: Option<(String, u32)>,
        now: u64,
        history: &mut WindowHistory,
    ) -> (r: Result<NavOutcome, TsmError>)
        requires
            old(history).wf(),
        ensures
            last_window_post(
                self.current_session,
                wviews(windows@),
                opt_addr_view(&active),
                now,
                old(history)@,
                final(history)@,
                &r,
            ),
            final(history).wf(),
            final(history).spec_path() == old(history).spec_path(),
    {
        let ghost ws = wviews(windows@);
        let inside = active.is_some();
        let filtered: Vec<Window> = if self.current_session {
            match &active {
                Some(a) => filter_session(windows, a.0.as_str(), true),
                None => {
                    return Err(TsmError::NotInTmux);
                },
            }
        } else {
            windows
        };
        if filtered.len() == 0 {
            return Ok(NavOutcome::NoWindows);
        }
        match &active {
            Some(a) => {
                history.record_access_at(a.0.as_str(), a.1, now);
            },
            None => {},
        }
        let ghost h_rec = history@;
        let mut sorted = sort_windows_by_history(filtered, history);
        if sorted.len() >= 2 {
            let pair = sorted.remove(1);
            let w = pair.0;
            proof {
                assert(w@ == sort_desc(spec_annotated(
                    if self.current_session {
                        spec_filter_session(ws, (opt_addr_view(&active) -> 0).0, true)
                    } else {
                        ws
                    },
                    h_rec,
                ))[1].0);
            }
            let req = switch_to_window(&w, history, inside, now);
            Ok(NavOutcome::Switch(w, req))
        } else {
            Ok(NavOutcome::NoPrevious)
        }
    }
}

} // verus!
