//! Switching to the previous window, as a free function.
//!
//! Unlike [`crate::cli::last_window::LastWindowCommand::run`], this variant
//! checks the unfiltered inventory for emptiness and narrows to the current
//! session only after the recency sort.

use vstd::prelude::*;

use crate::cli::last_window::opt_addr_view;
use crate::error::TsmError;
use crate::history::{WindowHistory, canon_id, spec_record};
use crate::nav::{NavOutcome, filter_pairs, sort_windows_by_history, spec_annotated,
    spec_filter_pairs, switch_to_window};
use crate::order::sort_desc;
use crate::tmux::{Window, WindowV, wviews};

verus! {

/// The previous-window decision with the inventory checked before any
/// filtering and the current-session filter applied to the sorted list.
pub open spec fn last_window_handle_post(
    scope_current: bool,
    ws: Seq<WindowV>,
    active: Option<(Seq<char>, u32)>,
    now: u64,
    h0: Seq<(Seq<char>, u64)>,
    h1: Seq<(Seq<char>, u64)>,
    r: &Result<NavOutcome, TsmError>,
) -> bool {
    let h_rec = match active {
        Some(a) => spec_record(h0, canon_id(a.0, a.1), now),
        None => h0,
    };
    let sorted = sort_desc(spec_annotated(ws, h_rec));
    let kept = if scope_current {
        spec_filter_pairs(sorted, (active -> 0).0, true)
    } else {
        sorted
    };
    match r {
        Err(TsmError::NotInTmux) => ws.len() > 0 && scope_current && active is None && h1 == h_rec,
        Err(_) => false,
        Ok(outcome) => {
            &&& !(ws.len() > 0 && scope_current && active is None)
            &&& match outcome {
                NavOutcome::NoWindows => ws.len() == 0 && h1 == h0,
                NavOutcome::NoPrevious => ws.len() > 0 && kept.len() < 2 && h1 == h_rec,
                NavOutcome::Switch(w, req) => {
                    &&& ws.len() > 0
                    &&& kept.len() >= 2
                    &&& w@ == kept[1].0
                    &&& h1 == spec_record(
                        h_rec,
                        canon_id(kept[1].0.session_name, kept[1].0.index),
                        now,
                    )
                    &&& req.args.deep_view() == seq![
                        if active is Some {
                            "switch-client"@
                        } else {
                            "attach-session"@
                        },
                        "-t"@,
                        canon_id(kept[1].0.session_name, kept[1].0.index),
                    ]
                },
            }
        },
    }
}

/// Decides the switch target: the window ranked just below the active one.
pub fn handle(
    windows: Vec<Window>,
    active: Option<(String, u32)>,
    current_session: bool,
    now: u64,
    history: &mut WindowHistory,
) -> (r: Result<NavOutcome, TsmError>)
    requires
        old(history).wf(),
    ensures
        last_window_handle_post(
            current_session,
            wviews(windows@),
            opt_addr_view(&active),
            now,
            old(history)@,
            final(history)@,
            &r,
        ),
        final(history).wf(),
        final(history).spec_path() == old(history).spec_path(),
{
    let ghost ws = wviews(windows@);
    let inside = active.is_some();
    if windows.len() == 0 {
        return Ok(NavOutcome::NoWindows);
    }
    match &active {
        Some(a) => {
            history.record_access_at(a.0.as_str(), a.1, now);
        },
        None => {},
    }
    let ghost h_rec = history@;
    let sorted = sort_windows_by_history(windows, history);
    let mut kept: Vec<(Window, u64)> = if current_session {
        match &active {
            Some(a) => filter_pairs(sorted, a.0.as_str(), true),
            None => {
                return Err(TsmError::NotInTmux);
            },
        }
    } else {
        sorted
    };
    if kept.len() >= 2 {
        let pair = kept.remove(1);
        let w = pair.0;
        proof {
            let sorted_spec = sort_desc(spec_annotated(ws, h_rec));
            if current_session {
                assert(w@ == spec_filter_pairs(
                    sorted_spec,
                    (opt_addr_view(&active) -> 0).0,
                    true,
                )[1].0);
            } else {
                assert(w@ == sorted_spec[1].0);
            }
        }
        let req = switch_to_window(&w, history, inside, now);
        Ok(NavOutcome::Switch(w, req))
    } else {
        Ok(NavOutcome::NoPrevious)
    }
}

} // verus!
