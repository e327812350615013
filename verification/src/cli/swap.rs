//! Swapping two windows within the current session.

use vstd::prelude::*;

use crate::error::TsmError;
use crate::history::{WindowHistory, canon_id, spec_record};
use crate::text::{concat_strs, dec_digits, fmt_u64};
use crate::tmux::{CmdRequest, TmuxClient, Window, WindowV, wviews};
use crate::cli::last_window::opt_addr_view;

verus! {

/// Swaps the source window (by default the current one) with the target
/// window; both must exist within the current session.
pub struct SwapWindowCommand {
    pub source: Option<u32>,
    pub target: u32,
    pub quiet: bool,
}

/// The indices of the session's windows, in inventory order.
pub open spec fn spec_session_indices(ws: Seq<WindowV>, session: Seq<char>) -> Seq<u32>
    decreases ws.len(),
{
    if ws.len() == 0 {
        Seq::<u32>::empty()
    } else if ws[0].session_name == session {
        seq![ws[0].index] + spec_session_indices(ws.drop_first(), session)
    } else {
        spec_session_indices(ws.drop_first(), session)
    }
}

/// Collects the indices of the session's windows.
#[verifier::loop_isolation(false)]
pub fn session_window_indices(windows: &Vec<Window>, session: &str) -> (r: Vec<u32>)
    ensures
        r@ == spec_session_indices(wviews(windows@), session@),
{
    let ghost ws = wviews(windows@);
    let mut out: Vec<u32> = Vec::new();
    let mut i: usize = 0;
    proof {
        assert(ws.skip(0) =~= ws);
        assert(out@ + spec_session_indices(ws, session@) =~= spec_session_indices(ws, session@));
    }
    while i < windows.len()
        invariant
            i <= windows@.len(),
            ws == wviews(windows@),
            ws.len() == windows@.len(),
            out@ + spec_session_indices(ws.skip(i as int), session@) == spec_session_indices(
                ws,
                session@,
            ),
        decreases windows@.len() - i,
    {
        let ghost before = out@;
        proof {
            assert(ws.skip(i as int)[0] == ws[i as int]);
            assert(ws.skip(i as int).drop_first() =~= ws.skip(i as int + 1));
        }
        if crate::text::str_eq(windows[i].session_name.as_str(), session) {
            out.push(windows[i].index);
            proof {
                assert(before + (seq![ws[i as int].index] + spec_session_indices(
                    ws.skip(i as int + 1),
                    session@,
                )) =~= out@ + spec_session_indices(ws.skip(i as int + 1), session@));
            }
        }
        i = i + 1;
    }
    proof {
        assert(ws.skip(ws.len() as int) =~= Seq::<WindowV>::empty());
        assert(spec_session_indices(Seq::<WindowV>::empty(), session@) =~= Seq::<u32>::empty());
        assert(out@ + Seq::<u32>::empty() =~= out@);
    }
    out
}

/// Whether the list holds the index.
#[verifier::loop_isolation(false)]
fn contains_u32(v: &Vec<u32>, x: u32) -> (r: bool)
    ensures
        r == v@.contains(x),
{
    let mut i: usize = 0;
    while i < v.len()
        invariant
            i <= v@.len(),
            forall|k: int| 0 <= k < i ==> v@[k] != x,
        decreases v@.len() - i,
    {
        if v[i] == x {
            return true;
        }
        i = i + 1;
    }
    false
}

/// What swapping decides.
#[derive(Debug)]
pub enum SwapOutcome {
    /// Source and target are the same: a no-op with a message.
    SameIndex(String),
    /// The session has fewer than two windows.
    NotEnoughWindows(String),
    /// The source or target index is not in the session.
    MissingWindow(String),
    /// Run the swap; when the current window moved, follow it and persist
    /// the ledger; then show the message, if any.
    Swap { swap: CmdRequest, follow: Option<CmdRequest>, message: Option<String> },
}

/// The swap decision: inside the multiplexer only; source defaults to the
/// current window; equal indices are an informational no-op; both indices
/// must exist among at least two windows of the current session; when the
/// current window itself is swapped away, the client follows it.
pub open spec fn swap_post(
    source_opt: Option<u32>,
    target: u32,
    quiet: bool,
    inside: bool,
    active: Option<(Seq<char>, u32)>,
    ws: Seq<WindowV>,
    now: u64,
    h0: Seq<(Seq<char>, u64)>,
    h1: Seq<(Seq<char>, u64)>,
    r: &Result<SwapOutcome, TsmError>,
) -> bool {
    match r {
        Err(TsmError::NotInTmux) => !inside && h1 == h0,
        Err(TsmError::TmuxCommand(m)) => inside && active is None && m@
            == "Failed to parse current window"@ && h1 == h0,
        Err(_) => false,
        Ok(outcome) => {
            let session = (active -> 0).0;
            let current_index = (active -> 0).1;
            let src = if source_opt is Some {
                source_opt -> 0
            } else {
                current_index
            };
            let idxs = spec_session_indices(ws, session);
            &&& inside
            &&& active is Some
            &&& match outcome {
                SwapOutcome::SameIndex(m) => src == target && m@
                    == "Source and target window indices are the same"@ && h1 == h0,
                SwapOutcome::NotEnoughWindows(m) => src != target && idxs.len() < 2 && m@
                    == "Not enough windows in the current session to perform swap."@ && h1 == h0,
                SwapOutcome::MissingWindow(m) => {
                    &&& src != target
                    &&& idxs.len() >= 2
                    &&& if !idxs.contains(src) {
                        m@ == "Window "@ + dec_digits(src as nat)
                            + " not found in current session"@
                    } else {
                        !idxs.contains(target) && m@ == "Window "@ + dec_digits(target as nat)
                            + " not found in current session"@
                    }
                    &&& h1 == h0
                },
                SwapOutcome::Swap { swap, follow, message } => {
                    &&& src != target
                    &&& idxs.len() >= 2
                    &&& idxs.contains(src)
                    &&& idxs.contains(target)
                    &&& swap.args.deep_view() == seq![
                        "swap-window"@,
                        "-s"@,
                        dec_digits(src as nat),
                        "-t"@,
                        dec_digits(target as nat),
                    ]
                    &&& match follow {
                        Some(req) => src == current_index && req.args.deep_view() == seq![
                            "switch-client"@,
                            "-t"@,
                            canon_id(session, target),
                        ],
                        None => src != current_index,
                    }
                    &&& h1 == if src == current_index {
                        spec_record(h0, canon_id(session, target), now)
                    } else {
                        h0
                    }
                    &&& match message {
                        Some(m) => !quiet && m@ == "Swapped windows "@ + dec_digits(src as nat)
                            + " and "@ + dec_digits(target as nat),
                        None => quiet,
                    }
                },
            }
        },
    }
}

impl SwapWindowCommand {
    /// Decides the swap from the live inventory and the active window. When
    /// the outcome carries a follow request, the caller runs it and then
    /// persists the ledger.
    pub fn run(
        &self,
        inside: bool,
        active: Option<(String, u32)>,
        windows: &Vec<Window>,
        now: u64,
        history: &mut WindowHistory,
    ) -> (r: Result<SwapOutcome, TsmError>)
        requires
            old(history).wf(),
        ensures
            swap_post(
                self.source,
                self.target,
                self.quiet,
                inside,
                opt_addr_view(&active),
                wviews(windows@),
                now,
                old(history)@,
                final(history)@,
                &r,
            ),
            final(history).wf(),
            final(history).spec_path() == old(history).spec_path(),
    {
        if !inside {
            return Err(TsmError::NotInTmux);
        }
        let (session, current_index): (String, u32) = match active {
            Some(a) => a,
            None => {
                return Err(TsmError::TmuxCommand("Failed to parse current window".to_owned()));
            },
        };
        let source_index: u32 = match self.source {
            Some(ix) => ix,
            None => current_index,
        };
        if source_index == self.target {
            return Ok(
                SwapOutcome::SameIndex("Source and target window indices are the same".to_owned()),
            );
        }
        let idxs = session_window_indices(windows, session.as_str());
        if idxs.len() < 2 {
            return Ok(
                SwapOutcome::NotEnoughWindows(
                    "Not enough windows in the current session to perform swap.".to_owned(),
                ),
            );
        }
        if !contains_u32(&idxs, source_index) {
            let mut m = concat_strs("Window ", fmt_u64(source_index as u64).as_str());
            m.append(" not found in current session");
            return Ok(SwapOutcome::MissingWindow(m));
        }
        if !contains_u32(&idxs, self.target) {
            let mut m = concat_strs("Window ", fmt_u64(self.target as u64).as_str());
            m.append(" not found in current session");
            return Ok(SwapOutcome::MissingWindow(m));
        }
        let client = TmuxClient::new();
        let swap = client.swap_windows(source_index, self.target);
        let follow: Option<CmdRequest> = if source_index == current_index {
            history.record_access_at(session.as_str(), self.target, now);
            Some(client.switch_to_window(session.as_str(), self.target))
        } else {
            None
        };
        let message = if self.quiet {
            None
        } else {
            let mut m = concat_strs("Swapped windows ", fmt_u64(source_index as u64).as_str());
            m.append(" and ");
            m.append(fmt_u64(self.target as u64).as_str());
            Some(m)
        };
        Ok(SwapOutcome::Swap { swap, follow, message })
    }
}

} // verus!
