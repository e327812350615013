//! Recording the current window's access in the ledger.

use vstd::prelude::*;

use crate::error::TsmError;
use crate::history::{WindowHistory, canon_id, spec_record};

verus! {

/// Records the current window access in the ledger; used from hooks that
/// fire on every window switch.
pub struct RecordCommand;

/// What recording decides: outside the multiplexer nothing changes, inside
/// the active window is stamped with the clock.
pub open spec fn record_post(
    active: Option<(Seq<char>, u32)>,
    now: u64,
    h0: Seq<(Seq<char>, u64)>,
    h1: Seq<(Seq<char>, u64)>,
    r: &Result<(), TsmError>,
) -> bool {
    &&& r is Ok
    &&& h1 == match active {
        Some(a) => spec_record(h0, canon_id(a.0, a.1), now),
        None => h0,
    }
}

impl RecordCommand {
    /// Stamps the active window, if there is one, and reports success.
    /// The caller persists the ledger afterwards.
    pub fn run(&self, active: Option<&(String, u32)>, now: u64, history: &mut WindowHistory) -> (r:
        Result<(), TsmError>)
        requires
            old(history).wf(),
        ensures
            record_post(
                match active {
                    Some(a) => Some((a.0@, a.1)),
                    None => None,
                },
                now,
                old(history)@,
                final(history)@,
                &r,
            ),
            final(history).wf(),
            final(history).spec_path() == old(history).spec_path(),
    {
        match active {
            Some(a) => {
                history.record_access_at(a.0.as_str(), a.1, now);
            },
            None => {},
        }
        Ok(())
    }
}

} // verus!
