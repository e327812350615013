//! Recording the current window access, as a free function.

use vstd::prelude::*;

use crate::cli::record::{RecordCommand, record_post};
use crate::error::TsmError;
use crate::history::WindowHistory;

verus! {

/// Stamps the active window, if there is one; same decision as
/// [`RecordCommand::run`].
pub fn handle(active: Option<&(String, u32)>, now: u64, history: &mut WindowHistory) -> (r: Result<
    (),
    TsmError,
>)
    requires
        old(history).wf(),
    ensures
        record_post(
            match active {
                Some(a) => Some((a.0@, a.1)),
                None => None,
            },
            now,
            old(history)@,
            final(history)@,
            &r,
        ),
        final(history).wf(),
        final(history).spec_path() == old(history).spec_path(),
{
    let cmd = RecordCommand;
    cmd.run(active, now, history)
}

} // verus!
