//! Switching to a window picked from a recency-ordered list.

use vstd::prelude::*;

use crate::error::TsmError;
use crate::history::{WindowHistory, canon_id, spec_record};
use crate::nav::{pviews, sort_windows_by_history, spec_annotated, switch_to_window};
use crate::order::sort_desc;
use crate::text::{concat_strs, dec_digits, fmt_u64, is_ws_char, spec_split, spec_parse_u64,
    is_u64_string, num_body, dec_val, split_char, parse_u64, push_char};
use crate::tmux::{CmdRequest, Window, WindowV, wviews};
use crate::cli::last_window::opt_addr_view;

verus! {

/// Presents every window, ordered by recency, and switches to the pick.
pub struct SwitchWindowCommand {
    pub prompt: String,
    pub preview: bool,
}

/// The longest whitespace-free prefix.
pub open spec fn token_prefix(s: Seq<char>) -> Seq<char>
    decreases s.len(),
{
    if s.len() > 0 && !is_ws_char(s[0]) {
        seq![s[0]] + token_prefix(s.drop_first())
    } else {
        Seq::<char>::empty()
    }
}

/// The first whitespace-separated token, if any.
pub open spec fn spec_first_token(s: Seq<char>) -> Option<Seq<char>>
    decreases s.len(),
{
    if s.len() == 0 {
        None
    } else if is_ws_char(s[0]) {
        spec_first_token(s.drop_first())
    } else {
        Some(token_prefix(s))
    }
}

/// Takes the first whitespace-separated token.
#[verifier::loop_isolation(false)]
pub fn first_token(s: &str) -> (r: Option<String>)
    ensures
        match r {
            Some(t) => spec_first_token(s@) == Some(t@),
            None => spec_first_token(s@) is None,
        },
{
    let len = s.unicode_len();
    let mut lo: usize = 0;
    proof {
        assert(s@.skip(0) =~= s@);
    }
    while lo < len && crate::text::is_ws(s.get_char(lo))
        invariant
            lo <= len,
            spec_first_token(s@) == spec_first_token(s@.skip(lo as int)),
        decreases len - lo,
    {
        proof {
            let t = s@.skip(lo as int);
            assert(t[0] == s@[lo as int]);
            assert(t.drop_first() =~= s@.skip(lo as int + 1));
        }
        lo = lo + 1;
    }
    if lo == len {
        proof {
            assert(s@.skip(lo as int) =~= Seq::<char>::empty());
        }
        return None;
    }
    let mut hi: usize = lo;
    proof {
        let t = s@.skip(lo as int);
        assert(t[0] == s@[lo as int]);
        assert(spec_first_token(s@) == Some(token_prefix(t)));
        assert(t.take(0) =~= Seq::<char>::empty());
    }
    while hi < len && !crate::text::is_ws(s.get_char(hi))
        invariant
            lo <= hi <= len,
            !is_ws_char(s@[lo as int]),
            forall|k: int| lo <= k < hi ==> !is_ws_char(s@[k]),
        decreases len - hi,
    {
        hi = hi + 1;
    }
    proof {
        lemma_token_prefix_range(s@.skip(lo as int), hi - lo);
        assert(s@.skip(lo as int).take(hi - lo) =~= s@.subrange(lo as int, hi as int));
    }
    Some(s.substring_char(lo, hi).to_owned())
}

/// The token stops exactly at the first whitespace.
proof fn lemma_token_prefix_range(s: Seq<char>, k: int)
    requires
        0 <= k <= s.len(),
        forall|j: int| 0 <= j < k ==> !is_ws_char(s[j]),
        k < s.len() ==> is_ws_char(s[k]),
    ensures
        token_prefix(s) == s.take(k),
    decreases s.len(),
{
    if k == 0 {
        assert(s.take(0) =~= Seq::<char>::empty());
    } else {
        assert(!is_ws_char(s[0]));
        assert(forall|j: int| 0 <= j < k - 1 ==> !is_ws_char(s.drop_first()[j]));
        lemma_token_prefix_range(s.drop_first(), k - 1);
        assert(seq![s[0]] + s.drop_first().take(k - 1) =~= s.take(k));
    }
}

/// The index a picker choice denotes: the second tab field's first token,
/// read as a decimal number that fits the platform's word.
pub open spec fn spec_selection_index(sel: Seq<char>) -> Option<u64> {
    let parts = spec_split(sel, '\t');
    if parts.len() >= 2 {
        match spec_first_token(parts[1]) {
            Some(tok) => if is_u64_string(tok) && dec_val(num_body(tok)) <= usize::MAX as nat {
                Some(dec_val(num_body(tok)) as u64)
            } else {
                None
            },
            None => None,
        }
    } else {
        None
    }
}

/// Reads the picked rank out of the picker's choice.
pub fn parse_selection_index(sel: &str) -> (r: Option<usize>)
    ensures
        match r {
            Some(i) => spec_selection_index(sel@) == Some(i as u64),
            None => spec_selection_index(sel@) is None,
        },
{
    let parts = split_char(sel, '\t');
    if parts.len() < 2 {
        return None;
    }
    proof {
        assert(parts@[1]@ == spec_split(sel@, '\t')[1]);
    }
    match first_token(parts[1].as_str()) {
        Some(tok) => match parse_u64(tok.as_str()) {
            Some(v) => if v <= usize::MAX as u64 {
                Some(v as usize)
            } else {
                None
            },
            None => None,
        },
        None => None,
    }
}

/// One picker line: the pane identifier, the rank, then name, index and
/// session.
pub open spec fn spec_switch_item(w: WindowV, rank: nat) -> Seq<char> {
    w.pane_id + seq!['\t'] + dec_digits(rank) + " -> "@ + w.name + "["@ + dec_digits(w.index as nat)
        + "] -> "@ + w.session_name
}

/// The picker lines for the recency-ordered windows.
#[verifier::loop_isolation(false)]
pub fn switch_picker_items(sorted: &Vec<(Window, u64)>) -> (r: Vec<String>)
    ensures
        r.deep_view() == Seq::new(
            pviews(sorted@).len(),
            |i: int| spec_switch_item(pviews(sorted@)[i].0, i as nat),
        ),
{
    let ghost target = Seq::new(
        pviews(sorted@).len(),
        |i: int| spec_switch_item(pviews(sorted@)[i].0, i as nat),
    );
    let mut out: Vec<String> = Vec::new();
    let mut i: usize = 0;
    proof {
        assert(out.deep_view() =~~= target.take(0));
    }
    while i < sorted.len()
        invariant
            i <= sorted@.len(),
            target == Seq::new(
                pviews(sorted@).len(),
                |k: int| spec_switch_item(pviews(sorted@)[k].0, k as nat),
            ),
            target.len() == sorted@.len(),
            out.deep_view() == target.take(i as int),
        decreases sorted@.len() - i,
    {
        let ghost before = out.deep_view();
        let w = &sorted[i].0;
        let mut line = w.pane_id.clone();
        push_char(&mut line, '\t');
        line.append(fmt_u64(i as u64).as_str());
        line.append(" -> ");
        line.append(w.name.as_str());
        line.append("[");
        line.append(fmt_u64(w.index as u64).as_str());
        line.append("] -> ");
        line.append(w.session_name.as_str());
        proof {
            assert(line@ =~= spec_switch_item(pviews(sorted@)[i as int].0, i as nat));
        }
        out.push(line);
        proof {
            assert(out.deep_view() =~~= before.push(target[i as int]));
            assert(target.take(i + 1) =~= target.take(i as int).push(target[i as int]));
        }
        i = i + 1;
    }
    proof {
        assert(target.take(target.len() as int) =~= target);
    }
    out
}

/// What the interactive window switch decides.
#[derive(Debug)]
pub enum SwitchWindowOutcome {
    /// The user cancelled the picker: a clean no-op.
    Cancelled,
    /// Switch to this window with this request, after persisting the ledger.
    Switch(Window, CmdRequest),
}

/// The interactive switch decision: the active window is recorded, the
/// inventory ordered by recency, and the picked rank resolved against that
/// order; an unreadable or out-of-range pick is an error.
pub open spec fn switch_window_post(
    ws: Seq<WindowV>,
    active: Option<(Seq<char>, u32)>,
    now: u64,
    selection: Option<Seq<char>>,
    h0: Seq<(Seq<char>, u64)>,
    h1: Seq<(Seq<char>, u64)>,
    r: &Result<SwitchWindowOutcome, TsmError>,
) -> bool {
    let h_rec = match active {
        Some(a) => spec_record(h0, canon_id(a.0, a.1), now),
        None => h0,
    };
    let sorted = sort_desc(spec_annotated(ws, h_rec));
    match r {
        Err(TsmError::InvalidArgument(m)) => {
            &&& selection is Some
            &&& h1 == h_rec
            &&& match spec_selection_index(selection -> 0) {
                None => m@ == "Failed to parse fzf selection for window index"@,
                Some(ix) => ix >= sorted.len() && m@ == "Selected window index "@ + dec_digits(
                    ix as nat,
                ) + " not found"@,
            }
        },
        Err(_) => false,
        Ok(SwitchWindowOutcome::Cancelled) => selection is None && h1 == h_rec,
        Ok(SwitchWindowOutcome::Switch(w, req)) => {
            &&& selection is Some
            &&& spec_selection_index(selection -> 0) is Some
            &&& (spec_selection_index(selection -> 0) -> 0) < sorted.len()
            &&& w@ == sorted[spec_selection_index(selection -> 0) -> 0 as int].0
            &&& h1 == spec_record(h_rec, canon_id(w@.session_name, w@.index), now)
            &&& req.args.deep_view() == seq![
                if active is Some {
                    "switch-client"@
                } else {
                    "attach-session"@
                },
                "-t"@,
                canon_id(w@.session_name, w@.index),
            ]
        },
    }
}

impl SwitchWindowCommand {
    /// Decides the switch from the inventory, the active window, the clock
    /// and the picker's choice. On a switch the caller persists the ledger,
    /// then runs the request.
    pub fn run(
        &self,
        windows: Vec<Window>,
        active: Option<(String, u32)>,
        now: u64,
        history: &mut WindowHistory,
        selection: Option<&String>,
    ) -> (r: Result<SwitchWindowOutcome, TsmError>)
        requires
            old(history).wf(),
        ensures
            switch_window_post(
                wviews(windows@),
                opt_addr_view(&active),
                now,
                crate::text::opt_ref_view(selection),
                old(history)@,
                final(history)@,
                &r,
            ),
            final(history).wf(),
            final(history).spec_path() == old(history).spec_path(),
    {
        let ghost ws = wviews(windows@);
        let inside = active.is_some();
        match &active {
            Some(a) => {
                history.record_access_at(a.0.as_str(), a.1, now);
            },
            None => {},
        }
        let ghost h_rec = history@;
        let mut sorted = sort_windows_by_history(windows, history);
        let sel: &String = match selection {
            Some(s) => s,
            None => {
                return Ok(SwitchWindowOutcome::Cancelled);
            },
        };
        let idx: usize = match parse_selection_index(sel.as_str()) {
            Some(i) => i,
            None => {
                return Err(
                    TsmError::InvalidArgument(
                        "Failed to parse fzf selection for window index".to_owned(),
                    ),
                );
            },
        };
        if idx >= sorted.len() {
            let mut m = concat_strs("Selected window index ", fmt_u64(idx as u64).as_str());
            m.append(" not found");
            return Err(TsmError::InvalidArgument(m));
        }
        let pair = sorted.remove(idx);
        let w = pair.0;
        proof {
            assert(w@ == sort_desc(spec_annotated(ws, h_rec))[idx as int].0);
        }
        let req = switch_to_window(&w, history, inside, now);
        Ok(SwitchWindowOutcome::Switch(w, req))
    }
}

} // verus!
