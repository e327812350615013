//! The navigation resolver's building blocks: annotating the live inventory
//! with recorded recency, ordering it, and carrying the chosen target.

use vstd::prelude::*;

use crate::history::{WindowHistory, canon_id, spec_lookup, spec_record};
use crate::order::{sort_desc, sorted_desc, with_stamp};
use crate::tmux::{CmdRequest, TmuxClient, Window, WindowV, wviews};

verus! {

/// The recency of one window: its recorded timestamp, or zero if it was
/// never recorded.
pub open spec fn stamp_of(h: Seq<(Seq<char>, u64)>, w: WindowV) -> u64 {
    match spec_lookup(h, canon_id(w.session_name, w.index)) {
        Some(t) => t,
        None => 0,
    }
}

/// Every window paired with its recency.
pub open spec fn spec_annotated(ws: Seq<WindowV>, h: Seq<(Seq<char>, u64)>) -> Seq<(WindowV, u64)> {
    ws.map_values(|w: WindowV| (w, stamp_of(h, w)))
}

/// The views of an annotated window list.
pub open spec fn pviews(s: Seq<(Window, u64)>) -> Seq<(WindowV, u64)> {
    s.map_values(|e: (Window, u64)| (e.0@, e.1))
}

/// The windows of one session (or of every other session), in order.
pub open spec fn spec_filter_session(ws: Seq<WindowV>, session: Seq<char>, keep: bool) -> Seq<
    WindowV,
>
    decreases ws.len(),
{
    if ws.len() == 0 {
        Seq::<WindowV>::empty()
    } else if (ws[0].session_name == session) == keep {
        seq![ws[0]] + spec_filter_session(ws.drop_first(), session, keep)
    } else {
        spec_filter_session(ws.drop_first(), session, keep)
    }
}

/// Keeps the windows of one session (`keep` true) or everything but that
/// session (`keep` false), in inventory order.
#[verifier::loop_isolation(false)]
pub fn filter_session(windows: Vec<Window>, session: &str, keep: bool) -> (r: Vec<Window>)
    ensures
        wviews(r@) == spec_filter_session(wviews(windows@), session@, keep),
{
    let ghost ws0 = wviews(windows@);
    let mut v = windows;
    let mut out: Vec<Window> = Vec::new();
    proof {
        assert(wviews(v@) =~= ws0.skip(0));
        assert(wviews(out@) + spec_filter_session(ws0, session@, keep) =~= spec_filter_session(
            ws0,
            session@,
            keep,
        ));
    }
    while v.len() > 0
        invariant
            v@.len() <= ws0.len(),
            wviews(v@) == ws0.skip(ws0.len() - v@.len()),
            wviews(out@) + spec_filter_session(ws0.skip(ws0.len() - v@.len()), session@, keep)
                == spec_filter_session(ws0, session@, keep),
        decreases v@.len(),
    {
        let ghost done = ws0.len() - v@.len();
        let ghost before = wviews(out@);
        let w = v.remove(0);
        proof {
            assert(w@ == ws0.skip(done)[0]);
            assert(wviews(v@) =~= ws0.skip(done).drop_first());
            assert(ws0.skip(done).drop_first() =~= ws0.skip(done + 1));
        }
        if crate::text::str_eq(w.session_name.as_str(), session) == keep {
            out.push(w);
            proof {
                assert(wviews(out@) =~= before.push(ws0.skip(done)[0]));
                assert(before + (seq![ws0.skip(done)[0]] + spec_filter_session(
                    ws0.skip(done + 1),
                    session@,
                    keep,
                )) =~= wviews(out@) + spec_filter_session(ws0.skip(done + 1), session@, keep));
            }
        }
    }
    proof {
        assert(wviews(v@) =~= Seq::<WindowV>::empty());
        assert(spec_filter_session(Seq::<WindowV>::empty(), session@, keep) =~= Seq::<
            WindowV,
        >::empty());
        assert(wviews(out@) + Seq::<WindowV>::empty() =~= wviews(out@));
    }
    out
}

/// The annotated windows of one session (or of every other session), in
/// order.
pub open spec fn spec_filter_pairs(s: Seq<(WindowV, u64)>, session: Seq<char>, keep: bool) -> Seq<
    (WindowV, u64),
>
    decreases s.len(),
{
    if s.len() == 0 {
        Seq::<(WindowV, u64)>::empty()
    } else if (s[0].0.session_name == session) == keep {
        seq![s[0]] + spec_filter_pairs(s.drop_first(), session, keep)
    } else {
        spec_filter_pairs(s.drop_first(), session, keep)
    }
}

/// Keeps the annotated windows of one session (`keep` true) or everything
/// but that session (`keep` false), preserving order.
#[verifier::loop_isolation(false)]
pub fn filter_pairs(pairs: Vec<(Window, u64)>, session: &str, keep: bool) -> (r: Vec<(Window, u64)>)
    ensures
        pviews(r@) == spec_filter_pairs(pviews(pairs@), session@, keep),
{
    let ghost ps0 = pviews(pairs@);
    let mut v = pairs;
    let mut out: Vec<(Window, u64)> = Vec::new();
    proof {
        assert(pviews(v@) =~= ps0.skip(0));
        assert(pviews(out@) + spec_filter_pairs(ps0, session@, keep) =~= spec_filter_pairs(
            ps0,
            session@,
            keep,
        ));
    }
    while v.len() > 0
        invariant
            v@.len() <= ps0.len(),
            pviews(v@) == ps0.skip(ps0.len() - v@.len()),
            pviews(out@) + spec_filter_pairs(ps0.skip(ps0.len() - v@.len()), session@, keep)
                == spec_filter_pairs(ps0, session@, keep),
        decreases v@.len(),
    {
        let ghost done = ps0.len() - v@.len();
        let ghost before = pviews(out@);
        let p = v.remove(0);
        proof {
            assert((p.0@, p.1) == ps0.skip(done)[0]);
            assert(pviews(v@) =~= ps0.skip(done).drop_first());
            assert(ps0.skip(done).drop_first() =~= ps0.skip(done + 1));
        }
        if crate::text::str_eq(p.0.session_name.as_str(), session) == keep {
            out.push(p);
            proof {
                assert(pviews(out@) =~= before.push(ps0.skip(done)[0]));
                assert(before + (seq![ps0.skip(done)[0]] + spec_filter_pairs(
                    ps0.skip(done + 1),
                    session@,
                    keep,
                )) =~= pviews(out@) + spec_filter_pairs(ps0.skip(done + 1), session@, keep));
            }
        }
    }
    proof {
        assert(pviews(v@) =~= Seq::<(WindowV, u64)>::empty());
        assert(spec_filter_pairs(Seq::<(WindowV, u64)>::empty(), session@, keep) =~= Seq::<
            (WindowV, u64),
        >::empty());
        assert(pviews(out@) + Seq::<(WindowV, u64)>::empty() =~= pviews(out@));
    }
    out
}

/// Sorts the inventory by recorded recency, most recent first; windows with
/// equal recency, including the never-recorded, keep their inventory order.
#[verifier::loop_isolation(false)]
pub fn sort_windows_by_history(windows: Vec<Window>, history: &WindowHistory) -> (r: Vec<
    (Window, u64),
>)
    ensures
        pviews(r@) == sort_desc(spec_annotated(wviews(windows@), history@)),
        sorted_desc(pviews(r@)),
        r@.len() == windows@.len(),
{
    let ghost ws0 = wviews(windows@);
    let ghost h = history@;
    let mut v = windows;
    let mut pairs: Vec<(Window, u64)> = Vec::new();
    proof {
        assert(wviews(v@) =~= ws0.skip(0));
        assert(pviews(pairs@) =~= spec_annotated(ws0.take(0), h));
    }
    while v.len() > 0
        invariant
            v@.len() <= ws0.len(),
            h == history@,
            wviews(v@) == ws0.skip(ws0.len() - v@.len()),
            pviews(pairs@) == spec_annotated(ws0.take(ws0.len() - v@.len()), h),
        decreases v@.len(),
    {
        let ghost done = ws0.len() - v@.len();
        let ghost before = pviews(pairs@);
        let w = v.remove(0);
        proof {
            assert(w@ == ws0.skip(done)[0]);
            assert(ws0.skip(done)[0] == ws0[done]);
            assert(wviews(v@) =~= ws0.skip(done).drop_first());
            assert(ws0.skip(done).drop_first() =~= ws0.skip(done + 1));
        }
        let stamp = match history.get_last_access(w.session_name.as_str(), w.index) {
            Some(t) => t,
            None => 0,
        };
        proof {
            assert(stamp == stamp_of(h, w@));
        }
        pairs.push((w, stamp));
        proof {
            assert(pviews(pairs@) =~= before.push((ws0[done], stamp_of(h, ws0[done]))));
            assert(spec_annotated(ws0.take(done + 1), h) =~= spec_annotated(ws0.take(done), h)
                .push((ws0[done], stamp_of(h, ws0[done]))));
        }
    }
    proof {
        assert(ws0.take(ws0.len() as int) =~= ws0);
    }
    let ghost p = pairs@;
    let sorted = crate::order::sort_desc_by_stamp(pairs);
    proof {
        crate::order::lemma_sort_desc_map(p, |w: Window| w@);
        assert(sort_desc(p).map_values(|e: (Window, u64)| ((|w: Window| w@)(e.0), e.1))
            =~= pviews(sort_desc(p)));
        assert(p.map_values(|e: (Window, u64)| ((|w: Window| w@)(e.0), e.1)) =~= pviews(p));
        let dummy: u64 = 0;
        crate::order::lemma_sort_desc(pviews(p), dummy);
        assert(sorted_desc(pviews(sorted@))) by {
            assert(forall|i: int|
                0 <= i < sorted@.len() ==> (#[trigger] pviews(sorted@)[i]).1 == sorted@[i].1);
        }
    }
    sorted
}

/// Stability: for any inventory and ledger, the windows sharing one recency
/// value, including the never-recorded, keep their relative inventory order
/// through the sort.
pub proof fn lemma_sort_windows_stable(ws: Seq<WindowV>, h: Seq<(Seq<char>, u64)>, t: u64)
    ensures
        with_stamp(sort_desc(spec_annotated(ws, h)), t) == with_stamp(spec_annotated(ws, h), t),
{
    crate::order::lemma_sort_desc(spec_annotated(ws, h), t);
}

/// What a navigation command decided.
#[derive(Debug)]
pub enum NavOutcome {
    /// No window qualified at all.
    NoWindows,
    /// Fewer than two candidates: there is no previous window to go to.
    NoPrevious,
    /// Switch to this window with this driver request, after persisting the
    /// ledger.
    Switch(Window, CmdRequest),
}

impl NavOutcome {
    /// The informational message to show, where no switch happens.
    pub fn message(&self) -> (r: Option<String>)
        ensures
            match self {
                NavOutcome::NoWindows => r is Some && r -> 0@ == "No windows found"@,
                NavOutcome::NoPrevious => r is Some && r -> 0@ == "No previous window found"@,
                NavOutcome::Switch(_, _) => r is None,
            },
    {
        match self {
            NavOutcome::NoWindows => Some("No windows found".to_owned()),
            NavOutcome::NoPrevious => Some("No previous window found".to_owned()),
            NavOutcome::Switch(_, _) => None,
        }
    }
}

/// Records the window as visited now and plans the switch (or, from outside
/// the multiplexer, the attach) to it. The caller persists the ledger before
/// running the request.
pub fn switch_to_window(window: &Window, history: &mut WindowHistory, inside: bool, now: u64) -> (r:
    CmdRequest)
    requires
        old(history).wf(),
    ensures
        final(history)@ == spec_record(
            old(history)@,
            canon_id(window.session_name@, window.index),
            now,
        ),
        final(history).wf(),
        final(history).spec_path() == old(history).spec_path(),
        r.args.deep_view() == if inside {
            seq!["switch-client"@, "-t"@, canon_id(window.session_name@, window.index)]
        } else {
            seq!["attach-session"@, "-t"@, canon_id(window.session_name@, window.index)]
        },
{
    history.record_access_at(window.session_name.as_str(), window.index, now);
    let client = TmuxClient::new();
    if inside {
        client.switch_to_window(window.session_name.as_str(), window.index)
    } else {
        client.attach_to_window(window.session_name.as_str(), window.index)
    }
}

} // verus!
