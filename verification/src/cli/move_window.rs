//! Moving a window from one session to another.

use vstd::prelude::*;

use crate::error::TsmError;
use crate::history::canon_id;
use crate::text::{concat_strs, opt_view, opt_ref_view, spec_split, spec_trim, spec_parse_u32,
    split_char, parse_u32, trim_ws};
use crate::tmux::{Window, WindowV};
use crate::nav::pviews;

verus! {

/// Moves a window (picked or given as `session:index`) to another session.
pub struct MoveWindowCommand {
    pub from: Option<String>,
    pub to: Option<String>,
    pub quiet: bool,
}

/// What parsing a `session:index` address yields: exactly two non-empty
/// colon-split fields, the second a decimal index (an empty second field
/// never parses as one).
pub open spec fn spec_window_spec(s: Seq<char>) -> Option<(Seq<char>, u32)> {
    let parts = spec_split(s, ':');
    if parts.len() == 2 && parts[0].len() > 0 && spec_parse_u32(parts[1]) is Some {
        Some((parts[0], spec_parse_u32(parts[1]) -> 0))
    } else {
        None
    }
}

/// Parses a window address of the form `session:index`; an empty session
/// name is a syntax error.
pub fn parse_window_spec(spec: &str) -> (r: Result<(String, u32), TsmError>)
    ensures
        match r {
            Ok(p) => spec_window_spec(spec@) == Some((p.0@, p.1)),
            Err(TsmError::InvalidArgument(m)) => {
                &&& spec_window_spec(spec@) is None
                &&& if spec_split(spec@, ':').len() != 2 || spec_split(spec@, ':')[0].len() == 0 {
                    m@ == "Invalid format '"@ + spec@ + "'. Use 'session:index'"@
                } else {
                    m@ == "Invalid window index in '"@ + spec@ + "'"@
                }
            },
            Err(_) => false,
        },
{
    let parts = split_char(spec, ':');
    if parts.len() != 2 || parts[0].as_str().is_empty() {
        proof {
            if parts@.len() == 2 {
                assert(parts@[0]@ == spec_split(spec@, ':')[0]);
            }
        }
        let mut m = concat_strs("Invalid format '", spec);
        m.append("'. Use 'session:index'");
        return Err(TsmError::InvalidArgument(m));
    }
    proof {
        assert(parts@[0]@ == spec_split(spec@, ':')[0]);
        assert(parts@[1]@ == spec_split(spec@, ':')[1]);
    }
    match parse_u32(parts[1].as_str()) {
        Some(ix) => {
            let session = parts[0].clone();
            Ok((session, ix))
        },
        None => {
            let mut m = concat_strs("Invalid window index in '", spec);
            m.append("'");
            Err(TsmError::InvalidArgument(m))
        },
    }
}

/// How the window to move is resolved: an explicit `session:index` is
/// parsed; otherwise the picker's choice is read, whose second tab field
/// holds the address; no choice means cancellation.
pub open spec fn find_window_post(
    from: Option<Seq<char>>,
    selection: Option<Seq<char>>,
    r: &Result<Option<(String, u32)>, TsmError>,
) -> bool {
    match from {
        Some(f) => match r {
            Ok(Some(p)) => spec_window_spec(f) == Some((p.0@, p.1)),
            Ok(None) => false,
            Err(TsmError::InvalidArgument(_)) => spec_window_spec(f) is None,
            Err(_) => false,
        },
        None => match selection {
            None => r matches Ok(None),
            Some(sel) => {
                let parts = spec_split(sel, '\t');
                if parts.len() != 2 {
                    r matches Ok(None)
                } else {
                    let addr = spec_trim(parts[1]);
                    match r {
                        Ok(Some(p)) => spec_window_spec(addr) == Some((p.0@, p.1)),
                        Ok(None) => false,
                        Err(TsmError::InvalidArgument(_)) => spec_window_spec(addr) is None,
                        Err(_) => false,
                    }
                }
            },
        },
    }
}

/// Resolves which window to move: the explicit address, or the picker's
/// tab-separated choice.
pub fn find_window_to_move(from: &Option<String>, selection: Option<&String>) -> (r: Result<
    Option<(String, u32)>,
    TsmError,
>)
    ensures
        find_window_post(opt_view(from), opt_ref_view(selection), &r),
{
    match from {
        Some(f) => match parse_window_spec(f.as_str()) {
            Ok(p) => Ok(Some(p)),
            Err(e) => Err(e),
        },
        None => match selection {
            None => Ok(None),
            Some(sel) => {
                let parts = split_char(sel.as_str(), '\t');
                if parts.len() != 2 {
                    return Ok(None);
                }
                proof {
                    assert(parts@[1]@ == spec_split(sel@, '\t')[1]);
                }
                let addr = trim_ws(parts[1].as_str());
                match parse_window_spec(addr.as_str()) {
                    Ok(p) => Ok(Some(p)),
                    Err(e) => Err(e),
                }
            },
        },
    }
}

/// Resolves the target session: the explicit name, or the picker's choice.
pub fn find_target_session(to: &Option<String>, selection: Option<&String>) -> (r: Option<String>)
    ensures
        opt_view(&r) == if to is Some {
            opt_view(to)
        } else {
            opt_ref_view(selection)
        },
{
    match to {
        Some(t) => Some(t.clone()),
        None => match selection {
            Some(s) => Some(s.clone()),
            None => None,
        },
    }
}

/// Every session name but the given one, in order.
pub open spec fn spec_excluding(names: Seq<Seq<char>>, name: Seq<char>) -> Seq<Seq<char>>
    decreases names.len(),
{
    if names.len() == 0 {
        Seq::<Seq<char>>::empty()
    } else if names[0] != name {
        seq![names[0]] + spec_excluding(names.drop_first(), name)
    } else {
        spec_excluding(names.drop_first(), name)
    }
}

/// The session names offered as move targets: everything but the source.
#[verifier::loop_isolation(false)]
pub fn sessions_excluding(sessions: &Vec<String>, name: &str) -> (r: Vec<String>)
    ensures
        r.deep_view() == spec_excluding(sessions.deep_view(), name@),
{
    let ghost all = sessions.deep_view();
    let mut out: Vec<String> = Vec::new();
    let mut i: usize = 0;
    proof {
        assert(all.skip(0) =~= all);
        assert(out.deep_view() + spec_excluding(all, name@) =~= spec_excluding(all, name@));
    }
    while i < sessions.len()
        invariant
            i <= sessions@.len(),
            all == sessions.deep_view(),
            all.len() == sessions@.len(),
            out.deep_view() + spec_excluding(all.skip(i as int), name@) == spec_excluding(
                all,
                name@,
            ),
        decreases sessions@.len() - i,
    {
        let ghost before = out.deep_view();
        proof {
            assert(all.skip(i as int)[0] == all[i as int]);
            assert(all.skip(i as int).drop_first() =~= all.skip(i as int + 1));
        }
        if !crate::text::str_eq(sessions[i].as_str(), name) {
            out.push(sessions[i].clone());
            proof {
                assert(out.deep_view() =~= before.push(all[i as int]));
                assert(before + (seq![all[i as int]] + spec_excluding(
                    all.skip(i as int + 1),
                    name@,
                )) =~= out.deep_view() + spec_excluding(all.skip(i as int + 1), name@));
            }
        }
        i = i + 1;
    }
    proof {
        assert(all.skip(all.len() as int) =~= Seq::<Seq<char>>::empty());
        assert(spec_excluding(Seq::<Seq<char>>::empty(), name@) =~= Seq::<Seq<char>>::empty());
        assert(out.deep_view() + Seq::<Seq<char>>::empty() =~= out.deep_view());
    }
    out
}

/// One picker line for a movable window: its durable pane identifier, then
/// its address.
pub open spec fn spec_move_item(w: WindowV) -> Seq<char> {
    w.pane_id + "\t "@ + canon_id(w.session_name, w.index)
}

/// The picker lines for the movable windows, in recency order.
#[verifier::loop_isolation(false)]
pub fn move_picker_items(sorted: &Vec<(Window, u64)>) -> (r: Vec<String>)
    ensures
        r.deep_view() == pviews(sorted@).map_values(|p: (WindowV, u64)| spec_move_item(p.0)),
{
    let mut out: Vec<String> = Vec::new();
    let mut i: usize = 0;
    proof {
        assert(out.deep_view() =~~= pviews(sorted@).map_values(
            |p: (WindowV, u64)| spec_move_item(p.0),
        ).take(0));
    }
    while i < sorted.len()
        invariant
            i <= sorted@.len(),
            out.deep_view() == pviews(sorted@).map_values(
                |p: (WindowV, u64)| spec_move_item(p.0),
            ).take(i as int),
        decreases sorted@.len() - i,
    {
        let ghost before = out.deep_view();
        let w = &sorted[i].0;
        let mut line = w.pane_id.clone();
        line.append("\t ");
        line.append(crate::history::canon_key(w.session_name.as_str(), w.index).as_str());
        proof {
            assert(line@ == spec_move_item(pviews(sorted@)[i as int].0));
        }
        out.push(line);
        proof {
            assert(out.deep_view() =~~= before.push(spec_move_item(pviews(sorted@)[i as int].0)));
            assert(pviews(sorted@).map_values(|p: (WindowV, u64)| spec_move_item(p.0)).take(i + 1)
                =~~= before.push(spec_move_item(pviews(sorted@)[i as int].0)));
        }
        i = i + 1;
    }
    proof {
        let m = pviews(sorted@).map_values(|p: (WindowV, u64)| spec_move_item(p.0));
        assert(m.take(m.len() as int) =~= m);
    }
    out
}

/// The message shown after a successful move.
pub fn move_message(from_session: &str, from_index: u32, to_session: &str, new_index: u32) -> (r:
    String)
    ensures
        r@ == "Moved window "@ + canon_id(from_session@, from_index) + " to session "@ + canon_id(
            to_session@,
            new_index,
        ),
{
    let mut m = concat_strs(
        "Moved window ",
        crate::history::canon_key(from_session, from_index).as_str(),
    );
    m.append(" to session ");
    m.append(crate::history::canon_key(to_session, new_index).as_str());
    m
}

/// What the pre-move stage decides.
#[derive(Debug)]
pub enum MoveOutcome {
    /// The user cancelled the window pick: a clean no-op.
    Cancelled,
    /// No target session was chosen.
    NoTarget,
    /// Move this window to this session. The caller queries the window's
    /// pane identifier, moves it, re-finds it by that identifier in the
    /// fresh inventory, follows it, and records the fresh address.
    Proceed { from_session: String, from_index: u32, to_session: String },
}

impl MoveOutcome {
    /// The informational message to show, where no move happens.
    pub fn message(&self) -> (r: Option<String>)
        ensures
            match self {
                MoveOutcome::Cancelled => r is None,
                MoveOutcome::NoTarget => r is Some && r -> 0@
                    == "No target session selected, aborting move"@,
                MoveOutcome::Proceed { .. } => r is None,
            },
    {
        match self {
            MoveOutcome::NoTarget => Some("No target session selected, aborting move".to_owned()),
            _ => None,
        }
    }
}

/// The pre-move decision: moving needs a session context or an explicit
/// source, at least two sessions, a resolved source window and a target
/// session.
pub open spec fn move_post(
    from: Option<Seq<char>>,
    to: Option<Seq<char>>,
    inside: bool,
    sessions_len: int,
    active: Option<(Seq<char>, u32)>,
    from_selection: Option<Seq<char>>,
    to_selection: Option<Seq<char>>,
    r: &Result<MoveOutcome, TsmError>,
) -> bool {
    match r {
        Err(TsmError::NotInTmux) => from is None && !inside,
        Err(TsmError::InvalidArgument(m)) => {
            &&& (from is Some || inside)
            &&& if sessions_len < 2 {
                m@ == "At least two sessions are required to move a window"@
            } else {
                &&& !(from is None && to is Some)
                &&& match from {
                    Some(f) => spec_window_spec(f) is None,
                    None => from_selection is Some && spec_split(from_selection -> 0, '\t').len()
                        == 2 && spec_window_spec(
                        spec_trim(spec_split(from_selection -> 0, '\t')[1]),
                    ) is None,
                }
            }
        },
        Err(TsmError::TmuxCommand(m)) => {
            &&& (from is Some || inside)
            &&& sessions_len >= 2
            &&& from is None && to is Some && active is None
            &&& m@ == "Failed to parse current window"@
        },
        Err(_) => false,
        Ok(outcome) => {
            &&& (from is Some || inside)
            &&& sessions_len >= 2
            &&& match outcome {
                MoveOutcome::Cancelled => from is None && to is None && (from_selection is None
                    || spec_split(from_selection -> 0, '\t').len() != 2),
                MoveOutcome::NoTarget => to is None && to_selection is None,
                MoveOutcome::Proceed { from_session, from_index, to_session } => {
                    &&& if from is None && to is Some {
                        active is Some && (active -> 0).0 == from_session@ && (active -> 0).1
                            == from_index
                    } else {
                        match from {
                            Some(f) => spec_window_spec(f) matches Some(p) && p.0 == from_session@
                                && p.1 == from_index,
                            None => from_selection is Some && spec_split(
                                from_selection -> 0,
                                '\t',
                            ).len() == 2 && (spec_window_spec(
                                spec_trim(spec_split(from_selection -> 0, '\t')[1]),
                            ) matches Some(p) && p.0 == from_session@ && p.1 == from_index),
                        }
                    }
                    &&& (to is Some || to_selection is Some)
                    &&& to_session@ == if to is Some {
                        to -> 0
                    } else {
                        to_selection -> 0
                    }
                },
            }
        },
    }
}

impl MoveWindowCommand {
    /// The pre-move decision: validates the context and resolves the source
    /// window and target session. The caller performs the move and the
    /// post-move correlation.
    pub fn run(
        &self,
        inside: bool,
        sessions_len: usize,
        active: Option<&(String, u32)>,
        from_selection: Option<&String>,
        to_selection: Option<&String>,
    ) -> (r: Result<MoveOutcome, TsmError>)
        ensures
            move_post(
                opt_view(&self.from),
                opt_view(&self.to),
                inside,
                sessions_len as int,
                match active {
                    Some(a) => Some((a.0@, a.1)),
                    None => None,
                },
                opt_ref_view(from_selection),
                opt_ref_view(to_selection),
                &r,
            ),
    {
        if self.from.is_none() && !inside {
            return Err(TsmError::NotInTmux);
        }
        if sessions_len < 2 {
            return Err(
                TsmError::InvalidArgument(
                    "At least two sessions are required to move a window".to_owned(),
                ),
            );
        }
        let window_address: Option<(String, u32)> = if self.from.is_none() && self.to.is_some() {
            match active {
                Some(a) => Some((a.0.clone(), a.1)),
                None => {
                    return Err(TsmError::TmuxCommand("Failed to parse current window".to_owned()));
                },
            }
        } else {
            match find_window_to_move(&self.from, from_selection) {
                Ok(w) => w,
                Err(e) => {
                    return Err(e);
                },
            }
        };
        let (from_session, from_index): (String, u32) = match window_address {
            Some(p) => p,
            None => {
                return Ok(MoveOutcome::Cancelled);
            },
        };
        let to_session: String = match find_target_session(&self.to, to_selection) {
            Some(t) => t,
            None => {
                return Ok(MoveOutcome::NoTarget);
            },
        };
        Ok(MoveOutcome::Proceed { from_session, from_index, to_session })
    }
}

} // verus!
