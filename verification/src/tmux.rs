//! The driver protocol: what to ask the multiplexer and what its replies
//! mean.
//!
//! Nothing here runs a process. A [`CmdRequest`] is the argument list of one
//! driver invocation, built here so that every address and format string is
//! pinned by a contract; a [`CmdReply`] is what came back, and the methods
//! that take one turn its text into values. The thin shell that actually
//! spawns the driver lives outside the library.

use vstd::prelude::*;

use crate::error::TsmError;
use crate::history::canon_id;
use crate::history::canon_key;
use crate::text::{spec_lines, spec_split, spec_trim, spec_parse_u32, spec_parse_u64, split_first,
    lines_of, split_char, split_once_char, parse_u32, parse_u64, trim_ws, concat_strs, push_char};

verus! {

/// One window of the live inventory.
#[derive(Debug, Clone, PartialEq, Eq)]
pub struct Window {
    pub session_name: String,
    pub index: u32,
    pub name: String,
    pub pane_id: String,
}

/// The mathematical shadow of a [`Window`].
#[verifier::ext_equal]
pub ghost struct WindowV {
    pub session_name: Seq<char>,
    pub index: u32,
    pub name: Seq<char>,
    pub pane_id: Seq<char>,
}

impl View for Window {
    type V = WindowV;

    open spec fn view(&self) -> WindowV {
        WindowV {
            session_name: self.session_name@,
            index: self.index,
            name: self.name@,
            pane_id: self.pane_id@,
        }
    }
}

/// The views of a window list.
pub open spec fn wviews(s: Seq<Window>) -> Seq<WindowV> {
    s.map_values(|w: Window| w@)
}

/// One driver invocation: the arguments handed to the multiplexer binary.
#[derive(Debug)]
pub struct CmdRequest {
    pub args: Vec<String>,
}

/// What one driver invocation produced.
#[derive(Debug)]
pub struct CmdReply {
    pub success: bool,
    pub stdout: String,
    pub stderr: String,
}

/// One parsed line of the window inventory: four tab-separated fields, the
/// second a decimal index. Extra fields are ignored; short or malformed
/// lines yield nothing.
pub open spec fn spec_parse_window_line(line: Seq<char>) -> Option<WindowV> {
    let parts = spec_split(line, '\t');
    if parts.len() >= 4 && spec_parse_u32(parts[1]) is Some {
        Some(
            WindowV {
                session_name: parts[0],
                index: spec_parse_u32(parts[1]) -> 0,
                name: parts[2],
                pane_id: parts[3],
            },
        )
    } else {
        None
    }
}

/// The windows the inventory lines describe, malformed lines skipped.
pub open spec fn spec_parse_windows(lines: Seq<Seq<char>>) -> Seq<WindowV>
    decreases lines.len(),
{
    if lines.len() == 0 {
        Seq::<WindowV>::empty()
    } else {
        match spec_parse_window_line(lines[0]) {
            Some(w) => seq![w] + spec_parse_windows(lines.drop_first()),
            None => spec_parse_windows(lines.drop_first()),
        }
    }
}

/// One parsed session line: `name:last_attached`, split at the first colon.
pub open spec fn spec_parse_session_line(line: Seq<char>) -> Option<(Seq<char>, u64)> {
    match split_first(line, ':') {
        Some(p) => match spec_parse_u64(spec_trim(p.1)) {
            Some(t) => Some((p.0, t)),
            None => None,
        },
        None => None,
    }
}

/// The sessions the session lines describe, malformed lines skipped.
pub open spec fn spec_session_entries(lines: Seq<Seq<char>>) -> Seq<(Seq<char>, u64)>
    decreases lines.len(),
{
    if lines.len() == 0 {
        Seq::<(Seq<char>, u64)>::empty()
    } else {
        match spec_parse_session_line(lines[0]) {
            Some(e) => seq![e] + spec_session_entries(lines.drop_first()),
            None => spec_session_entries(lines.drop_first()),
        }
    }
}

/// Sessions ordered most recently attached first.
pub open spec fn spec_sorted_sessions(stdout: Seq<char>) -> Seq<(Seq<char>, u64)> {
    crate::order::sort_desc(spec_session_entries(spec_lines(stdout)))
}

/// The current window as the driver reports it: `session:index`, trimmed.
pub open spec fn spec_current_window(stdout: Seq<char>) -> Option<(Seq<char>, u32)> {
    match split_first(spec_trim(stdout), ':') {
        Some(p) => match spec_parse_u32(p.1) {
            Some(i) => Some((p.0, i)),
            None => None,
        },
        None => None,
    }
}

/// The first window carrying the pane identifier.
pub open spec fn spec_find_pane(ws: Seq<WindowV>, pane: Seq<char>) -> Option<(Seq<char>, u32)>
    decreases ws.len(),
{
    if ws.len() == 0 {
        None
    } else if ws[0].pane_id == pane {
        Some((ws[0].session_name, ws[0].index))
    } else {
        spec_find_pane(ws.drop_first(), pane)
    }
}

/// How many windows belong to the session.
pub open spec fn spec_count_in_session(ws: Seq<WindowV>, session: Seq<char>) -> nat
    decreases ws.len(),
{
    if ws.len() == 0 {
        0
    } else {
        (if ws[0].session_name == session {
            1nat
        } else {
            0nat
        }) + spec_count_in_session(ws.drop_first(), session)
    }
}

/// The first listed session that is not `name`.
pub open spec fn spec_first_other(s: Seq<(Seq<char>, u64)>, name: Seq<char>) -> Option<Seq<char>>
    decreases s.len(),
{
    if s.len() == 0 {
        None
    } else if s[0].0 != name {
        Some(s[0].0)
    } else {
        spec_first_other(s.drop_first(), name)
    }
}

/// Killing a session: an optional switch away from it, then the kill.
#[derive(Debug)]
pub struct KillPlan {
    pub pre_switch: Option<CmdRequest>,
    pub kill: CmdRequest,
}

/// Creating a session: the creation, then a switch or attach into it.
#[derive(Debug)]
pub struct NewSessionPlan {
    pub create: CmdRequest,
    pub follow: CmdRequest,
}

/// Moving a window: an optional switch into the target session first, then
/// the move itself.
#[derive(Debug)]
pub struct MovePlan {
    pub pre_switch: Option<CmdRequest>,
    pub move_window: CmdRequest,
}

/// The driver protocol, request building and reply reading.
pub struct TmuxClient;

impl TmuxClient {
    /// A protocol handle.
    pub fn new() -> (r: TmuxClient) {
        TmuxClient
    }

    /// Asks for the name of the session the client is attached to.
    pub fn current_session_query(&self) -> (r: CmdRequest)
        ensures
            r.args.deep_view() == seq!["display-message"@, "-p"@, "#S"@],
    {
        let mut args: Vec<String> = Vec::new();
        args.push("display-message".to_owned());
        args.push("-p".to_owned());
        args.push("#S".to_owned());
        proof {
            assert(args.deep_view() =~~= seq!["display-message"@, "-p"@, "#S"@]);
        }
        CmdRequest { args }
    }

    /// Reads the current session's name out of the driver's reply.
    pub fn current_session(&self, reply: &CmdReply) -> (r: Result<String, TsmError>)
        ensures
            match r {
                Ok(s) => reply.success && s@ == spec_trim(reply.stdout@),
                Err(TsmError::TmuxCommand(m)) => !reply.success && m@ == reply.stderr@,
                Err(_) => false,
            },
    {
        if reply.success {
            Ok(trim_ws(reply.stdout.as_str()))
        } else {
            Err(TsmError::TmuxCommand(reply.stderr.clone()))
        }
    }

    /// Asks for every session and when it was last attached.
    pub fn list_sessions_query(&self) -> (r: CmdRequest)
        ensures
            r.args.deep_view() == seq![
                "list-sessions"@,
                "-F"@,
                "#{session_name}:#{session_last_attached}"@,
            ],
    {
        let mut args: Vec<String> = Vec::new();
        args.push("list-sessions".to_owned());
        args.push("-F".to_owned());
        args.push("#{session_name}:#{session_last_attached}".to_owned());
        proof {
            assert(args.deep_view() =~~= seq![
                "list-sessions"@,
                "-F"@,
                "#{session_name}:#{session_last_attached}"@,
            ]);
        }
        CmdRequest { args }
    }

    /// Reads the session list, most recently attached first.
    #[verifier::loop_isolation(false)]
    pub fn list_sorted_sessions(&self, reply: &CmdReply) -> (r: Vec<(String, u64)>)
        ensures
            r@.map_values(|e: (String, u64)| (e.0@, e.1)) == if reply.success {
                spec_sorted_sessions(reply.stdout@)
            } else {
                Seq::<(Seq<char>, u64)>::empty()
            },
    {
        if !reply.success {
            let r: Vec<(String, u64)> = Vec::new();
            proof {
                assert(r@.map_values(|e: (String, u64)| (e.0@, e.1)) =~= Seq::<
                    (Seq<char>, u64),
                >::empty());
            }
            return r;
        }
        let lines = lines_of(reply.stdout.as_str());
        let ghost all = spec_lines(reply.stdout@);
        let mut entries: Vec<(String, u64)> = Vec::new();
        let mut i: usize = 0;
        proof {
            assert(all.skip(0) =~= all);
            assert(entries@.map_values(|e: (String, u64)| (e.0@, e.1)) + spec_session_entries(all)
                =~= spec_session_entries(all));
        }
        while i < lines.len()
            invariant
                i <= lines@.len(),
                lines.deep_view() == all,
                entries@.map_values(|e: (String, u64)| (e.0@, e.1)) + spec_session_entries(
                    all.skip(i as int),
                ) == spec_session_entries(all),
            decreases lines@.len() - i,
        {
            let ghost line = all[i as int];
            let ghost before = entries@.map_values(|e: (String, u64)| (e.0@, e.1));
            proof {
                assert(lines@[i as int]@ == line);
                assert(all.skip(i as int)[0] == line);
                assert(all.skip(i as int).drop_first() =~= all.skip(i as int + 1));
            }
            match split_once_char(lines[i].as_str(), ':') {
                Some(p) => {
                    let stamp_text = trim_ws(p.1.as_str());
                    match parse_u64(stamp_text.as_str()) {
                        Some(t) => {
                            proof {
                                assert(spec_parse_session_line(line) == Some((p.0@, t)));
                            }
                            entries.push((p.0, t));
                        },
                        None => {
                            proof {
                                assert(spec_parse_session_line(line) is None);
                            }
                        },
                    }
                },
                None => {
                    proof {
                        assert(spec_parse_session_line(line) is None);
                    }
                },
            }
            proof {
                let now_m = entries@.map_values(|e: (String, u64) | (e.0@, e.1));
                if spec_parse_session_line(line) is Some {
                    assert(now_m =~= before.push(spec_parse_session_line(line) -> 0));
                    assert(before + (seq![spec_parse_session_line(line) -> 0]
                        + spec_session_entries(all.skip(i as int + 1))) =~= now_m
                        + spec_session_entries(all.skip(i as int + 1)));
                } else {
                    assert(now_m == before);
                }
            }
            i = i + 1;
        }
        proof {
            assert(all.skip(all.len() as int) =~= Seq::<Seq<char>>::empty());
            assert(entries@.map_values(|e: (String, u64)| (e.0@, e.1)) + Seq::<
                (Seq<char>, u64),
            >::empty() =~= entries@.map_values(|e: (String, u64)| (e.0@, e.1)));
        }
        let ghost p = entries@;
        let sorted = crate::order::sort_desc_by_stamp(entries);
        proof {
            crate::order::lemma_sort_desc_map(p, |s: String| s@);
            assert(crate::order::sort_desc(p).map_values(
                |e: (String, u64)| ((|s: String| s@)(e.0), e.1),
            ) =~= crate::order::sort_desc(p).map_values(|e: (String, u64)| (e.0@, e.1)));
            assert(p.map_values(|e: (String, u64)| ((|s: String| s@)(e.0), e.1)) =~= p.map_values(
                |e: (String, u64)| (e.0@, e.1),
            ));
        }
        sorted
    }

    /// Reads the session names, most recently attached first.
    #[verifier::loop_isolation(false)]
    pub fn list_sessions(&self, reply: &CmdReply) -> (r: Vec<String>)
        ensures
            r.deep_view() == if reply.success {
                spec_sorted_sessions(reply.stdout@).map_values(|e: (Seq<char>, u64)| e.0)
            } else {
                Seq::<Seq<char>>::empty()
            },
    {
        let mut sorted = self.list_sorted_sessions(reply);
        let ghost entries = sorted@.map_values(|e: (String, u64)| (e.0@, e.1));
        let mut names: Vec<String> = Vec::new();
        let ghost total = sorted@.len();
        while sorted.len() > 0
            invariant
                names@.len() + sorted@.len() == total,
                names.deep_view() + sorted@.map_values(|e: (String, u64)| (e.0@, e.1)).map_values(
                    |e: (Seq<char>, u64)| e.0,
                ) == entries.map_values(|e: (Seq<char>, u64)| e.0),
            decreases sorted@.len(),
        {
            let ghost before_names = names.deep_view();
            let ghost before_sorted = sorted@.map_values(|e: (String, u64)| (e.0@, e.1));
            let e = sorted.remove(0);
            names.push(e.0);
            proof {
                assert(names.deep_view() =~= before_names.push(before_sorted[0].0));
                assert(sorted@.map_values(|e2: (String, u64)| (e2.0@, e2.1)) =~= before_sorted
                    .drop_first());
                assert(before_names.push(before_sorted[0].0) + before_sorted.drop_first()
                    .map_values(|e2: (Seq<char>, u64)| e2.0) =~= before_names + before_sorted
                    .map_values(|e2: (Seq<char>, u64)| e2.0));
            }
        }
        proof {
            assert(sorted@.map_values(|e: (String, u64)| (e.0@, e.1)).map_values(
                |e: (Seq<char>, u64)| e.0,
            ) =~= Seq::<Seq<char>>::empty());
            assert(names.deep_view() + Seq::<Seq<char>>::empty() =~= names.deep_view());
            if !reply.success {
                assert(entries.map_values(|e: (Seq<char>, u64)| e.0) =~= Seq::<Seq<char>>::empty());
            }
        }
        names
    }

    /// Asks for the full window inventory across sessions.
    pub fn list_windows_query(&self) -> (r: CmdRequest)
        ensures
            r.args.deep_view() == seq![
                "list-windows"@,
                "-a"@,
                "-F"@,
                "#{session_name}\t#{window_index}\t#{window_name}\t#{pane_id}"@,
            ],
    {
        let mut args: Vec<String> = Vec::new();
        args.push("list-windows".to_owned());
        args.push("-a".to_owned());
        args.push("-F".to_owned());
        args.push("#{session_name}\t#{window_index}\t#{window_name}\t#{pane_id}".to_owned());
        proof {
            assert(args.deep_view() =~~= seq![
                "list-windows"@,
                "-a"@,
                "-F"@,
                "#{session_name}\t#{window_index}\t#{window_name}\t#{pane_id}"@,
            ]);
        }
        CmdRequest { args }
    }

    /// Reads the window inventory out of the driver's reply; a failed reply
    /// reads as an empty inventory.
    #[verifier::loop_isolation(false)]
    pub fn list_windows(&self, reply: &CmdReply) -> (r: Vec<Window>)
        ensures
            wviews(r@) == if reply.success {
                spec_parse_windows(spec_lines(reply.stdout@))
            } else {
                Seq::<WindowV>::empty()
            },
    {
        if !reply.success {
            let r: Vec<Window> = Vec::new();
            proof {
                assert(wviews(r@) =~= Seq::<WindowV>::empty());
            }
            return r;
        }
        let lines = lines_of(reply.stdout.as_str());
        let ghost all = spec_lines(reply.stdout@);
        let mut out: Vec<Window> = Vec::new();
        let mut i: usize = 0;
        proof {
            assert(all.skip(0) =~= all);
            assert(wviews(out@) + spec_parse_windows(all) =~= spec_parse_windows(all));
        }
        while i < lines.len()
            invariant
                i <= lines@.len(),
                lines.deep_view() == all,
                wviews(out@) + spec_parse_windows(all.skip(i as int)) == spec_parse_windows(all),
            decreases lines@.len() - i,
        {
            let ghost line = all[i as int];
            let ghost before = wviews(out@);
            proof {
                assert(lines@[i as int]@ == line);
                assert(all.skip(i as int)[0] == line);
                assert(all.skip(i as int).drop_first() =~= all.skip(i as int + 1));
            }
            let parts = split_char(lines[i].as_str(), '\t');
            if parts.len() >= 4 {
                proof {
                    assert(parts@[0]@ == spec_split(line, '\t')[0]);
                    assert(parts@[1]@ == spec_split(line, '\t')[1]);
                    assert(parts@[2]@ == spec_split(line, '\t')[2]);
                    assert(parts@[3]@ == spec_split(line, '\t')[3]);
                }
                match parse_u32(parts[1].as_str()) {
                    Some(ix) => {
                        let w = Window {
                            session_name: parts[0].clone(),
                            index: ix,
                            name: parts[2].clone(),
                            pane_id: parts[3].clone(),
                        };
                        proof {
                            assert(w@ =~= spec_parse_window_line(line) -> 0);
                        }
                        out.push(w);
                        proof {
                            assert(wviews(out@) =~= before.push(spec_parse_window_line(line) -> 0));
                            assert(before + (seq![spec_parse_window_line(line) -> 0]
                                + spec_parse_windows(all.skip(i as int + 1))) =~= wviews(out@)
                                + spec_parse_windows(all.skip(i as int + 1)));
                        }
                    },
                    None => {
                        proof {
                            assert(spec_parse_window_line(line) is None);
                        }
                    },
                }
            } else {
                proof {
                    assert(spec_parse_window_line(line) is None);
                }
            }
            i = i + 1;
        }
        proof {
            assert(all.skip(all.len() as int) =~= Seq::<Seq<char>>::empty());
            assert(wviews(out@) + Seq::<WindowV>::empty() =~= wviews(out@));
        }
        out
    }

    /// Plans creating a detached session and then entering it.
    pub fn new_session(&self, name: &str, path: &str, inside: bool) -> (r: NewSessionPlan)
        ensures
            r.create.args.deep_view() == seq![
                "new-session"@,
                "-d"@,
                "-s"@,
                name@,
                "-c"@,
                path@,
            ],
            r.follow.args.deep_view() == if inside {
                seq!["switch-client"@, "-t"@, name@]
            } else {
                seq!["attach-session"@, "-t"@, name@]
            },
    {
        let mut args: Vec<String> = Vec::new();
        args.push("new-session".to_owned());
        args.push("-d".to_owned());
        args.push("-s".to_owned());
        args.push(name.to_owned());
        args.push("-c".to_owned());
        args.push(path.to_owned());
        proof {
            assert(args.deep_view() =~~= seq![
                "new-session"@,
                "-d"@,
                "-s"@,
                name@,
                "-c"@,
                path@,
            ]);
        }
        let follow = if inside {
            self.switch_session(name)
        } else {
            self.attach_session(name)
        };
        NewSessionPlan { create: CmdRequest { args }, follow }
    }

    /// Plans killing a session: when the client sits inside the session being
    /// killed, it first switches to the most recently attached other session.
    pub fn kill_session(
        &self,
        session: &str,
        inside: bool,
        current: Option<&String>,
        sessions: &Vec<(String, u64)>,
    ) -> (r: KillPlan)
        ensures
            r.kill.args.deep_view() == seq!["kill-session"@, "-t"@, session@],
            ({
                let others = spec_first_other(
                    sessions@.map_values(|e: (String, u64)| (e.0@, e.1)),
                    session@,
                );
                match r.pre_switch {
                    Some(req) => inside && current is Some && current -> 0@ == session@
                        && others is Some && req.args.deep_view() == seq![
                        "switch-client"@,
                        "-t"@,
                        others -> 0,
                    ],
                    None => !(inside && current is Some && current -> 0@ == session@ && others
                        is Some),
                }
            }),
    {
        let ghost entries = sessions@.map_values(|e: (String, u64)| (e.0@, e.1));
        let mut pre_switch: Option<CmdRequest> = None;
        if inside {
            let is_current = match current {
                Some(c) => crate::text::str_eq(c.as_str(), session),
                None => false,
            };
            if is_current {
                let mut i: usize = 0;
                proof {
                    assert(entries.skip(0) =~= entries);
                }
                while i < sessions.len() && crate::text::str_eq(sessions[i].0.as_str(), session)
                    invariant
                        i <= sessions@.len(),
                        entries == sessions@.map_values(|e: (String, u64)| (e.0@, e.1)),
                        entries.len() == sessions@.len(),
                        spec_first_other(entries, session@) == spec_first_other(
                            entries.skip(i as int),
                            session@,
                        ),
                    decreases sessions@.len() - i,
                {
                    proof {
                        assert(entries.skip(i as int)[0] == entries[i as int]);
                        assert(entries.skip(i as int).drop_first() =~= entries.skip(i as int + 1));
                    }
                    i = i + 1;
                }
                if i < sessions.len() {
                    proof {
                        assert(entries.skip(i as int)[0] == entries[i as int]);
                    }
                    pre_switch = Some(self.switch_session(sessions[i].0.as_str()));
                } else {
                    proof {
                        assert(entries.skip(entries.len() as int) =~= Seq::<
                            (Seq<char>, u64),
                        >::empty());
                    }
                }
            }
        }
        let mut args: Vec<String> = Vec::new();
        args.push("kill-session".to_owned());
        args.push("-t".to_owned());
        args.push(session.to_owned());
        proof {
            assert(args.deep_view() =~~= seq!["kill-session"@, "-t"@, session@]);
        }
        KillPlan { pre_switch, kill: CmdRequest { args } }
    }

    /// Plans shutting the whole server down.
    pub fn kill_all_sessions(&self) -> (r: CmdRequest)
        ensures
            r.args.deep_view() == seq!["kill-server"@],
    {
        let mut args: Vec<String> = Vec::new();
        args.push("kill-server".to_owned());
        proof {
            assert(args.deep_view() =~~= seq!["kill-server"@]);
        }
        CmdRequest { args }
    }

    /// Plans renaming a session. Without an explicit current name the active
    /// session is renamed, which fails outside the multiplexer.
    pub fn rename_session(
        &self,
        current_name: Option<&str>,
        new_name: &str,
        active: Option<&String>,
    ) -> (r: Result<CmdRequest, TsmError>)
        ensures
            match r {
                Ok(req) => {
                    &&& (current_name is Some || active is Some)
                    &&& req.args.deep_view() == seq![
                        "rename-session"@,
                        "-t"@,
                        if current_name is Some {
                            current_name -> 0@
                        } else {
                            active -> 0@
                        },
                        new_name@,
                    ]
                },
                Err(TsmError::NotInTmux) => current_name is None && active is None,
                Err(_) => false,
            },
    {
        let resolved: String = match current_name {
            Some(n) => n.to_owned(),
            None => match active {
                Some(a) => a.clone(),
                None => {
                    return Err(TsmError::NotInTmux);
                },
            },
        };
        let mut args: Vec<String> = Vec::new();
        args.push("rename-session".to_owned());
        args.push("-t".to_owned());
        args.push(resolved);
        args.push(new_name.to_owned());
        proof {
            assert(args.deep_view() =~~= seq![
                "rename-session"@,
                "-t"@,
                if current_name is Some {
                    current_name -> 0@
                } else {
                    active -> 0@
                },
                new_name@,
            ]);
        }
        Ok(CmdRequest { args })
    }

    /// Plans attaching from outside to a session.
    pub fn attach_session(&self, session: &str) -> (r: CmdRequest)
        ensures
            r.args.deep_view() == seq!["attach-session"@, "-t"@, session@],
    {
        let mut args: Vec<String> = Vec::new();
        args.push("attach-session".to_owned());
        args.push("-t".to_owned());
        args.push(session.to_owned());
        proof {
            assert(args.deep_view() =~~= seq!["attach-session"@, "-t"@, session@]);
        }
        CmdRequest { args }
    }

    /// Plans switching the attached client to a session.
    pub fn switch_session(&self, name: &str) -> (r: CmdRequest)
        ensures
            r.args.deep_view() == seq!["switch-client"@, "-t"@, name@],
    {
        let mut args: Vec<String> = Vec::new();
        args.push("switch-client".to_owned());
        args.push("-t".to_owned());
        args.push(name.to_owned());
        proof {
            assert(args.deep_view() =~~= seq!["switch-client"@, "-t"@, name@]);
        }
        CmdRequest { args }
    }

    /// Plans switching the attached client to one window.
    pub fn switch_to_window(&self, session: &str, window_index: u32) -> (r: CmdRequest)
        ensures
            r.args.deep_view() == seq![
                "switch-client"@,
                "-t"@,
                canon_id(session@, window_index),
            ],
    {
        let mut args: Vec<String> = Vec::new();
        args.push("switch-client".to_owned());
        args.push("-t".to_owned());
        args.push(canon_key(session, window_index));
        proof {
            assert(args.deep_view() =~~= seq![
                "switch-client"@,
                "-t"@,
                canon_id(session@, window_index),
            ]);
        }
        CmdRequest { args }
    }

    /// Plans attaching from outside to one window.
    pub fn attach_to_window(&self, session: &str, window_index: u32) -> (r: CmdRequest)
        ensures
            r.args.deep_view() == seq![
                "attach-session"@,
                "-t"@,
                canon_id(session@, window_index),
            ],
    {
        let mut args: Vec<String> = Vec::new();
        args.push("attach-session".to_owned());
        args.push("-t".to_owned());
        args.push(canon_key(session, window_index));
        proof {
            assert(args.deep_view() =~~= seq![
                "attach-session"@,
                "-t"@,
                canon_id(session@, window_index),
            ]);
        }
        CmdRequest { args }
    }

    /// Plans swapping two windows of the attached session by index.
    pub fn swap_windows(&self, source: u32, target: u32) -> (r: CmdRequest)
        ensures
            r.args.deep_view() == seq![
                "swap-window"@,
                "-s"@,
                crate::text::dec_digits(source as nat),
                "-t"@,
                crate::text::dec_digits(target as nat),
            ],
    {
        let mut args: Vec<String> = Vec::new();
        args.push("swap-window".to_owned());
        args.push("-s".to_owned());
        args.push(crate::text::fmt_u64(source as u64));
        args.push("-t".to_owned());
        args.push(crate::text::fmt_u64(target as u64));
        proof {
            assert(args.deep_view() =~~= seq![
                "swap-window"@,
                "-s"@,
                crate::text::dec_digits(source as nat),
                "-t"@,
                crate::text::dec_digits(target as nat),
            ]);
        }
        CmdRequest { args }
    }

    /// Asks which window the client is looking at.
    pub fn current_window_query(&self) -> (r: CmdRequest)
        ensures
            r.args.deep_view() == seq![
                "display-message"@,
                "-p"@,
                "#{session_name}:#{window_index}"@,
            ],
    {
        let mut args: Vec<String> = Vec::new();
        args.push("display-message".to_owned());
        args.push("-p".to_owned());
        args.push("#{session_name}:#{window_index}".to_owned());
        proof {
            assert(args.deep_view() =~~= seq![
                "display-message"@,
                "-p"@,
                "#{session_name}:#{window_index}"@,
            ]);
        }
        CmdRequest { args }
    }

    /// Reads the current window's address out of the driver's reply.
    pub fn get_current_window(&self, reply: &CmdReply) -> (r: Result<(String, u32), TsmError>)
        ensures
            match r {
                Ok(p) => reply.success && spec_current_window(reply.stdout@) == Some((p.0@, p.1)),
                Err(TsmError::TmuxCommand(m)) => if reply.success {
                    spec_current_window(reply.stdout@) is None && m@
                        == "Failed to parse current window"@
                } else {
                    m@ == reply.stderr@
                },
                Err(_) => false,
            },
    {
        if !reply.success {
            return Err(TsmError::TmuxCommand(reply.stderr.clone()));
        }
        let trimmed = trim_ws(reply.stdout.as_str());
        match split_once_char(trimmed.as_str(), ':') {
            Some(p) => match parse_u32(p.1.as_str()) {
                Some(i) => Ok((p.0, i)),
                None => Err(TsmError::TmuxCommand("Failed to parse current window".to_owned())),
            },
            None => Err(TsmError::TmuxCommand("Failed to parse current window".to_owned())),
        }
    }

    /// Plans a whole move: when the window is the last one of its session,
    /// the client first switches to the target session (killing the source
    /// session would otherwise strand it), then the window is moved.
    pub fn plan_move_window(
        &self,
        windows: &Vec<Window>,
        from_session: &str,
        from_index: u32,
        to_session: &str,
    ) -> (r: MovePlan)
        ensures
            r.move_window.args.deep_view() == seq![
                "move-window"@,
                "-s"@,
                canon_id(from_session@, from_index),
                "-t"@,
                to_session@.push(':'),
            ],
            match r.pre_switch {
                Some(req) => spec_count_in_session(wviews(windows@), from_session@) <= 1
                    && req.args.deep_view() == seq!["switch-client"@, "-t"@, to_session@],
                None => spec_count_in_session(wviews(windows@), from_session@) > 1,
            },
    {
        let pre_switch = if self.is_last_window_in_session(windows, from_session) {
            Some(self.switch_session(to_session))
        } else {
            None
        };
        MovePlan { pre_switch, move_window: self.move_window(from_session, from_index, to_session) }
    }

    /// Plans moving a window to the end of another session.
    pub fn move_window(&self, from_session: &str, from_index: u32, to_session: &str) -> (r:
        CmdRequest)
        ensures
            r.args.deep_view() == seq![
                "move-window"@,
                "-s"@,
                canon_id(from_session@, from_index),
                "-t"@,
                to_session@.push(':'),
            ],
    {
        let mut args: Vec<String> = Vec::new();
        args.push("move-window".to_owned());
        args.push("-s".to_owned());
        args.push(canon_key(from_session, from_index));
        args.push("-t".to_owned());
        let mut target = to_session.to_owned();
        push_char(&mut target, ':');
        args.push(target);
        proof {
            assert(args.deep_view() =~~= seq![
                "move-window"@,
                "-s"@,
                canon_id(from_session@, from_index),
                "-t"@,
                to_session@.push(':'),
            ]);
        }
        CmdRequest { args }
    }

    /// Asks for the pane identifier of one window.
    pub fn pane_id_query(&self, session: &str, window_index: u32) -> (r: CmdRequest)
        ensures
            r.args.deep_view() == seq![
                "display-message"@,
                "-p"@,
                "-t"@,
                canon_id(session@, window_index),
                "#{pane_id}"@,
            ],
    {
        let mut args: Vec<String> = Vec::new();
        args.push("display-message".to_owned());
        args.push("-p".to_owned());
        args.push("-t".to_owned());
        args.push(canon_key(session, window_index));
        args.push("#{pane_id}".to_owned());
        proof {
            assert(args.deep_view() =~~= seq![
                "display-message"@,
                "-p"@,
                "-t"@,
                canon_id(session@, window_index),
                "#{pane_id}"@,
            ]);
        }
        CmdRequest { args }
    }

    /// Reads the pane identifier out of the driver's reply: its first line.
    pub fn get_pane_id(&self, reply: &CmdReply) -> (r: Result<String, TsmError>)
        ensures
            match r {
                Ok(p) => reply.success && spec_lines(reply.stdout@).len() >= 1 && p@ == spec_lines(
                    reply.stdout@,
                )[0],
                Err(TsmError::TmuxCommand(m)) => if reply.success {
                    spec_lines(reply.stdout@).len() == 0 && m@
                        == "No panes found in the specified window"@
                } else {
                    m@ == reply.stderr@
                },
                Err(_) => false,
            },
    {
        if !reply.success {
            return Err(TsmError::TmuxCommand(reply.stderr.clone()));
        }
        let lines = lines_of(reply.stdout.as_str());
        if lines.len() >= 1 {
            let first = lines[0].clone();
            proof {
                assert(first@ == spec_lines(reply.stdout@)[0]);
            }
            Ok(first)
        } else {
            Err(TsmError::TmuxCommand("No panes found in the specified window".to_owned()))
        }
    }

    /// Finds the window that carries a pane identifier in a fresh inventory:
    /// the durable correlation key across a move.
    #[verifier::loop_isolation(false)]
    pub fn find_window_by_pane_id(&self, windows: &Vec<Window>, pane_id: &str) -> (r: Result<
        (String, u32),
        TsmError,
    >)
        ensures
            match r {
                Ok(p) => spec_find_pane(wviews(windows@), pane_id@) == Some((p.0@, p.1)),
                Err(TsmError::TmuxCommand(m)) => spec_find_pane(wviews(windows@), pane_id@)
                    is None && m@ == "No window found with the specified pane ID"@,
                Err(_) => false,
            },
    {
        let ghost ws = wviews(windows@);
        let mut i: usize = 0;
        proof {
            assert(ws.skip(0) =~= ws);
        }
        while i < windows.len()
            invariant
                i <= windows@.len(),
                ws == wviews(windows@),
                ws.len() == windows@.len(),
                spec_find_pane(ws, pane_id@) == spec_find_pane(ws.skip(i as int), pane_id@),
            decreases windows@.len() - i,
        {
            proof {
                assert(ws.skip(i as int)[0] == ws[i as int]);
                assert(ws.skip(i as int).drop_first() =~= ws.skip(i as int + 1));
            }
            if crate::text::str_eq(windows[i].pane_id.as_str(), pane_id) {
                return Ok((windows[i].session_name.clone(), windows[i].index));
            }
            i = i + 1;
        }
        proof {
            assert(ws.skip(ws.len() as int) =~= Seq::<WindowV>::empty());
        }
        Err(TsmError::TmuxCommand("No window found with the specified pane ID".to_owned()))
    }

    /// Whether at most one window of the inventory belongs to the session.
    #[verifier::loop_isolation(false)]
    pub fn is_last_window_in_session(&self, windows: &Vec<Window>, session: &str) -> (r: bool)
        ensures
            r == (spec_count_in_session(wviews(windows@), session@) <= 1),
    {
        let ghost ws = wviews(windows@);
        let mut count: usize = 0;
        let mut i: usize = 0;
        proof {
            assert(ws.take(0) =~= Seq::<WindowV>::empty());
        }
        while i < windows.len()
            invariant
                i <= windows@.len(),
                ws == wviews(windows@),
                ws.len() == windows@.len(),
                count == spec_count_in_session(ws.take(i as int), session@),
                count <= i,
            decreases windows@.len() - i,
        {
            proof {
                lemma_count_in_session_snoc(ws.take(i as int), ws[i as int], session@);
                assert(ws.take(i as int).push(ws[i as int]) =~= ws.take(i as int + 1));
            }
            if crate::text::str_eq(windows[i].session_name.as_str(), session) {
                count = count + 1;
            }
            i = i + 1;
        }
        proof {
            assert(ws.take(ws.len() as int) =~= ws);
        }
        count <= 1
    }
}

/// Counting one more window adds one exactly for its own session.
proof fn lemma_count_in_session_snoc(ws: Seq<WindowV>, w: WindowV, session: Seq<char>)
    ensures
        spec_count_in_session(ws.push(w), session) == spec_count_in_session(ws, session) + (
        if w.session_name == session {
            1nat
        } else {
            0nat
        }),
    decreases ws.len(),
{
    if ws.len() == 0 {
        assert(ws.push(w)[0] == w);
        assert(ws.push(w).drop_first() =~= Seq::<WindowV>::empty());
        assert(spec_count_in_session(Seq::<WindowV>::empty(), session) == 0);
    } else {
        assert(ws.push(w)[0] == ws[0]);
        assert(ws.push(w).drop_first() =~= ws.drop_first().push(w));
        lemma_count_in_session_snoc(ws.drop_first(), w, session);
    }
}

} // verus!
