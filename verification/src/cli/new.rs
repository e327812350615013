//! Creating a session, or entering it if it already exists.

use vstd::prelude::*;

use crate::text::{concat_strs, is_ws_char, push_char, str_eq};
use crate::tmux::{CmdRequest, NewSessionPlan, TmuxClient};

verus! {

/// Creates a session named after a chosen directory; switches instead when
/// a session of that name already exists.
pub struct NewCommand {
    pub name: Option<String>,
    pub path: Option<String>,
    pub preview: bool,
    pub prompt: String,
    pub quiet: bool,
}

/// `s` without its leading dots.
pub open spec fn drop_leading_dots(s: Seq<char>) -> Seq<char>
    decreases s.len(),
{
    if s.len() > 0 && s[0] == '.' {
        drop_leading_dots(s.drop_first())
    } else {
        s
    }
}

/// A name made safe for the driver: leading dots removed, whitespace and
/// dots replaced by underscores.
pub open spec fn spec_sanitise(s: Seq<char>) -> Seq<char> {
    drop_leading_dots(s).map_values(
        |c: char|
            if is_ws_char(c) || c == '.' {
                '_'
            } else {
                c
            },
    )
}

/// Makes a session name safe for the driver.
#[verifier::loop_isolation(false)]
pub fn sanitise_session_name(name: &str) -> (r: String)
    ensures
        r@ == spec_sanitise(name@),
{
    let len = name.unicode_len();
    let mut lo: usize = 0;
    proof {
        assert(name@.skip(0) =~= name@);
    }
    while lo < len && name.get_char(lo) == '.'
        invariant
            lo <= len,
            drop_leading_dots(name@) == drop_leading_dots(name@.skip(lo as int)),
        decreases len - lo,
    {
        proof {
            let t = name@.skip(lo as int);
            assert(t[0] == name@[lo as int]);
            assert(t.drop_first() =~= name@.skip(lo as int + 1));
        }
        lo = lo + 1;
    }
    let ghost body = drop_leading_dots(name@);
    proof {
        let t = name@.skip(lo as int);
        if lo < len {
            assert(t[0] == name@[lo as int]);
        }
        assert(drop_leading_dots(t) == t);
        assert(body == name@.skip(lo as int));
    }
    let mut r = String::new();
    let mut i: usize = lo;
    proof {
        assert(r@ =~= body.take(0).map_values(
            |c: char|
                if is_ws_char(c) || c == '.' {
                    '_'
                } else {
                    c
                },
        ));
    }
    while i < len
        invariant
            lo <= i <= len,
            len == name@.len(),
            body == name@.skip(lo as int),
            r@ == body.take(i - lo).map_values(
                |c: char|
                    if is_ws_char(c) || c == '.' {
                        '_'
                    } else {
                        c
                    },
            ),
        decreases len - i,
    {
        let c = name.get_char(i);
        proof {
            assert(body[i - lo] == name@[i as int]);
        }
        let mapped: char = if crate::text::is_ws(c) || c == '.' {
            '_'
        } else {
            c
        };
        push_char(&mut r, mapped);
        proof {
            assert(body.take(i - lo + 1).map_values(
                |c2: char|
                    if is_ws_char(c2) || c2 == '.' {
                        '_'
                    } else {
                        c2
                    },
            ) =~= body.take(i - lo).map_values(
                |c2: char|
                    if is_ws_char(c2) || c2 == '.' {
                        '_'
                    } else {
                        c2
                    },
            ).push(mapped));
        }
        i = i + 1;
    }
    proof {
        assert(body.take(len - lo) =~= body);
    }
    r
}

/// What creating a session decides.
#[derive(Debug)]
pub enum NewOutcome {
    /// A session of that name exists: enter it and show the message, if any.
    Enter(CmdRequest, Option<String>),
    /// Create the session, enter it, and show the message, if any.
    Create(NewSessionPlan, Option<String>),
}

/// The creation decision: an existing session of the same name is entered,
/// otherwise a detached session is created at the path and then entered.
pub open spec fn new_session_post(
    name: Seq<char>,
    path: Seq<char>,
    inside: bool,
    quiet: bool,
    sessions: Seq<Seq<char>>,
    r: &NewOutcome,
) -> bool {
    match r {
        NewOutcome::Enter(req, message) => {
            &&& sessions.contains(name)
            &&& req.args.deep_view() == seq![
                if inside {
                    "switch-client"@
                } else {
                    "attach-session"@
                },
                "-t"@,
                name,
            ]
            &&& match message {
                Some(m) => !quiet && m@ == name + " session already exists. Switching to it."@,
                None => quiet,
            }
        },
        NewOutcome::Create(plan, message) => {
            &&& !sessions.contains(name)
            &&& plan.create.args.deep_view() == seq![
                "new-session"@,
                "-d"@,
                "-s"@,
                name,
                "-c"@,
                path,
            ]
            &&& plan.follow.args.deep_view() == seq![
                if inside {
                    "switch-client"@
                } else {
                    "attach-session"@
                },
                "-t"@,
                name,
            ]
            &&& match message {
                Some(m) => !quiet && m@ == "Created new session '"@ + name + "'"@,
                None => quiet,
            }
        },
    }
}

/// Plans creating (or entering) the session `name` rooted at `path`; the
/// name is expected to be already sanitised and the path already expanded.
#[verifier::loop_isolation(false)]
pub fn plan_new_session(
    name: &str,
    path: &str,
    inside: bool,
    quiet: bool,
    sessions: &Vec<String>,
) -> (r: NewOutcome)
    ensures
        new_session_post(name@, path@, inside, quiet, sessions.deep_view(), &r),
{
    let client = TmuxClient::new();
    let mut i: usize = 0;
    let mut found = false;
    while i < sessions.len() && !found
        invariant
            i <= sessions@.len(),
            found ==> i > 0 && sessions.deep_view()[i - 1] == name@,
            !found ==> forall|k: int| 0 <= k < i ==> sessions.deep_view()[k] != name@,
        decreases sessions@.len() - i,
    {
        if str_eq(sessions[i].as_str(), name) {
            found = true;
        }
        i = i + 1;
    }
    if found {
        let req = if inside {
            client.switch_session(name)
        } else {
            client.attach_session(name)
        };
        let message = if quiet {
            None
        } else {
            let mut m = name.to_owned();
            m.append(" session already exists. Switching to it.");
            Some(m)
        };
        NewOutcome::Enter(req, message)
    } else {
        proof {
            assert(!sessions.deep_view().contains(name@));
        }
        let plan = client.new_session(name, path, inside);
        let message = if quiet {
            None
        } else {
            let mut m = concat_strs("Created new session '", name);
            m.append("'");
            Some(m)
        };
        NewOutcome::Create(plan, message)
    }
}

} // verus!
