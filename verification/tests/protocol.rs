use tsm::tmux::{CmdReply, TmuxClient, Window};

fn reply(success: bool, stdout: &str, stderr: &str) -> CmdReply {
    CmdReply {
        success,
        stdout: String::from(stdout),
        stderr: String::from(stderr),
    }
}

#[test]
fn windows_are_parsed_from_tabbed_lines() {
    let client = TmuxClient::new();
    let out = "dev\t0\teditor\t%1\ndev\t1\tshell\t%2\nops\t3\tlogs\t%9\n";
    let windows = client.list_windows(&reply(true, out, ""));
    assert_eq!(windows.len(), 3);
    assert_eq!(
        windows[0],
        Window {
            session_name: String::from("dev"),
            index: 0,
            name: String::from("editor"),
            pane_id: String::from("%1"),
        }
    );
    assert_eq!(windows[2].session_name, "ops");
    assert_eq!(windows[2].index, 3);
    assert_eq!(windows[2].pane_id, "%9");
}

#[test]
fn short_or_malformed_window_lines_are_skipped() {
    let client = TmuxClient::new();
    let out = "dev\t0\teditor\t%1\nonly\ttwo\ndev\tx\tbad\t%2\n";
    let windows = client.list_windows(&reply(true, out, ""));
    assert_eq!(windows.len(), 1);
}

#[test]
fn a_failed_listing_reads_as_empty() {
    let client = TmuxClient::new();
    let windows = client.list_windows(&reply(false, "ignored", "boom"));
    assert!(windows.is_empty());
}

#[test]
fn window_names_may_hold_extra_tab_fields() {
    // Only the first four fields count; a fifth is ignored.
    let client = TmuxClient::new();
    let windows = client.list_windows(&reply(true, "s\t1\tn\t%5\textra\n", ""));
    assert_eq!(windows.len(), 1);
    assert_eq!(windows[0].pane_id, "%5");
}

#[test]
fn sessions_are_sorted_by_last_attached() {
    let client = TmuxClient::new();
    let out = "alpha:100\nbeta:300\ngamma:200\n";
    let names = client.list_sessions(&reply(true, out, ""));
    assert_eq!(
        names,
        vec![String::from("beta"), String::from("gamma"), String::from("alpha")]
    );
}

#[test]
fn session_lines_without_a_stamp_are_skipped() {
    let client = TmuxClient::new();
    let out = "alpha:100\nnocolon\nbeta:xyz\n";
    let sessions = client.list_sorted_sessions(&reply(true, out, ""));
    assert_eq!(sessions, vec![(String::from("alpha"), 100u64)]);
}

#[test]
fn current_session_is_the_trimmed_output() {
    let client = TmuxClient::new();
    assert_eq!(client.current_session(&reply(true, "dev\n", "")).unwrap(), "dev");
    let e = client.current_session(&reply(false, "", "no server")).unwrap_err();
    assert_eq!(e.message(), "failed to execute tmux command: no server");
}

#[test]
fn current_window_splits_at_the_first_colon() {
    let client = TmuxClient::new();
    let (session, index) = client.get_current_window(&reply(true, "dev:7\n", "")).unwrap();
    assert_eq!(session, "dev");
    assert_eq!(index, 7);
    let e = client.get_current_window(&reply(true, "devonly\n", "")).unwrap_err();
    assert_eq!(
        e.message(),
        "failed to execute tmux command: Failed to parse current window"
    );
}

#[test]
fn pane_id_is_the_first_output_line() {
    let client = TmuxClient::new();
    assert_eq!(client.get_pane_id(&reply(true, "%12\n", "")).unwrap(), "%12");
    let e = client.get_pane_id(&reply(true, "", "")).unwrap_err();
    assert_eq!(
        e.message(),
        "failed to execute tmux command: No panes found in the specified window"
    );
}

#[test]
fn is_last_window_counts_the_session() {
    let client = TmuxClient::new();
    let windows = vec![
        Window {
            session_name: String::from("a"),
            index: 0,
            name: String::from("x"),
            pane_id: String::from("%1"),
        },
        Window {
            session_name: String::from("a"),
            index: 1,
            name: String::from("y"),
            pane_id: String::from("%2"),
        },
        Window {
            session_name: String::from("b"),
            index: 0,
            name: String::from("z"),
            pane_id: String::from("%3"),
        },
    ];
    assert!(!client.is_last_window_in_session(&windows, "a"));
    assert!(client.is_last_window_in_session(&windows, "b"));
    assert!(client.is_last_window_in_session(&windows, "absent"));
}

#[test]
fn request_builders_name_the_driver_verbs() {
    let client = TmuxClient::new();
    assert_eq!(
        client.switch_to_window("dev", 2).args,
        vec!["switch-client", "-t", "dev:2"]
    );
    assert_eq!(
        client.attach_to_window("dev", 2).args,
        vec!["attach-session", "-t", "dev:2"]
    );
    assert_eq!(client.switch_session("dev").args, vec!["switch-client", "-t", "dev"]);
    assert_eq!(client.attach_session("dev").args, vec!["attach-session", "-t", "dev"]);
    assert_eq!(client.kill_all_sessions().args, vec!["kill-server"]);
    assert_eq!(
        client.swap_windows(1, 4).args,
        vec!["swap-window", "-s", "1", "-t", "4"]
    );
    assert_eq!(
        client.pane_id_query("dev", 3).args,
        vec!["display-message", "-p", "-t", "dev:3", "#{pane_id}"]
    );
    assert_eq!(
        client.current_session_query().args,
        vec!["display-message", "-p", "#S"]
    );
}

#[test]
fn kill_plan_switches_away_from_the_session_being_killed() {
    let client = TmuxClient::new();
    let sessions = vec![
        (String::from("doomed"), 300u64),
        (String::from("haven"), 200u64),
        (String::from("older"), 100u64),
    ];
    let current = String::from("doomed");
    let plan = client.kill_session("doomed", true, Some(&current), &sessions);
    assert_eq!(plan.kill.args, vec!["kill-session", "-t", "doomed"]);
    let pre = plan.pre_switch.expect("must switch away first");
    assert_eq!(pre.args, vec!["switch-client", "-t", "haven"]);
}

#[test]
fn kill_plan_stays_put_when_killing_another_session() {
    let client = TmuxClient::new();
    let sessions = vec![(String::from("a"), 2u64), (String::from("b"), 1u64)];
    let current = String::from("a");
    let plan = client.kill_session("b", true, Some(&current), &sessions);
    assert!(plan.pre_switch.is_none());
}

#[test]
fn rename_uses_the_active_session_by_default() {
    let client = TmuxClient::new();
    let active = String::from("old");
    let req = client.rename_session(None, "new", Some(&active)).unwrap();
    assert_eq!(req.args, vec!["rename-session", "-t", "old", "new"]);
    let req = client.rename_session(Some("given"), "new", Some(&active)).unwrap();
    assert_eq!(req.args, vec!["rename-session", "-t", "given", "new"]);
    let e = client.rename_session(None, "new", None).unwrap_err();
    assert_eq!(e.message(), "not inside a tmux session");
}

#[test]
fn new_session_plan_creates_then_enters() {
    let client = TmuxClient::new();
    let plan = client.new_session("proj", "/home/me/proj", true);
    assert_eq!(
        plan.create.args,
        vec!["new-session", "-d", "-s", "proj", "-c", "/home/me/proj"]
    );
    assert_eq!(plan.follow.args, vec!["switch-client", "-t", "proj"]);
    let plan = client.new_session("proj", "/home/me/proj", false);
    assert_eq!(plan.follow.args, vec!["attach-session", "-t", "proj"]);
}
