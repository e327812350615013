use tsm::cli::kill::{KillCommand, KillOutcome};
use tsm::cli::new::{NewOutcome, plan_new_session, sanitise_session_name};
use tsm::cli::record::RecordCommand;
use tsm::cli::rename::RenameCommand;
use tsm::cli::swap::{SwapOutcome, SwapWindowCommand};
use tsm::cli::switch::{SwitchCommand, SwitchOutcome};
use tsm::cli::switch_windows::{
    SwitchWindowCommand, SwitchWindowOutcome, parse_selection_index, switch_picker_items,
};
use tsm::error::TsmError;
use tsm::history::WindowHistory;
use tsm::nav::sort_windows_by_history;
use tsm::tmux::Window;

fn win(session: &str, index: u32, pane: &str) -> Window {
    Window {
        session_name: String::from(session),
        index,
        name: format!("w{}", index),
        pane_id: String::from(pane),
    }
}

fn fresh() -> WindowHistory {
    WindowHistory::new(String::from("history"))
}

#[test]
fn kill_all_plans_a_server_shutdown() {
    let cmd = KillCommand {
        session: None,
        all: true,
        prompt: String::from("Kill session: "),
        quiet: false,
    };
    match cmd.run(false, None, &Vec::new(), None) {
        KillOutcome::KillAll(req) => assert_eq!(req.args, vec!["kill-server"]),
        _ => panic!("expected a server shutdown"),
    }
}

#[test]
fn kill_cancelled_without_a_pick() {
    let cmd = KillCommand {
        session: None,
        all: false,
        prompt: String::from("Kill session: "),
        quiet: false,
    };
    assert!(matches!(cmd.run(false, None, &Vec::new(), None), KillOutcome::Cancelled));
}

#[test]
fn kill_reports_the_killed_session() {
    let cmd = KillCommand {
        session: Some(String::from("dead")),
        all: false,
        prompt: String::from("Kill session: "),
        quiet: false,
    };
    match cmd.run(false, None, &Vec::new(), None) {
        KillOutcome::Kill(plan, message) => {
            assert_eq!(plan.kill.args, vec!["kill-session", "-t", "dead"]);
            assert!(plan.pre_switch.is_none());
            assert_eq!(message.unwrap(), "Killed session: dead");
        }
        _ => panic!("expected a kill"),
    }
}

#[test]
fn switch_enters_the_named_session() {
    let cmd = SwitchCommand { name: Some(String::from("work")), prompt: String::from("Select: ") };
    match cmd.run(true, None) {
        SwitchOutcome::Go(req) => assert_eq!(req.args, vec!["switch-client", "-t", "work"]),
        _ => panic!("expected a switch"),
    }
    let cmd = SwitchCommand { name: None, prompt: String::from("Select: ") };
    assert!(matches!(cmd.run(true, None), SwitchOutcome::Cancelled));
    let pick = String::from("picked");
    match cmd.run(false, Some(&pick)) {
        SwitchOutcome::Go(req) => assert_eq!(req.args, vec!["attach-session", "-t", "picked"]),
        _ => panic!("expected an attach"),
    }
}

#[test]
fn record_outside_the_multiplexer_is_a_no_op() {
    let mut h = fresh();
    RecordCommand.run(None, 50, &mut h).unwrap();
    assert_eq!(h.save_to_string(), "");
}

#[test]
fn record_stamps_the_active_window() {
    let mut h = fresh();
    let active = (String::from("dev"), 2u32);
    RecordCommand.run(Some(&active), 50, &mut h).unwrap();
    assert_eq!(h.get_last_access("dev", 2), Some(50));
}

#[test]
fn rename_without_context_fails() {
    let cmd = RenameCommand { current_name: None, new_name: String::from("n") };
    assert!(matches!(cmd.run(None), Err(TsmError::NotInTmux)));
    let active = String::from("cur");
    let req = cmd.run(Some(&active)).unwrap();
    assert_eq!(req.args, vec!["rename-session", "-t", "cur", "n"]);
}

#[test]
fn swap_outside_the_multiplexer_fails() {
    let mut h = fresh();
    let cmd = SwapWindowCommand { source: None, target: 2, quiet: false };
    let e = cmd.run(false, None, &Vec::new(), 1, &mut h).unwrap_err();
    assert!(matches!(e, TsmError::NotInTmux));
}

#[test]
fn swap_with_equal_indices_is_an_informational_no_op() {
    let mut h = fresh();
    let cmd = SwapWindowCommand { source: Some(2), target: 2, quiet: false };
    let active = Some((String::from("s"), 0u32));
    let r = cmd.run(true, active, &Vec::new(), 1, &mut h).unwrap();
    match r {
        SwapOutcome::SameIndex(m) => {
            assert_eq!(m, "Source and target window indices are the same")
        }
        _ => panic!("expected the no-op"),
    }
}

#[test]
fn swap_needs_two_windows_in_the_session() {
    let mut h = fresh();
    let cmd = SwapWindowCommand { source: Some(0), target: 1, quiet: false };
    let active = Some((String::from("s"), 0u32));
    let windows = vec![win("s", 0, "%1"), win("other", 1, "%2")];
    let r = cmd.run(true, active, &windows, 1, &mut h).unwrap();
    match r {
        SwapOutcome::NotEnoughWindows(m) => {
            assert_eq!(m, "Not enough windows in the current session to perform swap.")
        }
        _ => panic!("expected the shortage report"),
    }
}

#[test]
fn swap_requires_both_indices_to_exist() {
    let mut h = fresh();
    let active = Some((String::from("s"), 0u32));
    let windows = vec![win("s", 0, "%1"), win("s", 1, "%2")];
    let cmd = SwapWindowCommand { source: Some(7), target: 1, quiet: false };
    match cmd.run(true, active.clone(), &windows, 1, &mut h).unwrap() {
        SwapOutcome::MissingWindow(m) => {
            assert_eq!(m, "Window 7 not found in current session")
        }
        _ => panic!("expected the missing-window report"),
    }
    let cmd = SwapWindowCommand { source: Some(0), target: 9, quiet: false };
    match cmd.run(true, active, &windows, 1, &mut h).unwrap() {
        SwapOutcome::MissingWindow(m) => {
            assert_eq!(m, "Window 9 not found in current session")
        }
        _ => panic!("expected the missing-window report"),
    }
}

#[test]
fn swapping_the_current_window_follows_it() {
    let mut h = fresh();
    let active = Some((String::from("s"), 0u32));
    let windows = vec![win("s", 0, "%1"), win("s", 1, "%2")];
    let cmd = SwapWindowCommand { source: None, target: 1, quiet: false };
    match cmd.run(true, active, &windows, 77, &mut h).unwrap() {
        SwapOutcome::Swap { swap, follow, message } => {
            assert_eq!(swap.args, vec!["swap-window", "-s", "0", "-t", "1"]);
            assert_eq!(follow.unwrap().args, vec!["switch-client", "-t", "s:1"]);
            assert_eq!(message.unwrap(), "Swapped windows 0 and 1");
        }
        _ => panic!("expected the swap"),
    }
    // Following the window records its new address.
    assert_eq!(h.get_last_access("s", 1), Some(77));
}

#[test]
fn swapping_two_other_windows_stays_put() {
    let mut h = fresh();
    let active = Some((String::from("s"), 5u32));
    let windows = vec![win("s", 0, "%1"), win("s", 1, "%2"), win("s", 5, "%3")];
    let cmd = SwapWindowCommand { source: Some(0), target: 1, quiet: true };
    match cmd.run(true, active, &windows, 77, &mut h).unwrap() {
        SwapOutcome::Swap { follow, message, .. } => {
            assert!(follow.is_none());
            assert!(message.is_none());
        }
        _ => panic!("expected the swap"),
    }
    assert_eq!(h.save_to_string(), "");
}

#[test]
fn sanitise_replaces_dots_and_whitespace() {
    assert_eq!(sanitise_session_name(".my proj.x"), "my_proj_x");
    assert_eq!(sanitise_session_name("...dotted"), "dotted");
    assert_eq!(sanitise_session_name("plain"), "plain");
    assert_eq!(sanitise_session_name("a\tb c"), "a_b_c");
}

#[test]
fn sanitise_replaces_every_unicode_whitespace() {
    // Vertical tab, form feed, no-break space, em space, line separator.
    assert_eq!(sanitise_session_name("a\u{b}b"), "a_b");
    assert_eq!(sanitise_session_name("a\u{c}b"), "a_b");
    assert_eq!(sanitise_session_name("a\u{a0}b"), "a_b");
    assert_eq!(sanitise_session_name("a\u{2003}b"), "a_b");
    assert_eq!(sanitise_session_name("a\u{2028}b"), "a_b");
    assert!(!sanitise_session_name("x\u{a0}.\u{3000}y").contains(char::is_whitespace));
}

#[test]
fn new_session_switches_when_the_name_exists() {
    let sessions = vec![String::from("proj"), String::from("other")];
    match plan_new_session("proj", "/p", true, false, &sessions) {
        NewOutcome::Enter(req, message) => {
            assert_eq!(req.args, vec!["switch-client", "-t", "proj"]);
            assert_eq!(message.unwrap(), "proj session already exists. Switching to it.");
        }
        _ => panic!("expected entering the existing session"),
    }
}

#[test]
fn new_session_creates_when_the_name_is_fresh() {
    let sessions = vec![String::from("other")];
    match plan_new_session("proj", "/p", false, false, &sessions) {
        NewOutcome::Create(plan, message) => {
            assert_eq!(plan.create.args, vec!["new-session", "-d", "-s", "proj", "-c", "/p"]);
            assert_eq!(plan.follow.args, vec!["attach-session", "-t", "proj"]);
            assert_eq!(message.unwrap(), "Created new session 'proj'");
        }
        _ => panic!("expected a creation plan"),
    }
}

#[test]
fn selection_index_reads_the_rank_after_the_tab() {
    assert_eq!(parse_selection_index("%3\t2 -> name[1] -> s1"), Some(2));
    assert_eq!(parse_selection_index("no tab"), None);
    assert_eq!(parse_selection_index("%3\t  "), None);
    assert_eq!(parse_selection_index("%3\tx -> y"), None);
}

#[test]
fn switch_window_picker_lines_carry_rank_and_address() {
    let h = fresh();
    let windows = vec![win("s1", 0, "%1"), win("s2", 3, "%2")];
    let sorted = sort_windows_by_history(windows, &h);
    let items = switch_picker_items(&sorted);
    assert_eq!(items[0], "%1\t0 -> w0[0] -> s1");
    assert_eq!(items[1], "%2\t1 -> w3[3] -> s2");
}

#[test]
fn switch_window_follows_the_picked_rank() {
    let mut h = fresh();
    h.record_access_at("s2", 3, 500);
    let windows = vec![win("s1", 0, "%1"), win("s2", 3, "%2")];
    let cmd = SwitchWindowCommand { prompt: String::from("Select: "), preview: false };
    // s2:3 ranks first; rank 1 is s1:0.
    let sel = String::from("%1\t1 -> w0[0] -> s1");
    let r = cmd
        .run(windows, Some((String::from("s2"), 3)), 1000, &mut h, Some(&sel))
        .unwrap();
    match r {
        SwitchWindowOutcome::Switch(w, req) => {
            assert_eq!(w.session_name, "s1");
            assert_eq!(w.index, 0);
            assert_eq!(req.args, vec!["switch-client", "-t", "s1:0"]);
        }
        _ => panic!("expected a switch"),
    }
}

#[test]
fn switch_window_rejects_an_unreadable_pick() {
    let mut h = fresh();
    let windows = vec![win("s1", 0, "%1")];
    let cmd = SwitchWindowCommand { prompt: String::from("Select: "), preview: false };
    let sel = String::from("garbage");
    let e = cmd.run(windows, None, 1, &mut h, Some(&sel)).unwrap_err();
    assert_eq!(
        e.message(),
        "invalid argument: Failed to parse fzf selection for window index"
    );
}

#[test]
fn switch_window_rejects_an_out_of_range_pick() {
    let mut h = fresh();
    let windows = vec![win("s1", 0, "%1")];
    let cmd = SwitchWindowCommand { prompt: String::from("Select: "), preview: false };
    let sel = String::from("%9\t7 -> gone");
    let e = cmd.run(windows, None, 1, &mut h, Some(&sel)).unwrap_err();
    assert_eq!(e.message(), "invalid argument: Selected window index 7 not found");
}

#[test]
fn error_messages_read_as_reported() {
    assert_eq!(TsmError::NotInTmux.message(), "not inside a tmux session");
    assert_eq!(
        TsmError::TmuxCommand(String::from("boom")).message(),
        "failed to execute tmux command: boom"
    );
    assert_eq!(TsmError::Io(String::from("denied")).message(), "IO error: denied");
    assert_eq!(
        TsmError::Fzf(String::from("gone")).message(),
        "failed to execute fzf command: gone"
    );
}

#[test]
fn picker_arguments_follow_the_configuration() {
    let picker = tsm::fzf::FzfPicker::new();
    assert_eq!(picker.command_args(), vec!["--ansi", "--prompt=Select an item: "]);
    let picker = tsm::fzf::FzfPicker::new()
        .with_prompt("Pick: ")
        .with_delimiter("\t")
        .with_nth("2..")
        .with_preview_command("cat {}");
    assert_eq!(
        picker.command_args(),
        vec![
            "--ansi",
            "--prompt=Pick: ",
            "--delimiter",
            "\t",
            "--with-nth",
            "2..",
            "--preview",
            "cat {}",
            "--preview-window",
            "right:60%",
        ]
    );
}

#[test]
fn free_function_handles_agree_with_the_commands() {
    let mut h = fresh();
    let active = (String::from("dev"), 2u32);
    tsm::commands::record::handle(Some(&active), 9, &mut h).unwrap();
    assert_eq!(h.get_last_access("dev", 2), Some(9));
    let req = tsm::commands::rename::handle(None, String::from("n"), Some(&String::from("cur")))
        .unwrap();
    assert_eq!(req.args, vec!["rename-session", "-t", "cur", "n"]);
    match tsm::commands::switch::handle(Some(String::from("w")), String::from("p"), true, None) {
        SwitchOutcome::Go(req) => assert_eq!(req.args, vec!["switch-client", "-t", "w"]),
        _ => panic!("expected a switch"),
    }
}

#[test]
fn kill_handle_plans_like_the_command() {
    let sessions = vec![(String::from("a"), 2u64), (String::from("b"), 1u64)];
    let current = String::from("a");
    let r = tsm::commands::kill::handle(
        Some(String::from("a")),
        String::from("Kill session: "),
        false,
        true,
        true,
        Some(&current),
        &sessions,
        None,
    );
    match r {
        KillOutcome::Kill(plan, message) => {
            assert_eq!(plan.kill.args, vec!["kill-session", "-t", "a"]);
            assert_eq!(plan.pre_switch.unwrap().args, vec!["switch-client", "-t", "b"]);
            assert!(message.is_none());
        }
        _ => panic!("expected a kill"),
    }
}

#[test]
fn swap_handle_decides_like_the_command() {
    let mut h = fresh();
    let active = Some((String::from("s"), 0u32));
    let windows = vec![win("s", 0, "%1"), win("s", 1, "%2")];
    match tsm::commands::swap::handle(Some(0), 1, true, true, active, &windows, 5, &mut h).unwrap()
    {
        SwapOutcome::Swap { swap, .. } => {
            assert_eq!(swap.args, vec!["swap-window", "-s", "0", "-t", "1"])
        }
        _ => panic!("expected the swap"),
    }
}

#[test]
fn last_session_handle_decides_like_the_command() {
    let mut h = fresh();
    let windows = vec![win("s1", 0, "%1"), win("s2", 0, "%2")];
    let r = tsm::commands::last_session::handle(
        windows,
        Some((String::from("s1"), 0)),
        9,
        &mut h,
    );
    match r {
        tsm::nav::NavOutcome::Switch(w, _) => assert_eq!(w.session_name, "s2"),
        _ => panic!("expected a switch"),
    }
}
