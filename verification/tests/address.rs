use tsm::cli::move_window::{
    MoveOutcome, MoveWindowCommand, find_target_session, find_window_to_move, move_message,
    parse_window_spec, sessions_excluding,
};
use tsm::error::TsmError;
use tsm::tmux::{TmuxClient, Window};

fn win(session: &str, index: u32, pane: &str) -> Window {
    Window {
        session_name: String::from(session),
        index,
        name: String::from("w"),
        pane_id: String::from(pane),
    }
}

#[test]
fn address_with_session_and_index_parses() {
    let (session, index) = parse_window_spec("dev:3").unwrap();
    assert_eq!(session, "dev");
    assert_eq!(index, 3);
}

#[test]
fn address_without_colon_is_rejected() {
    let e = parse_window_spec("dev").unwrap_err();
    assert!(matches!(e, TsmError::InvalidArgument(_)));
    assert_eq!(
        e.message(),
        "invalid argument: Invalid format 'dev'. Use 'session:index'"
    );
}

#[test]
fn address_with_bad_index_is_rejected() {
    let e = parse_window_spec("dev:x").unwrap_err();
    assert!(matches!(e, TsmError::InvalidArgument(_)));
    assert_eq!(e.message(), "invalid argument: Invalid window index in 'dev:x'");
}

#[test]
fn address_with_two_colons_is_rejected() {
    let e = parse_window_spec("a:b:3").unwrap_err();
    assert!(matches!(e, TsmError::InvalidArgument(_)));
    assert_eq!(
        e.message(),
        "invalid argument: Invalid format 'a:b:3'. Use 'session:index'"
    );
}

#[test]
fn address_with_empty_session_is_rejected() {
    let e = parse_window_spec(":3").unwrap_err();
    assert!(matches!(e, TsmError::InvalidArgument(_)));
    assert_eq!(
        e.message(),
        "invalid argument: Invalid format ':3'. Use 'session:index'"
    );
}

#[test]
fn address_with_empty_index_is_rejected() {
    let e = parse_window_spec("dev:").unwrap_err();
    assert!(matches!(e, TsmError::InvalidArgument(_)));
    assert_eq!(e.message(), "invalid argument: Invalid window index in 'dev:'");
}

#[test]
fn correlate_after_move_by_pane_id() {
    // A window moved from devA:1 to devB reappears at devB:3; its pane
    // identifier is the durable key.
    let client = TmuxClient::new();
    let post_move = vec![
        win("devA", 0, "%1"),
        win("devB", 2, "%4"),
        win("devB", 3, "%7"),
    ];
    let (session, index) = client.find_window_by_pane_id(&post_move, "%7").unwrap();
    assert_eq!(session, "devB");
    assert_eq!(index, 3);
}

#[test]
fn correlate_without_match_fails_as_driver_inconsistency() {
    let client = TmuxClient::new();
    let inventory = vec![win("a", 0, "%1")];
    let e = client.find_window_by_pane_id(&inventory, "%9").unwrap_err();
    assert_eq!(
        e.message(),
        "failed to execute tmux command: No window found with the specified pane ID"
    );
}

#[test]
fn explicit_from_address_is_parsed() {
    let from = Some(String::from("dev:2"));
    let r = find_window_to_move(&from, None).unwrap();
    assert_eq!(r, Some((String::from("dev"), 2)));
}

#[test]
fn picker_selection_is_parsed_after_the_tab() {
    let sel = String::from("%7\t dev:5");
    let r = find_window_to_move(&None, Some(&sel)).unwrap();
    assert_eq!(r, Some((String::from("dev"), 5)));
}

#[test]
fn cancelled_pick_moves_nothing() {
    assert_eq!(find_window_to_move(&None, None).unwrap(), None);
}

#[test]
fn malformed_pick_moves_nothing() {
    let sel = String::from("no tab field");
    assert_eq!(find_window_to_move(&None, Some(&sel)).unwrap(), None);
}

#[test]
fn target_session_prefers_the_explicit_name() {
    let to = Some(String::from("work"));
    let sel = String::from("picked");
    assert_eq!(find_target_session(&to, Some(&sel)), Some(String::from("work")));
    assert_eq!(find_target_session(&None, Some(&sel)), Some(String::from("picked")));
    assert_eq!(find_target_session(&None, None), None);
}

#[test]
fn move_needs_a_context_for_the_current_window() {
    let cmd = MoveWindowCommand { from: None, to: None, quiet: false };
    let e = cmd.run(false, 3, None, None, None).unwrap_err();
    assert!(matches!(e, TsmError::NotInTmux));
}

#[test]
fn move_needs_two_sessions() {
    let cmd = MoveWindowCommand { from: Some(String::from("a:0")), to: None, quiet: false };
    let e = cmd.run(true, 1, None, None, None).unwrap_err();
    assert_eq!(
        e.message(),
        "invalid argument: At least two sessions are required to move a window"
    );
}

#[test]
fn move_defaults_to_the_current_window_when_a_target_is_given() {
    let cmd = MoveWindowCommand { from: None, to: Some(String::from("work")), quiet: false };
    let active = (String::from("dev"), 4u32);
    let r = cmd.run(true, 2, Some(&active), None, None).unwrap();
    match r {
        MoveOutcome::Proceed { from_session, from_index, to_session } => {
            assert_eq!(from_session, "dev");
            assert_eq!(from_index, 4);
            assert_eq!(to_session, "work");
        }
        _ => panic!("expected a plan"),
    }
}

#[test]
fn move_without_target_choice_aborts_with_a_message() {
    let cmd = MoveWindowCommand { from: Some(String::from("a:0")), to: None, quiet: false };
    let r = cmd.run(true, 2, None, None, None).unwrap();
    assert!(matches!(r, MoveOutcome::NoTarget));
    assert_eq!(r.message().unwrap(), "No target session selected, aborting move");
}

#[test]
fn sessions_excluding_drops_only_the_source() {
    let sessions = vec![String::from("a"), String::from("b"), String::from("a")];
    let rest = sessions_excluding(&sessions, "a");
    assert_eq!(rest, vec![String::from("b")]);
}

#[test]
fn move_message_names_both_addresses() {
    assert_eq!(
        move_message("devA", 1, "devB", 3),
        "Moved window devA:1 to session devB:3"
    );
}

#[test]
fn move_request_targets_the_session_end() {
    let client = TmuxClient::new();
    let req = client.move_window("devA", 1, "devB");
    assert_eq!(req.args, vec!["move-window", "-s", "devA:1", "-t", "devB:"]);
}

#[test]
fn move_plan_switches_first_only_for_the_last_window() {
    let client = TmuxClient::new();
    let lone = vec![win("devA", 1, "%7"), win("devB", 0, "%2")];
    let plan = client.plan_move_window(&lone, "devA", 1, "devB");
    assert_eq!(plan.pre_switch.unwrap().args, vec!["switch-client", "-t", "devB"]);
    assert_eq!(
        plan.move_window.args,
        vec!["move-window", "-s", "devA:1", "-t", "devB:"]
    );
    let crowded = vec![win("devA", 0, "%1"), win("devA", 1, "%7"), win("devB", 0, "%2")];
    let plan = client.plan_move_window(&crowded, "devA", 1, "devB");
    assert!(plan.pre_switch.is_none());
}

#[test]
fn move_handle_reports_preconditions_as_messages() {
    let r = tsm::commands::move_window::handle(None, None, false, 5, None, None).unwrap();
    assert_eq!(
        r.message().unwrap(),
        "Error: Must be inside a tmux session to move the current window"
    );
    let r = tsm::commands::move_window::handle(Some(String::from("a:0")), None, true, 1, None, None)
        .unwrap();
    assert_eq!(
        r.message().unwrap(),
        "At least two sessions are required to move a window"
    );
}
