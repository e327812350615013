use tsm::cli::last_session::LastSessionCommand;
use tsm::cli::last_window::LastWindowCommand;
use tsm::history::WindowHistory;
use tsm::nav::{NavOutcome, sort_windows_by_history};
use tsm::tmux::Window;

fn win(session: &str, index: u32, pane: &str) -> Window {
    Window {
        session_name: String::from(session),
        index,
        name: format!("w{}", index),
        pane_id: String::from(pane),
    }
}

fn fresh() -> WindowHistory {
    WindowHistory::new(String::from("history"))
}

#[test]
fn sort_is_stable_for_unrecorded_windows() {
    let h = fresh();
    let windows = vec![win("a", 0, "%1"), win("a", 1, "%2"), win("b", 0, "%3")];
    let sorted = sort_windows_by_history(windows, &h);
    let order: Vec<&str> = sorted.iter().map(|p| p.0.pane_id.as_str()).collect();
    assert_eq!(order, vec!["%1", "%2", "%3"]);
    assert!(sorted.iter().all(|p| p.1 == 0));
}

#[test]
fn sort_is_stable_among_equal_stamps() {
    let mut h = fresh();
    h.record_access_at("a", 0, 5);
    h.record_access_at("a", 1, 5);
    h.record_access_at("b", 0, 9);
    let windows = vec![win("a", 0, "%1"), win("a", 1, "%2"), win("b", 0, "%3")];
    let sorted = sort_windows_by_history(windows, &h);
    let order: Vec<&str> = sorted.iter().map(|p| p.0.pane_id.as_str()).collect();
    // The tied pair keeps its inventory order behind the most recent window.
    assert_eq!(order, vec!["%3", "%1", "%2"]);
}

#[test]
fn sort_ranks_most_recent_first() {
    let mut h = fresh();
    h.record_access_at("s", 0, 100);
    h.record_access_at("s", 1, 300);
    h.record_access_at("s", 2, 200);
    let windows = vec![win("s", 0, "%1"), win("s", 1, "%2"), win("s", 2, "%3")];
    let sorted = sort_windows_by_history(windows, &h);
    let stamps: Vec<u64> = sorted.iter().map(|p| p.1).collect();
    assert_eq!(stamps, vec![300, 200, 100]);
}

#[test]
fn last_window_picks_the_second_ranked_entry() {
    // Inventory s1:0, s1:1, s1:2; ledger has s1:2 at 200, s1:0 at 100,
    // s1:1 unset; recording the current window s1:0 ranks it first, so the
    // previous window is s1:2.
    let mut h = fresh();
    h.record_access_at("s1", 2, 200);
    h.record_access_at("s1", 0, 100);
    let windows = vec![win("s1", 0, "%1"), win("s1", 1, "%2"), win("s1", 2, "%3")];
    let cmd = LastWindowCommand { current_session: false };
    let active = Some((String::from("s1"), 0u32));
    let r = cmd.run(windows, active, 1000, &mut h).unwrap();
    match r {
        NavOutcome::Switch(w, req) => {
            assert_eq!(w.session_name, "s1");
            assert_eq!(w.index, 2);
            assert_eq!(req.args, vec!["switch-client", "-t", "s1:2"]);
        }
        _ => panic!("expected a switch"),
    }
    // The target was recorded as newly accessed.
    assert_eq!(h.get_last_access("s1", 2), Some(1000));
}

#[test]
fn last_window_with_one_window_reports_no_previous() {
    let mut h = fresh();
    let windows = vec![win("s1", 0, "%1")];
    let cmd = LastWindowCommand { current_session: false };
    let r = cmd.run(windows, Some((String::from("s1"), 0)), 10, &mut h).unwrap();
    assert!(matches!(r, NavOutcome::NoPrevious));
    assert_eq!(r.message().unwrap(), "No previous window found");
}

#[test]
fn last_window_with_empty_inventory_reports_no_windows() {
    let mut h = fresh();
    let cmd = LastWindowCommand { current_session: false };
    let r = cmd.run(Vec::new(), None, 10, &mut h).unwrap();
    assert!(matches!(r, NavOutcome::NoWindows));
    assert_eq!(r.message().unwrap(), "No windows found");
}

#[test]
fn last_window_scoped_to_current_session() {
    let mut h = fresh();
    h.record_access_at("s2", 0, 500);
    h.record_access_at("s1", 1, 400);
    let windows = vec![win("s1", 0, "%1"), win("s1", 1, "%2"), win("s2", 0, "%3")];
    let cmd = LastWindowCommand { current_session: true };
    let r = cmd
        .run(windows, Some((String::from("s1"), 0)), 1000, &mut h)
        .unwrap();
    match r {
        NavOutcome::Switch(w, _) => {
            // s2:0 is more recent but outside the scope.
            assert_eq!(w.session_name, "s1");
            assert_eq!(w.index, 1);
        }
        _ => panic!("expected a switch"),
    }
}

#[test]
fn last_session_prefers_another_session() {
    // Inventory s1:0, s1:1, s2:0; inside s1; ledger empty: the only window
    // outside s1 wins.
    let mut h = fresh();
    let windows = vec![win("s1", 0, "%1"), win("s1", 1, "%2"), win("s2", 0, "%3")];
    let cmd = LastSessionCommand;
    let r = cmd.run(windows, Some((String::from("s1"), 0)), 50, &mut h);
    match r {
        NavOutcome::Switch(w, req) => {
            assert_eq!(w.session_name, "s2");
            assert_eq!(w.index, 0);
            assert_eq!(req.args, vec!["switch-client", "-t", "s2:0"]);
        }
        _ => panic!("expected a switch"),
    }
}

#[test]
fn last_session_excludes_the_whole_current_session() {
    let mut h = fresh();
    // s1:1 is by far the most recent, but the whole of s1 is excluded.
    h.record_access_at("s1", 1, 900);
    h.record_access_at("s2", 0, 10);
    let windows = vec![win("s1", 0, "%1"), win("s1", 1, "%2"), win("s2", 0, "%3")];
    let r = LastSessionCommand.run(windows, Some((String::from("s1"), 0)), 1000, &mut h);
    match r {
        NavOutcome::Switch(w, _) => assert_eq!(w.session_name, "s2"),
        _ => panic!("expected a switch"),
    }
}

#[test]
fn last_session_with_nothing_outside_reports_no_previous() {
    let mut h = fresh();
    let windows = vec![win("s1", 0, "%1"), win("s1", 1, "%2")];
    let r = LastSessionCommand.run(windows, Some((String::from("s1"), 0)), 5, &mut h);
    assert!(matches!(r, NavOutcome::NoPrevious));
}

#[test]
fn last_window_handle_filters_after_sorting() {
    let mut h = fresh();
    h.record_access_at("s2", 0, 500);
    let windows = vec![win("s1", 0, "%1"), win("s1", 1, "%2"), win("s2", 0, "%3")];
    let r = tsm::commands::last_window::handle(
        windows,
        Some((String::from("s1"), 0)),
        true,
        1000,
        &mut h,
    )
    .unwrap();
    match r {
        NavOutcome::Switch(w, _) => {
            assert_eq!(w.session_name, "s1");
            assert_eq!(w.index, 1);
        }
        _ => panic!("expected a switch"),
    }
}

#[test]
fn attach_is_planned_outside_the_multiplexer() {
    let mut h = fresh();
    let windows = vec![win("s1", 0, "%1"), win("s2", 0, "%2")];
    let cmd = LastWindowCommand { current_session: false };
    let r = cmd.run(windows, None, 10, &mut h).unwrap();
    match r {
        NavOutcome::Switch(_, req) => {
            assert_eq!(req.args[0], "attach-session");
        }
        _ => panic!("expected a switch"),
    }
}
