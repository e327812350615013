use tsm::history::WindowHistory;

fn fresh() -> WindowHistory {
    WindowHistory::new(String::from("history"))
}

#[test]
fn record_then_get() {
    let mut h = fresh();
    h.record_access_at("dev", 3, 42);
    assert_eq!(h.get_last_access("dev", 3), Some(42));
    assert_eq!(h.get_last_access("dev", 4), None);
    assert_eq!(h.get_last_access("dev2", 3), None);
}

#[test]
fn rerecording_overwrites_never_accumulates() {
    let mut h = fresh();
    h.record_access_at("a", 0, 10);
    h.record_access_at("a", 0, 99);
    assert_eq!(h.get_last_access("a", 0), Some(99));
    let text = h.save_to_string();
    assert_eq!(text, "a:0\t99\n");
}

#[test]
fn identities_are_case_sensitive_and_untrimmed() {
    let mut h = fresh();
    h.record_access_at("Dev", 1, 5);
    assert_eq!(h.get_last_access("dev", 1), None);
    h.record_access_at(" dev", 1, 6);
    assert_eq!(h.get_last_access("dev", 1), None);
    assert_eq!(h.get_last_access(" dev", 1), Some(6));
}

#[test]
fn save_orders_by_descending_timestamp() {
    let mut h = fresh();
    h.record_access_at("a", 0, 10);
    h.record_access_at("b", 1, 30);
    h.record_access_at("c", 2, 20);
    assert_eq!(h.save_to_string(), "b:1\t30\nc:2\t20\na:0\t10\n");
}

#[test]
fn save_breaks_ties_by_insertion_order() {
    let mut h = fresh();
    h.record_access_at("a", 0, 7);
    h.record_access_at("b", 0, 7);
    h.record_access_at("c", 0, 9);
    assert_eq!(h.save_to_string(), "c:0\t9\na:0\t7\nb:0\t7\n");
}

#[test]
fn capacity_after_save_is_one_hundred_lines() {
    let mut h = fresh();
    for i in 0..150u32 {
        h.record_access_at("s", i, i as u64);
    }
    let text = h.save_to_string();
    let lines: Vec<&str> = text.lines().collect();
    assert_eq!(lines.len(), 100);
    // The most recent entry leads, the hundredth-most-recent closes.
    assert_eq!(lines[0], "s:149\t149");
    assert_eq!(lines[99], "s:50\t50");
}

#[test]
fn round_trip_keeps_the_most_recent_hundred() {
    let mut h = fresh();
    for i in 0..120u32 {
        h.record_access_at("w", i, 1000 + i as u64);
    }
    let text = h.save_to_string();
    let mut reloaded = fresh();
    reloaded.load_from_str(&text);
    for i in 20..120u32 {
        assert_eq!(reloaded.get_last_access("w", i), Some(1000 + i as u64));
    }
    for i in 0..20u32 {
        assert_eq!(reloaded.get_last_access("w", i), None);
    }
}

#[test]
fn saving_a_freshly_loaded_ledger_is_byte_identical() {
    let mut h = fresh();
    h.record_access_at("alpha", 1, 300);
    h.record_access_at("beta", 2, 100);
    h.record_access_at("gamma", 0, 200);
    let first = h.save_to_string();
    let mut reloaded = fresh();
    reloaded.load_from_str(&first);
    let second = reloaded.save_to_string();
    assert_eq!(first, second);
}

#[test]
fn malformed_lines_are_skipped_individually() {
    let mut h = fresh();
    let text = "a:1\t100\nno tab here\nb:2\tnotanumber\nc:3\t42\nd:4\t1\textra\n";
    h.load_from_str(text);
    assert_eq!(h.get_last_access("a", 1), Some(100));
    assert_eq!(h.get_last_access("b", 2), None);
    assert_eq!(h.get_last_access("c", 3), Some(42));
    // Three tab-separated fields are not a valid line either.
    assert_eq!(h.get_last_access("d", 4), None);
}

#[test]
fn loading_an_absent_files_worth_of_nothing_leaves_the_ledger_empty() {
    let mut h = fresh();
    h.load_from_str("");
    assert_eq!(h.save_to_string(), "");
}

#[test]
fn load_accepts_plus_prefixed_timestamps() {
    // The reader accepts any string that Rust reads as a `u64`.
    let mut h = fresh();
    h.load_from_str("a:1\t+77\n");
    assert_eq!(h.get_last_access("a", 1), Some(77));
}

#[test]
fn record_access_uses_the_clock() {
    let mut h = fresh();
    h.record_access("live", 4);
    // The exact stamp depends on the wall clock; the entry must exist.
    assert!(h.get_last_access("live", 4).is_some());
}

#[test]
fn lookup_key_reads_the_canonical_form() {
    let mut h = fresh();
    h.record_access_at("dev", 12, 9);
    assert_eq!(h.lookup_key("dev:12"), Some(9));
    assert_eq!(h.lookup_key("dev:1"), None);
}

#[test]
fn path_is_kept() {
    let h = WindowHistory::new(String::from("/tmp/somewhere"));
    assert_eq!(h.path().as_str(), "/tmp/somewhere");
}
