use weecord::typing::{
    expanded_typing_list, get_users_for_typing_list, terse_typing_list, TypingEntry, TypingTracker,
    MAX_TYPING_EVENTS,
};

fn entry(channel_id: u64, user: u64, name: &str, time: u64) -> TypingEntry {
    TypingEntry { channel_id, guild_id: Some(1), user, user_name: name.to_string(), time }
}

fn tracker_with(names: &[(u64, &str)]) -> TypingTracker {
    let mut tracker = TypingTracker::new();
    for (user, name) in names {
        tracker.record(entry(7, *user, name, 100), 100);
    }
    tracker
}

#[test]
fn sweep_keeps_only_fresh_entries() {
    let t: u64 = 1_000;
    let mut tracker = TypingTracker::new();
    tracker.record(entry(7, 1, "a", t), t);
    tracker.record(entry(7, 2, "b", t + 5), t + 5);
    assert_eq!(tracker.len(), 2);
    tracker.record(entry(7, 3, "c", t + 15), t + 9);
    assert_eq!(tracker.len(), 3);
    tracker.sweep(t + 15);
    assert_eq!(tracker.len(), 1);
    assert_eq!(tracker.get(0).unwrap().time, t + 15);
    tracker.sweep(t + 15);
    assert_eq!(tracker.len(), 1);
    assert_eq!(tracker.get(0).unwrap().user, 3);
    assert!(tracker.get(1).is_none());
}

#[test]
fn sweep_window_is_ten_seconds() {
    let mut tracker = TypingTracker::new();
    tracker.record(entry(7, 1, "a", 100), 100);
    tracker.sweep(109);
    assert_eq!(tracker.len(), 1);
    tracker.sweep(110);
    assert_eq!(tracker.len(), 0);
}

#[test]
fn record_sweeps_what_has_expired() {
    let mut tracker = TypingTracker::new();
    tracker.record(entry(7, 1, "a", 100), 100);
    tracker.record(entry(7, 2, "b", 200), 200);
    assert_eq!(tracker.len(), 1);
    assert_eq!(tracker.get(0).unwrap().user, 2);
    tracker.record(entry(7, 3, "late", 100), 200);
    assert_eq!(tracker.len(), 1);
    assert_eq!(tracker.get(0).unwrap().user, 2);
}

#[test]
fn entry_from_the_future_is_fresh() {
    let mut tracker = TypingTracker::new();
    tracker.record(entry(7, 1, "a", 500), 100);
    tracker.sweep(100);
    assert_eq!(tracker.len(), 1);
    assert!(tracker.get(0).unwrap().is_fresh(100));
    assert!(!tracker.get(0).unwrap().is_fresh(510));
}

#[test]
fn capacity_keeps_the_newest_fifty() {
    let mut tracker = TypingTracker::new();
    for i in 0..60u64 {
        tracker.record(entry(7, i, "n", 100), 100);
    }
    assert_eq!(MAX_TYPING_EVENTS, 50);
    assert_eq!(tracker.len(), 50);
    for k in 0..50usize {
        assert_eq!(tracker.get(k).unwrap().user, 10 + k as u64);
    }
}

#[test]
fn query_has_one_name_per_user() {
    let mut tracker = TypingTracker::new();
    tracker.record(entry(7, 1, "Alice", 100), 100);
    tracker.record(entry(7, 2, "bob", 101), 101);
    tracker.record(entry(7, 1, "alice", 102), 102);
    tracker.record(entry(8, 3, "carol", 102), 102);
    assert_eq!(tracker.query(7, Some(1)), vec!["Alice".to_string(), "bob".to_string()]);
    assert_eq!(tracker.query(8, Some(1)), vec!["carol".to_string()]);
    assert!(tracker.query(7, None).is_empty());
    assert!(tracker.query(7, Some(2)).is_empty());
    assert_eq!(terse_typing_list(&tracker, 7, Some(1), 3), "typing: Alice, bob");
    assert_eq!(expanded_typing_list(&tracker, 7, Some(1), 3), "Alice and bob are typing");
}

#[test]
fn duplicate_copies_an_entry() {
    let e = entry(7, 1, "Alice", 100);
    assert_eq!(e.duplicate(), e);
}

#[test]
fn users_for_typing_list_truncates() {
    let tracker = tracker_with(&[(1, "a"), (2, "b"), (3, "c")]);
    assert_eq!(
        get_users_for_typing_list(&tracker, 7, Some(1), 2),
        (vec!["a".to_string(), "b".to_string()], true)
    );
    assert_eq!(
        get_users_for_typing_list(&tracker, 7, Some(1), 3),
        (vec!["a".to_string(), "b".to_string(), "c".to_string()], false)
    );
    assert_eq!(get_users_for_typing_list(&tracker, 7, Some(1), 0), (vec![], true));
    assert_eq!(get_users_for_typing_list(&tracker, 9, Some(1), 2), (vec![], false));
}

#[test]
fn terse_list() {
    let tracker = tracker_with(&[(1, "a"), (2, "b"), (3, "c")]);
    assert_eq!(terse_typing_list(&tracker, 7, Some(1), 3), "typing: a, b, c");
    assert_eq!(terse_typing_list(&tracker, 7, Some(1), 2), "typing: a, b, ...");
    assert_eq!(terse_typing_list(&tracker, 7, Some(1), 0), "typing: , ...");
    assert_eq!(terse_typing_list(&tracker, 9, Some(1), 3), "");
    let one = tracker_with(&[(1, "a")]);
    assert_eq!(terse_typing_list(&one, 7, Some(1), 3), "typing: a");
    let unnamed = tracker_with(&[(1, "")]);
    assert_eq!(terse_typing_list(&unnamed, 7, Some(1), 3), "");
}

#[test]
fn expanded_list() {
    let tracker = tracker_with(&[(1, "a"), (2, "b"), (3, "c")]);
    assert_eq!(expanded_typing_list(&tracker, 7, Some(1), 3), "a, b and c are typing");
    assert_eq!(expanded_typing_list(&tracker, 7, Some(1), 2), "Several people are typing...");
    assert_eq!(expanded_typing_list(&tracker, 7, Some(1), 0), "");
    assert_eq!(expanded_typing_list(&tracker, 9, Some(1), 3), "");
    let one = tracker_with(&[(1, "a")]);
    assert_eq!(expanded_typing_list(&one, 7, Some(1), 3), "a is typing");
    let two = tracker_with(&[(1, "a"), (2, "b")]);
    assert_eq!(expanded_typing_list(&two, 7, Some(1), 3), "a and b are typing");
}
