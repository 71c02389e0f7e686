use weecord::hook::{
    ack_target, apply_edit, buffer_input, get_users_nth_message, handle_nick, handle_query,
    input_is_command, previous_word, GuildSubscriptions, InputAction, NickCommand, NthError,
    TypingThrottle,
};

#[test]
fn input_actions() {
    assert!(matches!(buffer_input("", true, true), InputAction::Nothing));
    assert!(matches!(buffer_input("hi", false, true), InputAction::Nothing));
    assert!(matches!(buffer_input("hi", true, false), InputAction::Nothing));
    assert!(matches!(buffer_input("hi", true, true), InputAction::Send));
    assert!(matches!(buffer_input("s/a/b", true, true), InputAction::Send));
    assert!(matches!(buffer_input("2s///", true, true), InputAction::Delete { line: 2 }));
    assert!(matches!(
        buffer_input("s/a/b/", true, true),
        InputAction::Edit { line: 1, old: "a", new: "b", global: false }
    ));
    assert!(matches!(
        buffer_input("3s/a/b/ig", true, true),
        InputAction::Edit { line: 3, old: "a", new: "b", global: true }
    ));
    assert!(matches!(
        buffer_input("s/a/b/i", true, true),
        InputAction::Edit { line: 1, old: "a", new: "b", global: false }
    ));
}

#[test]
fn edits_replace_as_std_does() {
    for (content, old, new) in [
        ("hello world", "o", "0"),
        ("aaaa", "aa", "b"),
        ("aaa", "aa", "b"),
        ("abc", "", "-"),
        ("", "", "-"),
        ("", "a", "b"),
        ("abc", "abcd", "x"),
        ("h\u{e9}llo h\u{e9}", "h\u{e9}", "\u{fc}\u{fc}\u{fc}"),
        ("abab", "ab", ""),
        ("xay", "a", "aa"),
    ] {
        assert_eq!(apply_edit(content, old, new, true), content.replace(old, new));
        assert_eq!(apply_edit(content, old, new, false), content.replacen(old, new, 1));
    }
    assert_eq!(apply_edit("a-a-a", "a", "b", true), "b-b-b");
    assert_eq!(apply_edit("a-a-a", "a", "b", false), "b-a-a");
}

#[test]
fn nth_message_of_the_user() {
    let authors = vec![2, 1, 1, 3, 1];
    assert_eq!(get_users_nth_message(&authors, 1, 1), Ok(1));
    assert_eq!(get_users_nth_message(&authors, 1, 2), Ok(2));
    assert_eq!(get_users_nth_message(&authors, 1, 3), Ok(4));
    assert_eq!(get_users_nth_message(&authors, 1, 4), Err(NthError::ItemMissing));
    assert_eq!(get_users_nth_message(&authors, 1, 0), Err(NthError::ItemMissing));
    assert_eq!(get_users_nth_message(&authors, 9, 1), Err(NthError::ItemMissing));
    assert_eq!(get_users_nth_message(&authors, 1, 100), Err(NthError::ItemMissing));
    assert_eq!(get_users_nth_message(&authors, 1, 101), Err(NthError::ExceededLimit));
}

#[test]
fn acknowledging() {
    assert_eq!(ack_target(Some(1), Some(2)), Some(2));
    assert_eq!(ack_target(Some(2), Some(2)), None);
    assert_eq!(ack_target(None, Some(2)), None);
    assert_eq!(ack_target(Some(1), None), None);
}

#[test]
fn subscriptions_grow_channel_by_channel() {
    let mut subscriptions = GuildSubscriptions::new();
    assert_eq!(subscriptions.subscribe(1, 10), Some(vec![10]));
    assert_eq!(subscriptions.subscribe(1, 10), None);
    assert_eq!(subscriptions.subscribe(1, 11), Some(vec![10, 11]));
    assert_eq!(subscriptions.subscribe(2, 10), Some(vec![10]));
    assert_eq!(subscriptions.subscribe(1, 12), Some(vec![10, 11, 12]));
    assert_eq!(subscriptions.subscribe(1, 11), None);
    assert_eq!(subscriptions.subscribe(2, 13), Some(vec![10, 13]));
}

#[test]
fn typing_notices_are_throttled() {
    let mut throttle = TypingThrottle::new();
    assert!(!throttle.handle_buffer_typing(true, true, false, 9));
    assert!(throttle.handle_buffer_typing(true, true, false, 10));
    assert!(!throttle.handle_buffer_typing(true, true, false, 19));
    assert!(!throttle.handle_buffer_typing(false, true, false, 30));
    assert!(!throttle.handle_buffer_typing(true, false, false, 30));
    assert!(!throttle.handle_buffer_typing(true, true, true, 30));
    assert!(throttle.handle_buffer_typing(true, true, false, 20));
    assert!(!throttle.handle_buffer_typing(true, true, false, 29));
    assert!(throttle.handle_buffer_typing(true, true, false, u64::MAX));
    assert!(!throttle.handle_buffer_typing(true, true, false, u64::MAX));
    assert!(input_is_command("/join x"));
    assert!(!input_is_command("hello /"));
    assert!(!input_is_command(""));
}

#[test]
fn word_before_the_cursor() {
    assert_eq!(previous_word("/discord join my_guild gen"), Some("my_guild".to_string()));
    assert_eq!(previous_word("/discord "), Some("/discord".to_string()));
    assert_eq!(previous_word("a  b"), Some("".to_string()));
    assert_eq!(previous_word("/discord"), None);
    assert_eq!(previous_word(""), None);
}

#[test]
fn nick_commands() {
    assert_eq!(handle_nick("/nick  bob "), NickCommand { all: false, nick: Some("bob".to_string()) });
    assert_eq!(handle_nick("/nick -all bob b"), NickCommand { all: true, nick: Some("bob b".to_string()) });
    assert_eq!(handle_nick("/nick -all"), NickCommand { all: true, nick: None });
    assert_eq!(handle_nick("/nick"), NickCommand { all: false, nick: None });
    assert_eq!(handle_nick("/nick -allx"), NickCommand { all: false, nick: Some("-allx".to_string()) });
    assert_eq!(handle_nick("/nick x -all"), NickCommand { all: false, nick: Some("x -all".to_string()) });
    assert_eq!(handle_nick("/ni"), NickCommand { all: false, nick: None });
}

#[test]
fn query_targets() {
    assert_eq!(handle_query("/query  bob "), Some("bob".to_string()));
    assert_eq!(handle_query("/query b"), Some("b".to_string()));
    assert_eq!(handle_query("/query  "), Some("".to_string()));
    assert_eq!(handle_query("/query "), None);
    assert_eq!(handle_query("/query"), None);
}
