use weecord::message_manager::{
    replay_notifies, BufferManager, Message, MessageKind, MessageManager, Redraw,
};
use weecord::sync::{AffinityError, MainThreadToken, OnMain};

fn on_main() -> OnMain {
    let mut token = MainThreadToken::new();
    token.record_main_thread(1).unwrap();
    token.on_main(1).unwrap()
}

fn message(id: u64, content: &str) -> Message {
    Message {
        id,
        channel_id: 1,
        author_id: 2,
        author_name: "author".to_string(),
        content: content.to_string(),
        timestamp: 1_600_000_000,
        edited: false,
        kind: MessageKind::Regular,
        attachments: Vec::new(),
        embeds: Vec::new(),
        mentions: Vec::new(),
    }
}

fn contents(manager: &MessageManager) -> Vec<String> {
    (0..manager.len()).map(|i| manager.get(i).unwrap().content.clone()).collect()
}

fn abc() -> MessageManager {
    let mut manager = MessageManager::new();
    manager.add_message(&on_main(), message(1, "A"));
    manager.add_message(&on_main(), message(2, "B"));
    manager.add_message(&on_main(), message(3, "C"));
    manager
}

#[test]
fn new_manager_is_empty() {
    let manager = MessageManager::new();
    assert_eq!(manager.len(), 0);
    assert!(!manager.history_loaded());
    assert!(!manager.nicks_loaded());
    assert!(manager.get(0).is_none());
}

#[test]
fn loaded_flags_are_set_once_and_stay() {
    let mut manager = MessageManager::new();
    manager.set_history_loaded(&on_main());
    assert!(manager.history_loaded());
    assert!(!manager.nicks_loaded());
    manager.set_nicks_loaded(&on_main());
    manager.set_history_loaded(&on_main());
    manager.add_message(&on_main(), message(1, "A"));
    manager.clear(&on_main());
    assert!(manager.history_loaded());
    assert!(manager.nicks_loaded());
}

#[test]
fn add_message_prints_one_line() {
    let mut manager = MessageManager::new();
    assert_eq!(manager.add_message(&on_main(), message(1, "A")), Redraw { clear: false, from: 0 });
    assert_eq!(manager.add_message(&on_main(), message(2, "B")), Redraw { clear: false, from: 1 });
    assert_eq!(contents(&manager), vec!["A", "B"]);
}

#[test]
fn replace_then_redraw_is_as_from_scratch() {
    let mut manager = abc();
    assert_eq!(manager.replace_message(&on_main(), 2, message(2, "B'")), Redraw { clear: true, from: 0 });
    assert_eq!(manager.redraw_buffer(), Redraw { clear: true, from: 0 });
    let mut scratch = MessageManager::new();
    scratch.add_message(&on_main(), message(1, "A"));
    scratch.add_message(&on_main(), message(2, "B'"));
    scratch.add_message(&on_main(), message(3, "C"));
    assert_eq!(contents(&manager), vec!["A", "B'", "C"]);
    assert_eq!(contents(&manager), contents(&scratch));
}

#[test]
fn replace_of_unknown_id_changes_nothing() {
    let mut manager = abc();
    assert_eq!(manager.replace_message(&on_main(), 9, message(9, "X")), Redraw { clear: true, from: 0 });
    assert_eq!(contents(&manager), vec!["A", "B", "C"]);
}

#[test]
fn replace_takes_the_first_of_equal_ids() {
    let mut manager = abc();
    manager.add_message(&on_main(), message(2, "B again"));
    manager.replace_message(&on_main(), 2, message(2, "B'"));
    assert_eq!(contents(&manager), vec!["A", "B'", "C", "B again"]);
    assert_eq!(manager.find(2), Some(1));
    assert_eq!(manager.find(3), Some(2));
    assert_eq!(manager.find(4), None);
}

#[test]
fn delete_message_removes_and_redraws() {
    let mut manager = abc();
    let (gone, redraw) = manager.delete_message(&on_main(), 2);
    assert_eq!(gone.unwrap().content, "B");
    assert_eq!(redraw, Redraw { clear: true, from: 0 });
    assert_eq!(contents(&manager), vec!["A", "C"]);
    let (gone, redraw) = manager.delete_message(&on_main(), 2);
    assert!(gone.is_none());
    assert_eq!(redraw, Redraw { clear: true, from: 0 });
    assert_eq!(contents(&manager), vec!["A", "C"]);
}

#[test]
fn clear_forgets_the_messages() {
    let mut manager = abc();
    assert_eq!(manager.clear(&on_main()), Redraw { clear: true, from: 0 });
    assert_eq!(manager.len(), 0);
}

#[test]
fn get_or_create_is_idempotent() {
    let mut buffers = BufferManager::new();
    assert!(buffers.get_buffer("1.2").is_none());
    assert!(!buffers.has_buffer("1.2"));
    {
        let buffer = buffers.get_or_create_buffer(&on_main(), "1.2");
        assert_eq!(buffer.len(), 0);
        assert!(!buffer.history_loaded());
        assert!(!buffer.nicks_loaded());
        buffer.add_message(&on_main(), message(1, "A"));
        buffer.set_history_loaded(&on_main());
    }
    buffers.get_or_create_buffer(&on_main(), "Private.5").add_message(&on_main(), message(7, "dm"));
    {
        let again = buffers.get_or_create_buffer(&on_main(), "1.2");
        assert_eq!(again.len(), 1);
        assert!(again.history_loaded());
        again.add_message(&on_main(), message(2, "B"));
    }
    assert!(buffers.has_buffer("1.2"));
    assert_eq!(contents(buffers.get_buffer("1.2").unwrap()), vec!["A", "B"]);
    assert_eq!(contents(buffers.get_buffer("Private.5").unwrap()), vec!["dm"]);
    assert!(buffers.get_buffer("1.3").is_none());
}

#[test]
fn only_the_main_thread_is_admitted() {
    let mut token = MainThreadToken::new();
    assert_eq!(token.on_main(1).err(), Some(AffinityError::NotMainThread));
    token.record_main_thread(1).unwrap();
    assert!(token.on_main(1).is_ok());
    assert_eq!(token.on_main(2).err(), Some(AffinityError::NotMainThread));
}

#[test]
fn replayed_lines_do_not_notify() {
    let mut manager = abc();
    let appended = manager.add_message(&on_main(), message(4, "D"));
    assert!(replay_notifies(appended, true));
    assert!(!replay_notifies(appended, false));
    let replaced = manager.replace_message(&on_main(), 2, message(2, "B'"));
    assert!(!replay_notifies(replaced, true));
    let (_, deleted) = manager.delete_message(&on_main(), 3);
    assert!(!replay_notifies(deleted, true));
    assert!(!replay_notifies(manager.redraw_buffer(), true));
    assert!(!replay_notifies(manager.redraw_buffer(), false));
}
