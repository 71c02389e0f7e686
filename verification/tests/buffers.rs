use weecord::buffers::{
    buffer_is_muted, channel_is_muted, conversation_title, create_buffer_from_channel, has_unread,
    history_wanted, load_history, nicks_wanted, ChannelBuffer, HistoryLine,
};
use weecord::search::ChannelType;

#[test]
fn channel_buffers() {
    assert_eq!(
        create_buffer_from_channel(Some(true), ChannelType::Text, "general", Some("talk"), Some(1), Some(2), false),
        Some(ChannelBuffer { kind: "channel", title: "general | talk".to_string(), hotlist: true, muted: false })
    );
    assert_eq!(
        create_buffer_from_channel(None, ChannelType::Private, "dm", Some(""), Some(2), Some(2), true),
        Some(ChannelBuffer { kind: "private", title: "dm (muted)".to_string(), hotlist: false, muted: true })
    );
    assert_eq!(
        create_buffer_from_channel(None, ChannelType::News, "news", None, None, Some(2), true),
        Some(ChannelBuffer { kind: "channel", title: "news (muted)".to_string(), hotlist: false, muted: true })
    );
    assert_eq!(
        create_buffer_from_channel(None, ChannelType::Group, "g", Some("t"), None, None, false),
        Some(ChannelBuffer { kind: "channel", title: "g | t".to_string(), hotlist: false, muted: false })
    );
    assert_eq!(create_buffer_from_channel(Some(false), ChannelType::Text, "x", None, None, None, false), None);
    for kind in [ChannelType::Category, ChannelType::Voice, ChannelType::Store] {
        assert_eq!(create_buffer_from_channel(Some(true), kind, "x", None, None, None, false), None);
    }
}

#[test]
fn unread_and_muted() {
    assert!(has_unread(Some(1), Some(2)));
    assert!(has_unread(None, Some(2)));
    assert!(has_unread(Some(1), None));
    assert!(!has_unread(Some(2), Some(2)));
    assert!(!has_unread(None, None));
    assert!(buffer_is_muted(Some("1")));
    assert!(!buffer_is_muted(Some("0")));
    assert!(!buffer_is_muted(Some("11")));
    assert!(!buffer_is_muted(Some("")));
    assert!(!buffer_is_muted(None));
    assert!(channel_is_muted(true, None));
    assert!(channel_is_muted(false, Some(true)));
    assert!(!channel_is_muted(false, Some(false)));
    assert!(!channel_is_muted(false, None));
}

#[test]
fn conversation_titles() {
    assert_eq!(conversation_title(&vec!["ann".to_string()]), "DM with ann");
    assert_eq!(conversation_title(&vec!["ann".to_string(), "bob".to_string()]), "DM with ann, bob");
    assert_eq!(conversation_title(&Vec::new()), "DM with ");
}

fn lines(plan: &[(u64, bool)]) -> Vec<HistoryLine> {
    plan.iter().map(|(id, mark_read)| HistoryLine { id: *id, mark_read: *mark_read }).collect()
}

#[test]
fn history_is_read_up_to_the_last_read_message() {
    let plan = load_history(&vec![5, 4, 3, 2, 1], Some(3));
    assert!(!plan.mark_read_first);
    assert_eq!(plan.lines, lines(&[(1, true), (2, true), (3, true), (4, false), (5, false)]));
}

#[test]
fn history_without_the_last_read_message() {
    let plan = load_history(&vec![5, 4, 3], Some(9));
    assert!(plan.mark_read_first);
    assert_eq!(plan.lines, lines(&[(3, false), (4, false), (5, false)]));
    let plan = load_history(&vec![5, 4, 3], None);
    assert!(!plan.mark_read_first);
    assert_eq!(plan.lines, lines(&[(3, false), (4, false), (5, false)]));
    let plan = load_history(&Vec::new(), Some(1));
    assert!(plan.mark_read_first);
    assert!(plan.lines.is_empty());
    let plan = load_history(&vec![2, 7, 2], Some(2));
    assert_eq!(plan.lines, lines(&[(2, true), (7, false), (2, false)]));
}

#[test]
fn loaded_history_is_left_alone() {
    assert!(history_wanted(false, true));
    assert!(!history_wanted(true, true));
    assert!(!history_wanted(false, false));
    assert!(!history_wanted(true, false));
    assert!(nicks_wanted(false, true, true));
    assert!(!nicks_wanted(true, true, true));
    assert!(!nicks_wanted(false, false, true));
    assert!(!nicks_wanted(false, true, false));
}
