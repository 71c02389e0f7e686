use weecord::event_handler::{
    channel_created_notice, channel_deleted_notice, channel_renamed_notice, Handler, MessageAction,
    Place, TypingAction, TypingStart,
};
use weecord::typing::TypingTracker;
use weecord::utils::GuildOrChannel;

fn handler() -> Handler {
    Handler::new(vec![GuildOrChannel::Guild(1), GuildOrChannel::Channel(Some(2), 20), GuildOrChannel::Channel(None, 30)])
}

#[test]
fn watched_places() {
    let h = handler();
    assert!(h.watches(1, 99));
    assert!(h.watches(2, 20));
    assert!(h.watches(5, 20));
    assert!(h.watches(5, 30));
    assert!(!h.watches(2, 21));
    assert!(!Handler::new(Vec::new()).watches(1, 1));
}

#[test]
fn messages_for_known_buffers_are_printed() {
    let h = handler();
    assert_eq!(h.message(true, false, false, Place::Guild(9), 9), MessageAction::Print { notify: true });
    assert_eq!(h.message(true, true, false, Place::Private, 9), MessageAction::Print { notify: false });
    assert_eq!(h.message(true, false, true, Place::Elsewhere, 9), MessageAction::Print { notify: false });
}

#[test]
fn messages_without_buffer_open_one_where_wanted() {
    let h = handler();
    assert_eq!(h.message(false, false, false, Place::Private, 9), MessageAction::OpenPrivate);
    assert_eq!(h.message(false, false, false, Place::Group, 9), MessageAction::OpenGroup);
    assert_eq!(h.message(false, false, false, Place::Guild(1), 9), MessageAction::OpenChannel { guild_id: 1 });
    assert_eq!(h.message(false, false, false, Place::Guild(2), 20), MessageAction::OpenChannel { guild_id: 2 });
    assert_eq!(h.message(false, false, false, Place::Guild(2), 21), MessageAction::Nothing);
    assert_eq!(h.message(false, false, false, Place::Elsewhere, 20), MessageAction::Nothing);
}

#[test]
fn edited_and_deleted_messages_find_their_buffer() {
    let h = handler();
    assert_eq!(h.message_update(Place::Guild(1), 5), Some("1.5".to_string()));
    assert_eq!(h.message_update(Place::Group, 5), Some("Private.5".to_string()));
    assert_eq!(h.message_update(Place::Private, 5), Some("Private.5".to_string()));
    assert_eq!(h.message_update(Place::Elsewhere, 5), None);
    assert_eq!(h.message_delete(Place::Guild(1), 5), Some("1.5".to_string()));
    assert_eq!(h.message_delete(Place::Private, 5), None);
    assert_eq!(h.message_delete(Place::Group, 5), None);
    assert_eq!(h.message_delete(Place::Elsewhere, 5), None);
}

#[test]
fn typing_of_others_is_recorded() {
    let h = handler();
    let mut tracker = TypingTracker::new();
    let event = TypingStart { channel_id: 7, guild_id: Some(1), user_id: 5, timestamp: 100 };
    assert_eq!(
        h.typing_start(&mut tracker, event, 9, Some("eve".to_string()), 101),
        TypingAction::Refresh { resweep_after: 10 }
    );
    assert_eq!(tracker.len(), 1);
    assert_eq!(tracker.get(0).unwrap().user_name, "eve");
    assert_eq!(tracker.get(0).unwrap().time, 100);
    assert_eq!(h.typing_start(&mut tracker, event, 5, Some("eve".to_string()), 101), TypingAction::Ignore);
    assert_eq!(h.typing_start(&mut tracker, event, 9, None, 101), TypingAction::Ignore);
    assert_eq!(tracker.len(), 1);
    let late = TypingStart { channel_id: 7, guild_id: None, user_id: 6, timestamp: 200 };
    assert_eq!(
        h.typing_start(&mut tracker, late, 9, Some("dan".to_string()), 200),
        TypingAction::Refresh { resweep_after: 10 }
    );
    assert_eq!(tracker.len(), 1);
    assert_eq!(tracker.get(0).unwrap().user, 6);
}

#[test]
fn status_lines() {
    assert_eq!(channel_created_notice("text", "general"), "New text channel `general` created");
    assert_eq!(channel_deleted_notice("general"), "Channel `general` deleted");
    assert_eq!(channel_renamed_notice("a", "b"), Some("Category `a` renamed to `b`".to_string()));
    assert_eq!(channel_renamed_notice("a", "a"), None);
}
