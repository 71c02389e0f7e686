use weecord::command::{add_item, remove_item};
use weecord::config::{parse_place_list, Config};
use weecord::utils::GuildOrChannel;

#[test]
fn add_item_sorts_and_deduplicates() {
    assert_eq!(add_item("", "G1"), "G1");
    assert_eq!(add_item("G2,G1", "G3"), "G1,G2,G3");
    assert_eq!(add_item("G1,G3", "G2"), "G1,G2,G3");
    assert_eq!(add_item("G1,G2", "G1"), "G1,G2");
    assert_eq!(add_item("G2,,G2,G1,", "G0"), "G0,G1,G2");
    assert_eq!(add_item("b,a,B,ab,", "aa"), "B,a,aa,ab,b");
    assert_eq!(add_item("a", ""), ",a");
    assert_eq!(add_item("\u{e9},z", "y"), "y,z,\u{e9}");
}

#[test]
fn add_item_agrees_with_sort_and_dedup() {
    for (items, new) in [("G10C2,G1C3,C9", "G1C20"), ("x,x,x", "x"), ("b,a", "c"), (",,", "q")] {
        let mut expected: Vec<&str> = items.split(',').filter(|i| !i.is_empty()).collect();
        expected.push(new);
        expected.sort_unstable();
        expected.dedup();
        assert_eq!(add_item(items, new), expected.join(","));
    }
}

#[test]
fn remove_item_keeps_the_order_of_the_rest() {
    assert_eq!(remove_item("G3,G1,G2", "G1"), "G3,G2");
    assert_eq!(remove_item("G1,G2,G1", "G1"), "G2");
    assert_eq!(remove_item("G1,,G2,", "G9"), "G1,G2");
    assert_eq!(remove_item("G1", "G1"), "");
    assert_eq!(remove_item("", "G1"), "");
    assert_eq!(remove_item("G11,G1", "G1"), "G11");
}

#[test]
fn place_lists() {
    assert_eq!(
        parse_place_list("G1,C2,,G3C4,nonsense,G5"),
        vec![
            GuildOrChannel::Guild(1),
            GuildOrChannel::Channel(None, 2),
            GuildOrChannel::Channel(Some(3), 4),
            GuildOrChannel::Guild(5),
        ]
    );
    assert_eq!(parse_place_list(""), vec![]);
    let config = Config {
        token: "t".to_string(),
        watched_channels: "G7".to_string(),
        autojoin_channels: "C8,G9C10".to_string(),
        autostart: false,
        use_presence: false,
        send_typing_events: false,
        typing_messages: false,
        irc_mode: true,
        message_fetch_count: 25,
        user_typing_list_max: 3,
        user_typing_list_expanded: false,
    };
    assert_eq!(config.watched_channels(), vec![GuildOrChannel::Guild(7)]);
    assert_eq!(
        config.autojoin_channels(),
        vec![GuildOrChannel::Channel(None, 8), GuildOrChannel::Channel(Some(9), 10)]
    );
}
