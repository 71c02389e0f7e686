use weecord::search::{
    channel_completions, completion_guild, holds_text, matches_query, name_matches,
    resolve_channel_id, same_folded, search_channel, search_guild, ChannelInfo, ChannelType,
    GuildInfo, ResolveError,
};

fn guilds() -> Vec<GuildInfo> {
    vec![
        GuildInfo {
            id: 10,
            name: " My Guild ".to_string(),
            channels: vec![
                ChannelInfo { id: 100, name: "General".to_string(), kind: ChannelType::Voice },
                ChannelInfo { id: 101, name: "general".to_string(), kind: ChannelType::Text },
                ChannelInfo { id: 102, name: "off topic".to_string(), kind: ChannelType::News },
                ChannelInfo { id: 103, name: "cat".to_string(), kind: ChannelType::Category },
            ],
        },
        GuildInfo { id: 20, name: "\u{c9}COLE".to_string(), channels: Vec::new() },
        GuildInfo { id: 30, name: "my_guild".to_string(), channels: Vec::new() },
    ]
}

#[test]
fn guild_by_name_or_number() {
    let guilds = guilds();
    assert_eq!(search_guild(&guilds, "my_guild"), Some(0));
    assert_eq!(search_guild(&guilds, "MY_GUILD"), Some(0));
    assert_eq!(search_guild(&guilds, "\u{e9}cole"), Some(1));
    assert_eq!(search_guild(&guilds, "30"), Some(2));
    assert_eq!(search_guild(&guilds, "My Guild"), None);
    assert_eq!(search_guild(&guilds, "other"), None);
    assert_eq!(search_guild(&Vec::new(), "my_guild"), None);
}

#[test]
fn channel_must_show_text() {
    let guilds = guilds();
    assert_eq!(search_channel(&guilds, "my_guild", "GENERAL"), Some((0, 1)));
    assert_eq!(search_channel(&guilds, "10", "100"), None);
    assert_eq!(search_channel(&guilds, "10", "off_topic"), Some((0, 2)));
    assert_eq!(search_channel(&guilds, "10", "cat"), None);
    assert_eq!(search_channel(&guilds, "nowhere", "general"), None);
    assert_eq!(search_channel(&guilds, "20", "general"), None);
}

#[test]
fn matching_after_folding() {
    assert!(name_matches("abc", "abc", 1, "ABC"));
    assert!(name_matches("abc", "abd", 12, "12"));
    assert!(!name_matches("abc", "abd", 12, "012"));
    assert!(!name_matches("abc", "abd", 12, "abd"));
}

#[test]
fn resolving_names() {
    let guilds = guilds();
    assert_eq!(resolve_channel_id(Some(&guilds), "my_guild", Some("general")), Ok("G10C101".to_string()));
    assert_eq!(resolve_channel_id(Some(&guilds), "my_guild", None), Ok("G10".to_string()));
    assert_eq!(resolve_channel_id(Some(&guilds), "my_guild", Some("nope")), Err(ResolveError::NoChannel));
    assert_eq!(resolve_channel_id(Some(&guilds), "nope", Some("general")), Err(ResolveError::NoChannel));
    assert_eq!(resolve_channel_id(Some(&guilds), "nope", None), Err(ResolveError::NoGuild));
    assert_eq!(resolve_channel_id(None, "my_guild", None), Err(ResolveError::NotConnected));
    assert_eq!(ResolveError::NoChannel.notice(), Some("Unable to find server and channel"));
    assert_eq!(ResolveError::NoGuild.notice(), Some("Unable to find server"));
    assert_eq!(ResolveError::NotConnected.notice(), None);
}

#[test]
fn guild_in_front_of_the_cursor() {
    let guilds = guilds();
    assert_eq!(completion_guild(&guilds, "MY_guild"), Some(0));
    assert_eq!(completion_guild(&guilds, "\u{e9}cole"), Some(1));
    assert_eq!(completion_guild(&guilds, "10"), None);
    assert_eq!(completion_guild(&guilds, "nope"), None);
    assert!(same_folded("a", "a"));
    assert!(!same_folded("a", "A"));
}

#[test]
fn channels_on_offer() {
    let guilds = guilds();
    assert_eq!(
        channel_completions(&guilds[0].channels, &vec![true, true, true, true]),
        vec!["general", "off_topic"]
    );
    assert_eq!(channel_completions(&guilds[0].channels, &vec![true, false, true, true]), vec!["off_topic"]);
    assert_eq!(channel_completions(&guilds[0].channels, &vec![true, true]), vec!["general"]);
    assert!(channel_completions(&guilds[0].channels, &Vec::new()).is_empty());
    assert!(channel_completions(&Vec::new(), &vec![true]).is_empty());
}

#[test]
fn queries_match_inside_names() {
    assert!(matches_query("Annabel", "NAB"));
    assert!(matches_query("Annabel", ""));
    assert!(matches_query("", ""));
    assert!(!matches_query("Annabel", "bell"));
    assert!(!matches_query("", "a"));
    assert!(holds_text("abc", "bc"));
    assert!(!holds_text("abc", "BC"));
}
