use weecord::bar_items::{full_name, typing_indicator};
use weecord::buffers::{create_buffers, modify_buffer_lines};
use weecord::command::{
    discord_fmt, expand_home, format_option_change, game, place_args, run_command, status,
    status_named, token, Activity, Args, Command, OptionChanged,
};
use weecord::nicklist::OnlineStatus;
use weecord::typing::{TypingEntry, TypingTracker};
use weecord::utils::strip_indexer_field;

#[test]
fn full_names() {
    assert_eq!(full_name(Some("guild"), Some("chan")), "guild:chan");
    assert_eq!(full_name(Some("guild"), None), "guild");
    assert_eq!(full_name(None, Some("chan")), "chan");
    assert_eq!(full_name(None, None), "");
}

#[test]
fn typing_indicators() {
    let mut tracker = TypingTracker::new();
    for (user, name) in [(1, "a"), (2, "b"), (3, "c")] {
        tracker.record(
            TypingEntry { channel_id: 7, guild_id: None, user, user_name: name.to_string(), time: 5 },
            5,
        );
    }
    assert_eq!(typing_indicator(&tracker, None, None, 3, true), "");
    assert_eq!(typing_indicator(&tracker, Some(7), None, 3, false), "typing: a, b, c");
    assert_eq!(typing_indicator(&tracker, Some(7), None, 2, false), "typing: a, b, ...");
    assert_eq!(typing_indicator(&tracker, Some(7), None, 3, true), "a, b and c are typing");
    assert_eq!(typing_indicator(&tracker, Some(7), None, 2, true), "Several people are typing...");
    assert_eq!(typing_indicator(&tracker, Some(7), None, -1, false), "typing: a, b, c");
    assert_eq!(typing_indicator(&tracker, Some(7), Some(1), 3, false), "");
}

#[test]
fn patched_lines() {
    assert_eq!(modify_buffer_lines("a\nb\nc", 3), vec!["a", "b", "c"]);
    assert_eq!(modify_buffer_lines("a\nb\nc\nd", 2), vec!["a", "b | c | d"]);
    assert_eq!(modify_buffer_lines("a\nb", 4), vec!["a", "b", "", ""]);
    assert_eq!(modify_buffer_lines("a\nb", 1), vec!["a | b"]);
    assert_eq!(modify_buffer_lines("", 2), vec!["", ""]);
    assert_eq!(modify_buffer_lines("a\n", 3), vec!["a", "", ""]);
    assert!(modify_buffer_lines("a\nb", 0).is_empty());
}

#[test]
fn patched_lines_agree_with_splitn() {
    for (content, count) in [("a\nb\n\nc\n", 3usize), ("\n\n\n", 2), ("x", 5), ("a\nb\nc", 3)] {
        let expected: Vec<String> = content
            .splitn(count, '\n')
            .map(|l| l.replace("\n", " | "))
            .chain(std::iter::repeat("".to_owned()))
            .take(count)
            .collect();
        assert_eq!(modify_buffer_lines(content, count), expected);
    }
}

#[test]
fn guilds_in_the_order_of_their_buffers() {
    assert_eq!(create_buffers(&vec![1, 2, 3, 4], &vec![3, 9, 1, 3]), vec![4, 2, 3, 1]);
    assert_eq!(create_buffers(&vec![1, 2], &Vec::new()), vec![2, 1]);
    assert_eq!(create_buffers(&vec![1, 2], &vec![2, 1]), vec![2, 1]);
    assert_eq!(create_buffers(&Vec::new(), &vec![2, 1]), Vec::<u64>::new());
}

#[test]
fn indexer_fields() {
    assert_eq!(strip_indexer_field("3|name"), "name");
    assert_eq!(strip_indexer_field("name"), "name");
    assert_eq!(strip_indexer_field("a|b|c"), "b|c");
    assert_eq!(strip_indexer_field("|"), "");
    assert_eq!(strip_indexer_field(""), "");
}

#[test]
fn commands() {
    for (line, command) in [
        ("/discord", Command::Missing),
        ("/discord connect", Command::Connect),
        ("/discord disconnect", Command::Disconnect),
        ("/discord irc-mode", Command::IrcMode),
        ("/discord discord-mode", Command::DiscordMode),
        ("/discord token abc", Command::Token),
        ("/discord autostart", Command::Autostart),
        ("/discord noautostart", Command::NoAutostart),
        ("/discord query bob", Command::Query),
        ("/discord join a b", Command::Join),
        ("/discord watch a", Command::Watch),
        ("/discord nowatch a", Command::NoWatch),
        ("/discord watched", Command::Watched),
        ("/discord autojoin a", Command::Autojoin),
        ("/discord noautojoin a", Command::NoAutojoin),
        ("/discord autojoined", Command::Autojoined),
        ("/discord status idle", Command::Status),
        ("/discord pins", Command::Pins),
        ("/discord pinned", Command::Pins),
        ("/discord game x", Command::Game),
        ("/discord upload f", Command::Upload),
        ("/discord me waves", Command::Format),
        ("/discord tableflip", Command::Format),
        ("/discord unflip", Command::Format),
        ("/discord shrug", Command::Format),
        ("/discord spoiler x", Command::Format),
        ("/discord rehistory", Command::Rehistory),
        ("/discord Connect", Command::Unknown),
        ("/discord nonsense", Command::Unknown),
    ] {
        assert_eq!(run_command(&Args::from_cmd(line)), command, "{}", line);
    }
}

#[test]
fn fixed_forms() {
    assert_eq!(discord_fmt("me", "waves"), Some("_waves_".to_string()));
    assert_eq!(discord_fmt("tableflip", "no"), Some("no (╯°□°）╯︵ ┻━┻".to_string()));
    assert_eq!(discord_fmt("unflip", "ok"), Some("ok ┬─┬ ノ( ゜-゜ノ)".to_string()));
    assert_eq!(discord_fmt("shrug", "eh"), Some("eh ¯\\_(ツ)_/¯".to_string()));
    assert_eq!(discord_fmt("spoiler", "x"), Some("||x||".to_string()));
    assert_eq!(discord_fmt("other", "x"), None);
}

#[test]
fn statuses() {
    assert_eq!(status(&Args::from_cmd("/discord status")), Some(OnlineStatus::Online));
    assert_eq!(status(&Args::from_cmd("/discord status IDLE")), Some(OnlineStatus::Idle));
    assert_eq!(status(&Args::from_cmd("/discord status Offline")), Some(OnlineStatus::Invisible));
    assert_eq!(status(&Args::from_cmd("/discord status invisible")), Some(OnlineStatus::Invisible));
    assert_eq!(status(&Args::from_cmd("/discord status dnd")), Some(OnlineStatus::DoNotDisturb));
    assert_eq!(status(&Args::from_cmd("/discord status online now")), Some(OnlineStatus::Online));
    assert_eq!(status(&Args::from_cmd("/discord status away")), None);
    assert_eq!(status_named("idle"), Some(OnlineStatus::Idle));
    assert_eq!(status_named("IDLE"), None);
}

#[test]
fn option_changes() {
    assert_eq!(
        format_option_change("irc_mode", "true", Some("false"), OptionChanged::Changed),
        "option irc_mode successfully changed from false to true"
    );
    assert_eq!(
        format_option_change("o", "v", None, OptionChanged::Changed),
        "option o successfully set to v"
    );
    assert_eq!(
        format_option_change("o", "v", None, OptionChanged::Unchanged),
        "option o successfully set to v"
    );
    assert_eq!(
        format_option_change("o", "v", Some("b"), OptionChanged::Unchanged),
        "option o already contained b"
    );
    assert_eq!(format_option_change("o", "v", Some("b"), OptionChanged::NotFound), "option o not found");
    assert_eq!(format_option_change("o", "v", None, OptionChanged::NotFound), "option o not found");
    assert_eq!(
        format_option_change("o", "v", Some("b"), OptionChanged::Error),
        "error when setting option o to v (was b)"
    );
    assert_eq!(format_option_change("o", "v", None, OptionChanged::Error), "error when setting option o to v");
}

#[test]
fn tokens() {
    assert_eq!(token(&Args::from_cmd("/discord token \"abc\"")), Some("abc".to_string()));
    assert_eq!(token(&Args::from_cmd("/discord token \"\"a\"b\"\"")), Some("a\"b".to_string()));
    assert_eq!(token(&Args::from_cmd("/discord token abc def")), Some("abc def".to_string()));
    assert_eq!(token(&Args::from_cmd("/discord token \"\"")), Some("".to_string()));
    assert_eq!(token(&Args::from_cmd("/discord token")), None);
}

#[test]
fn home_directories() {
    assert_eq!(expand_home("~/f.txt", Some("/home/ann")), "/home/ann/f.txt");
    assert_eq!(expand_home("~/f.txt", None), "./f.txt");
    assert_eq!(expand_home("~/", Some("/h")), "/h/");
    assert_eq!(expand_home("~f", Some("/h")), "~f");
    assert_eq!(expand_home("/abs/~/f", Some("/h")), "/abs/~/f");
    assert_eq!(expand_home("", Some("/h")), "");
}

#[test]
fn activities() {
    assert_eq!(game(&Args::from_cmd("/discord game")), Activity::Clear);
    assert_eq!(game(&Args::from_cmd("/discord game chess")), Activity::Playing("chess".to_string()));
    assert_eq!(game(&Args::from_cmd("/discord game playing chess now")), Activity::Playing("chess now".to_string()));
    assert_eq!(game(&Args::from_cmd("/discord game play go")), Activity::Playing("go".to_string()));
    assert_eq!(game(&Args::from_cmd("/discord game listening jazz")), Activity::Listening("jazz".to_string()));
    assert_eq!(game(&Args::from_cmd("/discord game watching tv")), Activity::Watching("tv".to_string()));
    assert_eq!(game(&Args::from_cmd("/discord game watch tv")), Activity::Watching("tv".to_string()));
    assert_eq!(game(&Args::from_cmd("/discord game eating cake")), Activity::Unknown("eating".to_string()));
    assert_eq!(game(&Args::from_cmd("/discord game play ")), Activity::Playing("".to_string()));
}

#[test]
fn named_places() {
    assert_eq!(place_args(&Args::from_cmd("/discord watch guild chan")), Some(("guild", Some("chan"))));
    assert_eq!(place_args(&Args::from_cmd("/discord watch  guild   chan x")), Some(("guild", Some("chan"))));
    assert_eq!(place_args(&Args::from_cmd("/discord watch guild")), Some(("guild", None)));
    assert_eq!(place_args(&Args::from_cmd("/discord watch  ")), None);
    assert_eq!(place_args(&Args::from_cmd("/discord watch")), None);
}
