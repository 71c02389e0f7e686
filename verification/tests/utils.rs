use weecord::numbers::{decimal_string, parse_u64};
use weecord::utils::{
    buffer_id_for_channel, buffer_id_for_guild, parse_id, unique_guild_id, unique_id,
    GuildOrChannel,
};

fn number(text: &str) -> Option<u64> {
    let chars: Vec<char> = text.chars().collect();
    parse_u64(&chars, 0, chars.len())
}

#[test]
fn decimal_text() {
    assert_eq!(decimal_string(0), "0");
    assert_eq!(decimal_string(7), "7");
    assert_eq!(decimal_string(10), "10");
    assert_eq!(decimal_string(1234567890), "1234567890");
    assert_eq!(decimal_string(u64::MAX), "18446744073709551615");
}

#[test]
fn numbers_are_read_as_std_reads_them() {
    for text in ["0", "007", "+5", "18446744073709551615", "18446744073709551616", "", "+", "-1",
        "1 ", " 1", "12a", "++1", "99999999999999999999999", "\u{661}"]
    {
        assert_eq!(number(text), text.parse::<u64>().ok(), "{:?}", text);
    }
    let chars: Vec<char> = "ab123cd".chars().collect();
    assert_eq!(parse_u64(&chars, 2, 5), Some(123));
    assert_eq!(parse_u64(&chars, 2, 2), None);
}

#[test]
fn stored_names() {
    assert_eq!(unique_id(Some(12), 345), "G12C345");
    assert_eq!(unique_id(None, 345), "C345");
    assert_eq!(unique_guild_id(12), "G12");
    assert_eq!(buffer_id_for_guild(12), "12");
    assert_eq!(buffer_id_for_channel(Some(12), 345), "12.345");
    assert_eq!(buffer_id_for_channel(None, 345), "Private.345");
}

#[test]
fn stored_names_are_read_back() {
    assert_eq!(parse_id("G12C345"), Some(GuildOrChannel::Channel(Some(12), 345)));
    assert_eq!(parse_id("C345"), Some(GuildOrChannel::Channel(None, 345)));
    assert_eq!(parse_id("G12"), Some(GuildOrChannel::Guild(12)));
    assert_eq!(parse_id(&unique_id(Some(u64::MAX), 0)), Some(GuildOrChannel::Channel(Some(u64::MAX), 0)));
    assert_eq!(parse_id("x12"), Some(GuildOrChannel::Guild(12)));
}

#[test]
fn channel_part_may_be_a_mention() {
    assert_eq!(parse_id("C<#345>"), Some(GuildOrChannel::Channel(None, 345)));
    assert_eq!(parse_id("G1C<#345>"), Some(GuildOrChannel::Channel(Some(1), 345)));
    assert_eq!(parse_id("C<@345>"), Some(GuildOrChannel::Channel(None, 345)));
    assert_eq!(parse_id("C<@!345x"), Some(GuildOrChannel::Channel(None, 345)));
    assert_eq!(parse_id("C<@&345>"), Some(GuildOrChannel::Channel(None, 345)));
    assert_eq!(parse_id("C<#345"), None);
    assert_eq!(parse_id("C<@&345"), None);
    assert_eq!(parse_id("C<@x"), None);
    assert_eq!(parse_id("C<#>"), None);
    assert_eq!(parse_id("C+345"), Some(GuildOrChannel::Channel(None, 345)));
}

#[test]
fn names_that_stand_for_nothing() {
    for id in ["", "G", "C", "GC", "G1C", "GC1", "G1C2C3", "Gx", "G-1", "\u{e9}12", "C<@12\u{e9}",
        "C<@\u{e9}", "G99999999999999999999"]
    {
        assert_eq!(parse_id(id), None, "{:?}", id);
    }
}

#[test]
fn guild_or_channel_comparisons() {
    assert!(GuildOrChannel::Guild(1).is_guild(1));
    assert!(!GuildOrChannel::Guild(1).is_guild(2));
    assert!(!GuildOrChannel::Guild(1).is_channel(1));
    assert!(GuildOrChannel::Channel(Some(1), 2).is_channel(2));
    assert!(GuildOrChannel::Channel(None, 2).is_channel(2));
    assert!(!GuildOrChannel::Channel(Some(1), 2).is_channel(1));
    assert!(!GuildOrChannel::Channel(Some(1), 2).is_guild(1));
}
