use weecord::flatten::flatten_guilds;
use weecord::hook::GuildChannels;
use weecord::utils::GuildOrChannel;

fn entries(items: &[GuildOrChannel], lists: &[(u64, Vec<u64>)]) -> Vec<(Option<u64>, Vec<u64>)> {
    let lists: Vec<GuildChannels> =
        lists.iter().map(|(guild_id, channels)| GuildChannels { guild_id: *guild_id, channels: channels.clone() }).collect();
    flatten_guilds(&items.to_vec(), &lists).into_iter().collect()
}

#[test]
fn channels_are_grouped_by_guild_in_order_of_first_occurrence() {
    let items = [
        GuildOrChannel::Channel(Some(2), 20),
        GuildOrChannel::Channel(None, 5),
        GuildOrChannel::Channel(Some(1), 10),
        GuildOrChannel::Channel(Some(2), 21),
        GuildOrChannel::Channel(None, 6),
    ];
    assert_eq!(
        entries(&items, &[]),
        vec![(Some(2), vec![20, 21]), (None, vec![5, 6]), (Some(1), vec![10])]
    );
}

#[test]
fn whole_guilds_bring_their_channels() {
    let items = [
        GuildOrChannel::Channel(Some(1), 19),
        GuildOrChannel::Guild(1),
        GuildOrChannel::Guild(3),
        GuildOrChannel::Guild(2),
        GuildOrChannel::Channel(Some(3), 30),
    ];
    let lists = [(1, vec![11, 10]), (2, vec![20]), (1, vec![99])];
    assert_eq!(
        entries(&items, &lists),
        vec![(Some(1), vec![19, 11, 10]), (Some(3), vec![30]), (Some(2), vec![20])]
    );
}

#[test]
fn nothing_gives_an_empty_map() {
    assert!(flatten_guilds(&Vec::new(), &Vec::new()).is_empty());
    assert_eq!(entries(&[GuildOrChannel::Guild(7)], &[]), vec![(Some(7), vec![])]);
}
