//! The options of the program, as plain values.

use crate::command::entries;
use crate::text::{chars_of, split_on, split_ranges};
use crate::utils::{parse_id, parsed_id, GuildOrChannel};
use vstd::prelude::*;

verus! {

/// The options of the program.
#[derive(Debug)]
pub struct Config {
    /// The token with which the program signs in.
    pub token: String,
    /// The guilds and channels for which a buffer opens when a message
    /// arrives, as a comma-separated list of stored names.
    pub watched_channels: String,
    /// The guilds and channels whose buffers open on connecting, as a
    /// comma-separated list of stored names.
    pub autojoin_channels: String,
    pub autostart: bool,
    pub use_presence: bool,
    pub send_typing_events: bool,
    pub typing_messages: bool,
    pub irc_mode: bool,
    pub message_fetch_count: i32,
    pub user_typing_list_max: i32,
    pub user_typing_list_expanded: bool,
}

/// What the stored names among `names` stand for, in order; a name that
/// stands for nothing is passed over.
pub open spec fn places(names: Seq<Seq<char>>) -> Seq<GuildOrChannel>
    decreases names.len(),
{
    if names.len() == 0 {
        Seq::empty()
    } else {
        match parsed_id(names.last()) {
            Some(place) => places(names.drop_last()).push(place),
            None => places(names.drop_last()),
        }
    }
}

/// What a comma-separated list of stored names stands for.
pub open spec fn place_list(value: Seq<char>) -> Seq<GuildOrChannel> {
    places(entries(split_on(value, ',')))
}

/// Reads a comma-separated list of stored names.
pub fn parse_place_list(value: &str) -> (list: Vec<GuildOrChannel>)
    ensures
        list@ == place_list(value@),
{
    let chars = chars_of(value);
    let ranges = split_ranges(&chars, ',');
    let ghost parts = split_on(chars@, ',');
    let mut list: Vec<GuildOrChannel> = Vec::new();
    let mut k: usize = 0;
    assert(parts.take(0) =~= Seq::<Seq<char>>::empty());
    while k < ranges.len()
        invariant
            k <= ranges@.len(),
            chars@ == value@,
            ranges@.len() == parts.len(),
            forall|i: int|
                0 <= i < ranges@.len() ==> (#[trigger] ranges@[i]).0 <= ranges@[i].1 <= chars@.len()
                    && chars@.subrange(ranges@[i].0 as int, ranges@[i].1 as int) == parts[i],
            list@ == places(entries(parts.take(k as int))),
        decreases ranges@.len() - k,
    {
        let (from, to) = ranges[k];
        assert(parts.take(k + 1).drop_last() =~= parts.take(k as int));
        assert(parts.take(k + 1).last() == parts[k as int]);
        if to > from {
            let name = value.substring_char(from, to);
            let ghost found = entries(parts.take(k as int));
            assert(entries(parts.take(k + 1)).drop_last() =~= found);
            match parse_id(name) {
                Some(place) => {
                    list.push(place);
                },
                None => {},
            }
        }
        k += 1;
    }
    assert(parts.take(k as int) =~= parts);
    list
}

impl Config {
    /// The guilds and channels whose buffers open on connecting.
    pub fn autojoin_channels(&self) -> (list: Vec<GuildOrChannel>)
        ensures
            list@ == place_list(self.autojoin_channels@),
    {
        parse_place_list(self.autojoin_channels.as_str())
    }

    /// The guilds and channels for which a buffer opens when a message
    /// arrives.
    pub fn watched_channels(&self) -> (list: Vec<GuildOrChannel>)
        ensures
            list@ == place_list(self.watched_channels@),
    {
        parse_place_list(self.watched_channels.as_str())
    }
}

} // verus!
