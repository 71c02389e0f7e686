//! What the bar items of the host show for a buffer.

use crate::typing::{
    expanded_line, expanded_typing_list, names_of, shown, terse_line, terse_typing_list, typists,
    TypingTracker,
};
use vstd::prelude::*;

verus! {

/// The full name of a buffer: guild and channel with a colon between, or the
/// one of them that there is.
pub fn full_name(guild_name: Option<&str>, channel_name: Option<&str>) -> (name: String)
    ensures
        name@ == match (guild_name, channel_name) {
            (Some(guild), Some(channel)) => guild@ + seq![':'] + channel@,
            (Some(only), None) | (None, Some(only)) => only@,
            (None, None) => Seq::empty(),
        },
{
    match (guild_name, channel_name) {
        (Some(guild), Some(channel)) => {
            let mut name = String::new();
            name.append(guild);
            crate::text::push_char(&mut name, ':');
            name.append(channel);
            assert(name@ =~= guild@ + seq![':'] + channel@);
            name
        },
        (Some(only), None) => only.to_owned(),
        (None, Some(only)) => only.to_owned(),
        (None, None) => String::new(),
    }
}

/// The most names that the typing indicator shows, from the option that
/// holds it. A negative number sets no limit.
pub open spec fn name_limit(max_users: i32) -> usize {
    if max_users < 0 {
        usize::MAX
    } else {
        max_users as usize
    }
}

/// The typing indicator of a buffer: empty for a buffer without a channel,
/// else the expanded or the terse line for the channel.
pub fn typing_indicator(
    tracker: &TypingTracker,
    channel_id: Option<u64>,
    guild_id: Option<u64>,
    max_users: i32,
    expanded: bool,
) -> (line: String)
    ensures
        line@ == match channel_id {
            None => Seq::empty(),
            Some(channel) => {
                let head = shown(names_of(typists(tracker@, channel, guild_id)), name_limit(max_users));
                let more = typists(tracker@, channel, guild_id).len() > name_limit(max_users);
                if expanded {
                    expanded_line(head, more)
                } else {
                    terse_line(head, more)
                }
            },
        },
{
    let channel = match channel_id {
        Some(channel) => channel,
        None => {
            return String::new();
        },
    };
    let limit: usize = if max_users < 0 {
        usize::MAX
    } else {
        max_users as usize
    };
    if expanded {
        expanded_typing_list(tracker, channel, guild_id, limit)
    } else {
        terse_typing_list(tracker, channel, guild_id, limit)
    }
}

} // verus!
