//! What each gateway event leads to.
//!
//! Events arrive on threads of the gateway library. The embedding program looks
//! up in the gateway's own cache what an event refers to, asks a `Handler` what
//! is to be done, and submits that to the main thread. An event whose lookup
//! fails is dropped in silence.

use crate::typing::{recorded, TypingEntry, TypingFact, TypingTracker, TYPING_EXPIRY_SECS};
use crate::utils::{buffer_id_for_channel, channel_buffer_name, GuildOrChannel};
use vstd::prelude::*;

verus! {

/// What the gateway's cache knows a channel to be.
#[derive(Clone, Copy, Debug, PartialEq, Eq, Structural)]
pub enum Place {
    /// A conversation with one other user.
    Private,
    /// A conversation of a group of users.
    Group,
    /// A channel of the guild with this number.
    Guild(u64),
    /// Anything else, or nothing: the lookup failed.
    Elsewhere,
}

/// What to do about a message that has arrived.
#[derive(Clone, Copy, Debug, PartialEq, Eq, Structural)]
pub enum MessageAction {
    /// Add the message to the buffer of its conversation.
    Print { notify: bool },
    /// Open a buffer for the private conversation.
    OpenPrivate,
    /// Open a buffer for the group conversation.
    OpenGroup,
    /// Open buffers for the guild and for the channel.
    OpenChannel { guild_id: u64 },
    /// Nothing.
    Nothing,
}

/// What to do about a typing event.
#[derive(Clone, Copy, Debug, PartialEq, Eq, Structural)]
pub enum TypingAction {
    /// Nothing: the event is the user's own, or of a user unknown to the cache.
    Ignore,
    /// Refresh the typing indicator now, and sweep the tracker and refresh
    /// again after this many seconds.
    Refresh { resweep_after: u64 },
}

/// A "user started typing" event as it comes from the gateway.
#[derive(Clone, Copy, Debug, PartialEq, Eq, Structural)]
pub struct TypingStart {
    pub channel_id: u64,
    pub guild_id: Option<u64>,
    pub user_id: u64,
    pub timestamp: u64,
}

/// Whether one of `watched` covers the channel: the channel itself, or the
/// whole guild that it belongs to.
pub open spec fn is_watched(watched: Seq<GuildOrChannel>, guild_id: u64, channel_id: u64) -> bool {
    exists|i: int|
        0 <= i < watched.len() && match #[trigger] watched[i] {
            GuildOrChannel::Channel(_, id) => id == channel_id,
            GuildOrChannel::Guild(id) => id == guild_id,
        }
}

/// What a newly arrived message leads to.
///
/// A message for a conversation that has a buffer is printed there; it
/// notifies unless it is the user's own or the buffer is muted. Without a
/// buffer, a private or group conversation gets one, and so does a guild
/// channel that is watched; the message itself is then not printed.
pub open spec fn message_action(
    watched: Seq<GuildOrChannel>,
    has_buffer: bool,
    muted: bool,
    own: bool,
    place: Place,
    channel_id: u64,
) -> MessageAction {
    if has_buffer {
        MessageAction::Print { notify: !own && !muted }
    } else {
        match place {
            Place::Private => MessageAction::OpenPrivate,
            Place::Group => MessageAction::OpenGroup,
            Place::Guild(guild_id) => if is_watched(watched, guild_id, channel_id) {
                MessageAction::OpenChannel { guild_id }
            } else {
                MessageAction::Nothing
            },
            Place::Elsewhere => MessageAction::Nothing,
        }
    }
}

/// The buffer that holds the messages of a channel, if the cache knows the
/// channel.
pub open spec fn buffer_of(place: Place, channel_id: u64) -> Option<Seq<char>> {
    match place {
        Place::Guild(guild_id) => Some(channel_buffer_name(Some(guild_id), channel_id)),
        Place::Group | Place::Private => Some(channel_buffer_name(None, channel_id)),
        Place::Elsewhere => None,
    }
}

/// Decides what gateway events lead to.
pub struct Handler {
    watched_channels: Vec<GuildOrChannel>,
}

impl Handler {
    /// The guilds and channels for which a buffer is opened when a message
    /// arrives.
    pub closed spec fn watched(&self) -> Seq<GuildOrChannel> {
        self.watched_channels@
    }

    /// A handler that watches `watched_channels`.
    pub fn new(watched_channels: Vec<GuildOrChannel>) -> (handler: Handler)
        ensures
            handler.watched() == watched_channels@,
    {
        Handler { watched_channels }
    }

    /// Whether the channel, or its whole guild, is watched.
    pub fn watches(&self, guild_id: u64, channel_id: u64) -> (b: bool)
        ensures
            b == is_watched(self.watched(), guild_id, channel_id),
    {
        let mut i: usize = 0;
        while i < self.watched_channels.len()
            invariant
                i <= self.watched_channels@.len(),
                forall|k: int|
                    0 <= k < i ==> !(match #[trigger] self.watched_channels@[k] {
                        GuildOrChannel::Channel(_, id) => id == channel_id,
                        GuildOrChannel::Guild(id) => id == guild_id,
                    }),
            decreases self.watched_channels@.len() - i,
        {
            let hit = match self.watched_channels[i] {
                GuildOrChannel::Channel(_, id) => id == channel_id,
                GuildOrChannel::Guild(id) => id == guild_id,
            };
            if hit {
                return true;
            }
            i += 1;
        }
        false
    }

    /// A message has arrived in the channel `channel_id`. `has_buffer` and
    /// `muted` say what the main thread knows of the channel's buffer, `own`
    /// whether the user wrote the message, `place` what the cache knows of the
    /// channel.
    pub fn message(
        &self,
        has_buffer: bool,
        muted: bool,
        own: bool,
        place: Place,
        channel_id: u64,
    ) -> (action: MessageAction)
        ensures
            action == message_action(self.watched(), has_buffer, muted, own, place, channel_id),
    {
        if has_buffer {
            return MessageAction::Print { notify: !own && !muted };
        }
        match place {
            Place::Private => MessageAction::OpenPrivate,
            Place::Group => MessageAction::OpenGroup,
            Place::Guild(guild_id) => {
                if self.watches(guild_id, channel_id) {
                    MessageAction::OpenChannel { guild_id }
                } else {
                    MessageAction::Nothing
                }
            },
            Place::Elsewhere => MessageAction::Nothing,
        }
    }

    /// A message of the channel `channel_id` has been edited: the name of the
    /// buffer in which it is to be replaced.
    pub fn message_update(&self, place: Place, channel_id: u64) -> (buffer: Option<String>)
        ensures
            match buffer {
                Some(name) => buffer_of(place, channel_id) == Some(name@),
                None => buffer_of(place, channel_id) is None,
            },
    {
        match place {
            Place::Guild(guild_id) => Some(buffer_id_for_channel(Some(guild_id), channel_id)),
            Place::Group => Some(buffer_id_for_channel(None, channel_id)),
            Place::Private => Some(buffer_id_for_channel(None, channel_id)),
            Place::Elsewhere => None,
        }
    }

    /// A message of the channel `channel_id` has been deleted: the name of the
    /// buffer from which it is to be removed. Only channels of guilds are
    /// looked up for this.
    pub fn message_delete(&self, place: Place, channel_id: u64) -> (buffer: Option<String>)
        ensures
            match buffer {
                Some(name) => place matches Place::Guild(guild_id) && name@ == channel_buffer_name(
                    Some(guild_id),
                    channel_id,
                ),
                None => !(place is Guild),
            },
    {
        match place {
            Place::Guild(guild_id) => Some(buffer_id_for_channel(Some(guild_id), channel_id)),
            _ => None,
        }
    }

    /// A user has started typing. `cached_name` is the user's name if the cache
    /// knows the user. The event of another, known user is recorded in
    /// `tracker` at time `now`.
    pub fn typing_start(
        &self,
        tracker: &mut TypingTracker,
        event: TypingStart,
        current_user: u64,
        cached_name: Option<String>,
        now: u64,
    ) -> (action: TypingAction)
        ensures
            match cached_name {
                Some(name) if event.user_id != current_user => action == (TypingAction::Refresh {
                    resweep_after: TYPING_EXPIRY_SECS,
                }) && final(tracker)@ == recorded(
                    old(tracker)@,
                    TypingFact {
                        channel_id: event.channel_id,
                        guild_id: event.guild_id,
                        user: event.user_id,
                        user_name: name@,
                        time: event.timestamp,
                    },
                    now,
                ),
                _ => action == TypingAction::Ignore && final(tracker)@ == old(tracker)@,
            },
    {
        match cached_name {
            Some(name) => {
                if event.user_id == current_user {
                    return TypingAction::Ignore;
                }
                tracker.record(
                    TypingEntry {
                        channel_id: event.channel_id,
                        guild_id: event.guild_id,
                        user: event.user_id,
                        user_name: name,
                        time: event.timestamp,
                    },
                    now,
                );
                TypingAction::Refresh { resweep_after: TYPING_EXPIRY_SECS }
            },
            None => TypingAction::Ignore,
        }
    }
}

/// The status line for a new channel.
pub fn channel_created_notice(kind: &str, name: &str) -> (notice: String)
    ensures
        notice@ == "New "@ + kind@ + " channel `"@ + name@ + "` created"@,
{
    let mut notice = String::new();
    notice.append("New ");
    notice.append(kind);
    notice.append(" channel `");
    notice.append(name);
    notice.append("` created");
    assert(notice@ =~= "New "@ + kind@ + " channel `"@ + name@ + "` created"@);
    notice
}

/// The status line for a channel that is gone.
pub fn channel_deleted_notice(name: &str) -> (notice: String)
    ensures
        notice@ == "Channel `"@ + name@ + "` deleted"@,
{
    let mut notice = String::new();
    notice.append("Channel `");
    notice.append(name);
    notice.append("` deleted");
    assert(notice@ =~= "Channel `"@ + name@ + "` deleted"@);
    notice
}

/// The status line for a channel or category whose name has changed; none
/// if the name is what it was.
pub fn channel_renamed_notice(old_name: &str, new_name: &str) -> (notice: Option<String>)
    ensures
        old_name@ == new_name@ ==> notice is None,
        old_name@ != new_name@ ==> notice is Some && notice->0@ == "Category `"@ + old_name@
            + "` renamed to `"@ + new_name@ + "`"@,
{
    let old_owned = old_name.to_owned();
    let new_owned = new_name.to_owned();
    if old_owned == new_owned {
        return None;
    }
    let mut notice = String::new();
    notice.append("Category `");
    notice.append(old_name);
    notice.append("` renamed to `");
    notice.append(new_name);
    notice.append("`");
    assert(notice@ =~= "Category `"@ + old_name@ + "` renamed to `"@ + new_name@ + "`"@);
    Some(notice)
}

} // verus!
