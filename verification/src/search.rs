//! Finding guilds and channels by the names that the user types.

use crate::numbers::{decimal, decimal_string};
use crate::parsing::{arg_stripped, weechat_arg_strip};
use crate::utils::{unique_guild_id, unique_id, unique_id_text};
use vstd::prelude::*;

verus! {

/// What a channel is for.
#[derive(Clone, Copy, Debug, PartialEq, Eq, Structural)]
pub enum ChannelType {
    Text,
    Private,
    Voice,
    Group,
    Category,
    News,
    Store,
}

/// A channel of a guild, as the search looks at it.
#[derive(Debug)]
pub struct ChannelInfo {
    pub id: u64,
    pub name: String,
    pub kind: ChannelType,
}

/// A guild with its channels, as the search looks at it.
#[derive(Debug)]
pub struct GuildInfo {
    pub id: u64,
    pub name: String,
    pub channels: Vec<ChannelInfo>,
}

/// `s` in lower case, as `str::to_lowercase` of the standard library gives it.
pub uninterp spec fn lowercased(s: Seq<char>) -> Seq<char>;

/// `str::to_lowercase`: the lower-case form of `s` by the rules of Unicode,
/// which depends on `s` alone.
#[verifier::external_body]
pub(crate) fn to_lowercase(s: &str) -> (out: String)
    ensures
        out@ == lowercased(s@),
{
    s.to_lowercase()
}

/// Whether text can be shown in a channel of this kind.
pub open spec fn is_textual(kind: ChannelType) -> bool {
    kind is Text || kind is Private || kind is Group || kind is News
}

/// Whether `wanted` names the thing called `name` with the number `id`: it is
/// the number, or it is the name as a command argument, whatever the case of
/// the letters.
pub open spec fn names(wanted: Seq<char>, name: Seq<char>, id: u64) -> bool {
    lowercased(arg_stripped(name)) == lowercased(wanted) || decimal(id as nat) == wanted
}

/// Whether a name matches, given both in lower case already: `folded_name` is
/// the lower-case form of the name as a command argument, `folded_wanted` that
/// of `wanted`.
pub fn name_matches(folded_name: &str, folded_wanted: &str, id: u64, wanted: &str) -> (b: bool)
    ensures
        b == (folded_name@ == folded_wanted@ || decimal(id as nat) == wanted@),
{
    let a = folded_name.to_owned();
    let b = folded_wanted.to_owned();
    if a == b {
        return true;
    }
    let number = decimal_string(id);
    let w = wanted.to_owned();
    number == w
}

fn is_named(wanted: &str, name: &str, id: u64) -> (b: bool)
    ensures
        b == names(wanted@, name@, id),
{
    let stripped = weechat_arg_strip(name);
    let folded_name = to_lowercase(stripped.as_str());
    let folded_wanted = to_lowercase(wanted);
    name_matches(folded_name.as_str(), folded_wanted.as_str(), id, wanted)
}

/// The position of the first guild that `guild_name` names.
pub open spec fn found_guild(guilds: Seq<GuildInfo>, guild_name: Seq<char>) -> Option<int>
    decreases guilds.len(),
{
    if guilds.len() == 0 {
        None
    } else {
        match found_guild(guilds.drop_last(), guild_name) {
            Some(i) => Some(i),
            None => if names(guild_name, guilds.last().name@, guilds.last().id) {
                Some(guilds.len() - 1)
            } else {
                None
            },
        }
    }
}

/// The position of the first channel that `channel_name` names and that text
/// can be shown in.
pub open spec fn found_channel(channels: Seq<ChannelInfo>, channel_name: Seq<char>) -> Option<int>
    decreases channels.len(),
{
    if channels.len() == 0 {
        None
    } else {
        match found_channel(channels.drop_last(), channel_name) {
            Some(i) => Some(i),
            None => if names(channel_name, channels.last().name@, channels.last().id)
                && is_textual(channels.last().kind) {
                Some(channels.len() - 1)
            } else {
                None
            },
        }
    }
}

proof fn lemma_found_guild_grows(guilds: Seq<GuildInfo>, guild_name: Seq<char>, n: int)
    requires
        0 <= n <= guilds.len(),
        found_guild(guilds.take(n), guild_name) is Some,
    ensures
        found_guild(guilds, guild_name) == found_guild(guilds.take(n), guild_name),
    decreases guilds.len() - n,
{
    if n < guilds.len() {
        assert(guilds.take(n + 1).drop_last() =~= guilds.take(n));
        lemma_found_guild_grows(guilds, guild_name, n + 1);
    } else {
        assert(guilds.take(n) =~= guilds);
    }
}

proof fn lemma_found_channel_grows(channels: Seq<ChannelInfo>, channel_name: Seq<char>, n: int)
    requires
        0 <= n <= channels.len(),
        found_channel(channels.take(n), channel_name) is Some,
    ensures
        found_channel(channels, channel_name) == found_channel(channels.take(n), channel_name),
    decreases channels.len() - n,
{
    if n < channels.len() {
        assert(channels.take(n + 1).drop_last() =~= channels.take(n));
        lemma_found_channel_grows(channels, channel_name, n + 1);
    } else {
        assert(channels.take(n) =~= channels);
    }
}

/// Finds the guild that `guild_name` names: its position in `guilds`.
pub fn search_guild(guilds: &Vec<GuildInfo>, guild_name: &str) -> (at: Option<usize>)
    ensures
        match at {
            Some(i) => found_guild(guilds@, guild_name@) == Some(i as int) && i < guilds@.len(),
            None => found_guild(guilds@, guild_name@) is None,
        },
{
    let mut i: usize = 0;
    while i < guilds.len()
        invariant
            i <= guilds@.len(),
            found_guild(guilds@.take(i as int), guild_name@) is None,
        decreases guilds@.len() - i,
    {
        assert(guilds@.take(i + 1).drop_last() =~= guilds@.take(i as int));
        assert(guilds@.take(i + 1).last() == guilds@[i as int]);
        if is_named(guild_name, guilds[i].name.as_str(), guilds[i].id) {
            proof {
                lemma_found_guild_grows(guilds@, guild_name@, i + 1);
            }
            return Some(i);
        }
        i += 1;
    }
    assert(guilds@.take(i as int) =~= guilds@);
    None
}

/// Finds the channel that `channel_name` names in the guild that `guild_name`
/// names: the positions of the guild in `guilds` and of the channel among the
/// guild's channels.
pub fn search_channel(guilds: &Vec<GuildInfo>, guild_name: &str, channel_name: &str) -> (at: Option<
    (usize, usize),
>)
    ensures
        match at {
            Some((g, c)) => found_guild(guilds@, guild_name@) == Some(g as int) && g < guilds@.len()
                && found_channel(guilds@[g as int].channels@, channel_name@) == Some(c as int) && c
                < guilds@[g as int].channels@.len(),
            None => match found_guild(guilds@, guild_name@) {
                Some(g) => found_channel(guilds@[g].channels@, channel_name@) is None,
                None => true,
            },
        },
{
    let g = match search_guild(guilds, guild_name) {
        Some(g) => g,
        None => {
            return None;
        },
    };
    let channels = &guilds[g].channels;
    let mut i: usize = 0;
    while i < channels.len()
        invariant
            i <= channels@.len(),
            g < guilds@.len(),
            found_guild(guilds@, guild_name@) == Some(g as int),
            channels@ == guilds@[g as int].channels@,
            found_channel(channels@.take(i as int), channel_name@) is None,
        decreases channels@.len() - i,
    {
        assert(channels@.take(i + 1).drop_last() =~= channels@.take(i as int));
        assert(channels@.take(i + 1).last() == channels@[i as int]);
        if is_named(channel_name, channels[i].name.as_str(), channels[i].id) {
            let textual = match channels[i].kind {
                ChannelType::Text | ChannelType::Private | ChannelType::Group | ChannelType::News => true,
                _ => false,
            };
            if textual {
                proof {
                    lemma_found_channel_grows(channels@, channel_name@, i + 1);
                }
                return Some((g, i));
            }
        }
        i += 1;
    }
    assert(channels@.take(i as int) =~= channels@);
    None
}

/// Why a name could not be resolved.
#[derive(Clone, Copy, Debug, PartialEq, Eq, Structural)]
pub enum ResolveError {
    /// The program is not connected.
    NotConnected,
    /// No such channel in such a guild.
    NoChannel,
    /// No such guild.
    NoGuild,
}

impl ResolveError {
    /// What the user is told.
    pub fn notice(&self) -> (text: Option<&'static str>)
        ensures
            match *self {
                ResolveError::NotConnected => text is None,
                ResolveError::NoChannel => text is Some && text->0@
                    == "Unable to find server and channel"@,
                ResolveError::NoGuild => text is Some && text->0@ == "Unable to find server"@,
            },
    {
        match self {
            ResolveError::NotConnected => None,
            ResolveError::NoChannel => Some("Unable to find server and channel"),
            ResolveError::NoGuild => Some("Unable to find server"),
        }
    }
}

/// The stored name of what the user has named, or why there is none.
pub open spec fn resolved(
    guilds: Option<Seq<GuildInfo>>,
    guild_name: Seq<char>,
    channel_name: Option<Seq<char>>,
) -> Result<Seq<char>, ResolveError> {
    match guilds {
        None => Err(ResolveError::NotConnected),
        Some(guilds) => match found_guild(guilds, guild_name) {
            None => Err(
                if channel_name is Some {
                    ResolveError::NoChannel
                } else {
                    ResolveError::NoGuild
                },
            ),
            Some(g) => match channel_name {
                None => Ok(seq!['G'] + decimal(guilds[g].id as nat)),
                Some(channel_name) => match found_channel(guilds[g].channels@, channel_name) {
                    Some(c) => Ok(unique_id_text(Some(guilds[g].id), guilds[g].channels@[c].id)),
                    None => Err(ResolveError::NoChannel),
                },
            },
        },
    }
}

/// Resolves what the user has named to the name under which it is stored: a
/// channel of a guild, or a whole guild where no channel is named. `guilds`
/// are the guilds known while the program is connected.
pub fn resolve_channel_id(
    guilds: Option<&Vec<GuildInfo>>,
    guild_name: &str,
    channel_name: Option<&str>,
) -> (res: Result<String, ResolveError>)
    ensures
        match (res, resolved(
            match guilds {
                Some(g) => Some(g@),
                None => None,
            },
            guild_name@,
            match channel_name {
                Some(c) => Some(c@),
                None => None,
            },
        )) {
            (Ok(id), Ok(text)) => id@ == text,
            (Err(e), Err(why)) => e == why,
            _ => false,
        },
{
    let guilds = match guilds {
        Some(guilds) => guilds,
        None => {
            return Err(ResolveError::NotConnected);
        },
    };
    match channel_name {
        Some(channel_name) => match search_channel(guilds, guild_name, channel_name) {
            Some((g, c)) => Ok(unique_id(Some(guilds[g].id), guilds[g].channels[c].id)),
            None => Err(ResolveError::NoChannel),
        },
        None => match search_guild(guilds, guild_name) {
            Some(g) => Ok(unique_guild_id(guilds[g].id)),
            None => Err(ResolveError::NoGuild),
        },
    }
}

/// Whether `word` is the name `name` as a command argument, whatever the
/// case of the letters.
pub open spec fn completes(word: Seq<char>, name: Seq<char>) -> bool {
    lowercased(arg_stripped(name)) == lowercased(word)
}

/// The position of the first guild whose name, as a command argument, is
/// `word`.
pub open spec fn completed_guild(guilds: Seq<GuildInfo>, word: Seq<char>) -> Option<int>
    decreases guilds.len(),
{
    if guilds.len() == 0 {
        None
    } else if completes(word, guilds[0].name@) {
        Some(0)
    } else {
        match completed_guild(guilds.drop_first(), word) {
            Some(i) => Some(i + 1),
            None => None,
        }
    }
}

/// Whether two texts are the same, given both in lower case already.
pub fn same_folded(folded_a: &str, folded_b: &str) -> (b: bool)
    ensures
        b == (folded_a@ == folded_b@),
{
    let a = folded_a.to_owned();
    let b = folded_b.to_owned();
    a == b
}

/// Finds the guild that the word in front of the one being completed names:
/// its position in `guilds`.
pub fn completion_guild(guilds: &Vec<GuildInfo>, word: &str) -> (at: Option<usize>)
    ensures
        match at {
            Some(i) => completed_guild(guilds@, word@) == Some(i as int) && i < guilds@.len(),
            None => completed_guild(guilds@, word@) is None,
        },
{
    let folded_word = to_lowercase(word);
    let mut i: usize = 0;
    assert(guilds@.skip(0) =~= guilds@);
    while i < guilds.len()
        invariant
            i <= guilds@.len(),
            folded_word@ == lowercased(word@),
            match completed_guild(guilds@.skip(i as int), word@) {
                Some(k) => completed_guild(guilds@, word@) == Some(k + i),
                None => completed_guild(guilds@, word@) is None,
            },
        decreases guilds@.len() - i,
    {
        assert(guilds@.skip(i as int)[0] == guilds@[i as int]);
        assert(guilds@.skip(i as int).drop_first() =~= guilds@.skip(i + 1));
        let stripped = weechat_arg_strip(guilds[i].name.as_str());
        let folded_name = to_lowercase(stripped.as_str());
        if same_folded(folded_name.as_str(), folded_word.as_str()) {
            return Some(i);
        }
        i += 1;
    }
    None
}

/// The names that complete a channel of a guild: those of the channels that
/// show text and that the user may read, as command arguments, in the order
/// of the channels. `readable` says of each channel whether the user may read
/// it; a channel of which it says nothing counts as unreadable.
pub open spec fn completions(channels: Seq<ChannelInfo>, readable: Seq<bool>) -> Seq<Seq<char>>
    decreases channels.len(),
{
    if channels.len() == 0 {
        Seq::empty()
    } else {
        let before = completions(channels.drop_last(), readable);
        let at = channels.len() - 1;
        if is_textual(channels.last().kind) && at < readable.len() && readable[at] {
            before.push(arg_stripped(channels.last().name@))
        } else {
            before
        }
    }
}

/// Lists the names that complete a channel of a guild.
pub fn channel_completions(channels: &Vec<ChannelInfo>, readable: &Vec<bool>) -> (names: Vec<String>)
    ensures
        crate::text::texts(names@) == completions(channels@, readable@),
{
    let mut names: Vec<String> = Vec::new();
    let mut i: usize = 0;
    assert(channels@.take(0) =~= Seq::<ChannelInfo>::empty());
    while i < channels.len()
        invariant
            i <= channels@.len(),
            crate::text::texts(names@) == completions(channels@.take(i as int), readable@),
        decreases channels@.len() - i,
    {
        assert(channels@.take(i + 1).drop_last() =~= channels@.take(i as int));
        assert(channels@.take(i + 1).last() == channels@[i as int]);
        let textual = match channels[i].kind {
            ChannelType::Text | ChannelType::Private | ChannelType::Group | ChannelType::News => true,
            _ => false,
        };
        if textual && i < readable.len() && readable[i] {
            let name = weechat_arg_strip(channels[i].name.as_str());
            let ghost before = names@;
            names.push(name);
            assert(crate::text::texts(names@) =~= crate::text::texts(before).push(name@));
        }
        i += 1;
    }
    assert(channels@.take(i as int) =~= channels@);
    names
}

/// Whether `folded_name` holds `folded_wanted` somewhere inside it.
pub fn holds_text(folded_name: &str, folded_wanted: &str) -> (b: bool)
    ensures
        b == crate::text::find_sub(folded_name@, folded_wanted@).is_some(),
{
    let name = crate::text::chars_of(folded_name);
    let wanted = crate::text::chars_of(folded_wanted);
    assert(name@.skip(0) =~= name@);
    crate::text::find_sub_from(&name, 0, &wanted).is_some()
}

/// Whether a conversation called `name` is one that a query for `wanted`
/// asks for: the name holds what is wanted, whatever the case of the
/// letters.
pub fn matches_query(name: &str, wanted: &str) -> (b: bool)
    ensures
        b == crate::text::find_sub(lowercased(name@), lowercased(wanted@)).is_some(),
{
    let folded_name = to_lowercase(name);
    let folded_wanted = to_lowercase(wanted);
    holds_text(folded_name.as_str(), folded_wanted.as_str())
}

} // verus!
