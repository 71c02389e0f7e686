//! Identifiers: the names under which guilds and channels are stored in the
//! configuration and under which their buffers are known to the host.

use crate::numbers::{
    decimal, lemma_decimal_round_trip, lemma_print_then_parse, parse_u64, parsed_u64,
    push_decimal,
};
use crate::text::{chars_of, find_from, first_index, lemma_first_index_is, push_char};
use vstd::prelude::*;

verus! {

/// A whole guild, or one channel, which may belong to a guild.
#[derive(Debug, Clone, Copy, PartialEq, Eq)]
pub enum GuildOrChannel {
    Guild(u64),
    Channel(Option<u64>, u64),
}

impl GuildOrChannel {
    /// Whether this is the guild `guild_id`.
    pub fn is_guild(&self, guild_id: u64) -> (b: bool)
        ensures
            b == (*self == GuildOrChannel::Guild(guild_id)),
    {
        match self {
            GuildOrChannel::Guild(id) => *id == guild_id,
            GuildOrChannel::Channel(_, _) => false,
        }
    }

    /// Whether this is the channel `channel_id`, in whatever guild.
    pub fn is_channel(&self, channel_id: u64) -> (b: bool)
        ensures
            b == (*self matches GuildOrChannel::Channel(_, id) && id == channel_id),
    {
        match self {
            GuildOrChannel::Guild(_) => false,
            GuildOrChannel::Channel(_, id) => *id == channel_id,
        }
    }
}

/// The name that the configuration stores for a channel.
pub open spec fn unique_id_text(guild: Option<u64>, channel: u64) -> Seq<char> {
    match guild {
        Some(g) => seq!['G'] + decimal(g as nat) + seq!['C'] + decimal(channel as nat),
        None => seq!['C'] + decimal(channel as nat),
    }
}

/// The name that the configuration stores for a channel: `G<guild>C<channel>`,
/// or `C<channel>` for a channel outside any guild.
pub fn unique_id(guild: Option<u64>, channel: u64) -> (out: String)
    ensures
        out@ == unique_id_text(guild, channel),
{
    let mut out = String::new();
    match guild {
        Some(g) => {
            push_char(&mut out, 'G');
            push_decimal(&mut out, g);
        },
        None => {},
    }
    push_char(&mut out, 'C');
    push_decimal(&mut out, channel);
    assert(out@ =~= unique_id_text(guild, channel));
    out
}

/// The name that the configuration stores for a whole guild: `G<guild>`.
pub fn unique_guild_id(guild: u64) -> (out: String)
    ensures
        out@ == seq!['G'] + decimal(guild as nat),
{
    let mut out = String::new();
    push_char(&mut out, 'G');
    push_decimal(&mut out, guild);
    assert(out@ =~= seq!['G'] + decimal(guild as nat));
    out
}

/// The name of a guild's buffer: the guild's number.
pub fn buffer_id_for_guild(id: u64) -> (out: String)
    ensures
        out@ == decimal(id as nat),
{
    let mut out = String::new();
    push_decimal(&mut out, id);
    assert(out@ =~= decimal(id as nat));
    out
}

/// The name of a channel's buffer.
pub open spec fn channel_buffer_name(guild_id: Option<u64>, channel_id: u64) -> Seq<char> {
    match guild_id {
        Some(g) => decimal(g as nat) + seq!['.'] + decimal(channel_id as nat),
        None => "Private."@ + decimal(channel_id as nat),
    }
}

/// The name of a channel's buffer: `<guild>.<channel>`, or `Private.<channel>`
/// for a channel outside any guild.
pub fn buffer_id_for_channel(guild_id: Option<u64>, channel_id: u64) -> (out: String)
    ensures
        out@ == channel_buffer_name(guild_id, channel_id),
{
    let mut out = String::new();
    match guild_id {
        Some(g) => {
            push_decimal(&mut out, g);
            push_char(&mut out, '.');
        },
        None => {
            out.append("Private.");
        },
    }
    push_decimal(&mut out, channel_id);
    assert(out@ =~= channel_buffer_name(guild_id, channel_id));
    out
}

/// Whether `s` begins like a user mention and ends in a character that takes
/// more than one byte. The gateway library cannot read such a text.
pub open spec fn splits_a_char(s: Seq<char>) -> bool {
    s.len() >= 3 && s[0] == '<' && s[1] == '@' && s[2] != '&' && s.last() as u32 >= 0x80
}

/// The number inside a mention: `<@&N>` for a role, `<@!N` or `<@N` followed
/// by any one character for a user, `<#N>` for a channel.
pub open spec fn mention_id(s: Seq<char>) -> Option<u64> {
    let n = s.len() as int;
    if n >= 3 && s[0] == '<' && s[1] == '@' && s[2] == '&' {
        if s.last() == '>' {
            parsed_u64(s.subrange(3, n - 1))
        } else {
            None
        }
    } else if n >= 3 && s[0] == '<' && s[1] == '@' && s[2] == '!' {
        if n >= 4 {
            parsed_u64(s.subrange(3, n - 1))
        } else {
            None
        }
    } else if n >= 2 && s[0] == '<' && s[1] == '@' {
        if n >= 4 {
            parsed_u64(s.subrange(2, n - 1))
        } else {
            None
        }
    } else if n >= 2 && s[0] == '<' && s[1] == '#' {
        if n >= 3 && s.last() == '>' {
            parsed_u64(s.subrange(2, n - 1))
        } else {
            None
        }
    } else {
        None
    }
}

/// The number that `s` stands for as an identifier: the number inside a
/// mention, or else the number that `s` spells.
pub open spec fn mention_or_number(s: Seq<char>) -> Option<u64> {
    match mention_id(s) {
        Some(id) => Some(id),
        None => parsed_u64(s),
    }
}

/// `serenity::model::id::ChannelId::from_str`, with the identifier taken out of
/// its wrapper. The gateway library first reads `s` as a mention and, failing
/// that, as a plain number. It slices a user mention one byte before its end
/// and panics where that byte lies inside a character; such texts are
/// excluded.
#[verifier::external_body]
fn channel_id_from_str(s: &str) -> (id: Option<u64>)
    requires
        !splits_a_char(s@),
    ensures
        id == mention_or_number(s@),
{
    match s.parse::<serenity::model::id::ChannelId>() {
        Ok(id) => Some(id.0),
        Err(_) => None,
    }
}

/// Reads an identifier from `s`. A text that the gateway library cannot read
/// stands for none.
pub open spec fn read_id(s: Seq<char>) -> Option<u64> {
    if splits_a_char(s) {
        None
    } else {
        mention_or_number(s)
    }
}

/// `serenity::model::id::UserId::from_str`, with the identifier taken out of
/// its wrapper. It reads and fails as the same function of a channel
/// identifier does.
#[verifier::external_body]
fn user_id_from_str(s: &str) -> (id: Option<u64>)
    requires
        !splits_a_char(s@),
    ensures
        id == mention_or_number(s@),
{
    match s.parse::<serenity::model::id::UserId>() {
        Ok(id) => Some(id.0),
        Err(_) => None,
    }
}

/// Reads the user number in the part of `text` between `from` and `to`.
pub(crate) fn user_part(text: &str, chars: &Vec<char>, from: usize, to: usize) -> (user: Option<u64>)
    requires
        chars@ == text@,
        from <= to <= chars@.len(),
    ensures
        user == read_id(text@.subrange(from as int, to as int)),
{
    let ghost part = text@.subrange(from as int, to as int);
    if to - from >= 3 && chars[from] == '<' && chars[from + 1] == '@' && chars[from + 2] != '&'
        && chars[to - 1] as u32 >= 0x80 {
        assert(part[0] == chars@[from as int] && part[1] == chars@[from + 1] && part[2]
            == chars@[from + 2] && part.last() == chars@[to - 1]);
        return None;
    }
    proof {
        if to - from >= 3 {
            assert(part[0] == chars@[from as int] && part[1] == chars@[from + 1] && part[2]
                == chars@[from + 2] && part.last() == chars@[to - 1]);
        }
    }
    let piece = text.substring_char(from, to);
    user_id_from_str(piece)
}

/// What a stored name stands for.
///
/// `C` and a channel stand for a channel outside any guild. Otherwise the
/// first character is passed over, whatever it is, and what follows is a guild
/// number, alone or followed by `C` and a channel. The empty name, and a name
/// that neither begins with `C` nor with an ASCII character, stand for nothing.
pub open spec fn parsed_id(id: Seq<char>) -> Option<GuildOrChannel> {
    let at = first_index(id, 'C');
    if id.len() == 0 {
        None
    } else if at == 0 {
        match read_id(id.skip(1)) {
            Some(channel) => Some(GuildOrChannel::Channel(None, channel)),
            None => None,
        }
    } else if id[0] as u32 >= 0x80 {
        None
    } else if at < id.len() {
        match (parsed_u64(id.subrange(1, at)), read_id(id.skip(at + 1))) {
            (Some(guild), Some(channel)) => Some(GuildOrChannel::Channel(Some(guild), channel)),
            _ => None,
        }
    } else {
        match parsed_u64(id.skip(1)) {
            Some(guild) => Some(GuildOrChannel::Guild(guild)),
            None => None,
        }
    }
}

/// A stored name is read back as what it was made from: a channel with its
/// guild, a channel outside any guild, or a whole guild.
pub proof fn lemma_stored_names_read_back(guild: Option<u64>, channel: u64)
    ensures
        parsed_id(unique_id_text(guild, channel)) == Some(GuildOrChannel::Channel(guild, channel)),
        guild matches Some(g) ==> parsed_id(seq!['G'] + decimal(g as nat)) == Some(
            GuildOrChannel::Guild(g),
        ),
{
    let number = decimal(channel as nat);
    lemma_decimal_round_trip(channel as nat);
    lemma_print_then_parse(channel);
    assert(crate::numbers::is_digit(number[0]));
    assert(!splits_a_char(number));
    assert(mention_id(number) is None);
    assert(read_id(number) == Some(channel));
    match guild {
        None => {
            let id = unique_id_text(guild, channel);
            assert(id[0] == 'C');
            assert(id.skip(1) =~= number);
        },
        Some(g) => {
            let prefix = decimal(g as nat);
            lemma_decimal_round_trip(g as nat);
            lemma_print_then_parse(g);
            let id = unique_id_text(guild, channel);
            let at = 1 + prefix.len() as int;
            assert(id[0] == 'G');
            assert(id[at] == 'C');
            assert forall|k: int| 0 <= k < at implies id[k] != 'C' by {
                if k > 0 {
                    assert(id[k] == prefix[k - 1]);
                    assert(crate::numbers::is_digit(prefix[k - 1]));
                }
            }
            lemma_first_index_is(id, 'C', at);
            assert(id.subrange(1, at) =~= prefix);
            assert(id.skip(at + 1) =~= number);
            let alone = seq!['G'] + prefix;
            assert(alone[0] == 'G');
            assert forall|k: int| 0 <= k < alone.len() implies alone[k] != 'C' by {
                if k > 0 {
                    assert(alone[k] == prefix[k - 1]);
                    assert(crate::numbers::is_digit(prefix[k - 1]));
                }
            }
            lemma_first_index_is(alone, 'C', alone.len() as int);
            assert(alone.skip(1) =~= prefix);
        },
    }
}

/// Reads the channel number in the part of `id` from `from` on.
fn channel_part(id: &str, chars: &Vec<char>, from: usize) -> (channel: Option<u64>)
    requires
        chars@ == id@,
        from <= chars@.len(),
    ensures
        channel == read_id(id@.skip(from as int)),
{
    let n: usize = chars.len();
    let ghost part = id@.skip(from as int);
    assert(part =~= id@.subrange(from as int, n as int));
    if n - from >= 3 && chars[from] == '<' && chars[from + 1] == '@' && chars[from + 2] != '&'
        && chars[n - 1] as u32 >= 0x80 {
        return None;
    }
    let text = id.substring_char(from, n);
    channel_id_from_str(text)
}

/// Reads a stored name.
pub fn parse_id(id: &str) -> (parsed: Option<GuildOrChannel>)
    ensures
        parsed == parsed_id(id@),
{
    let chars = chars_of(id);
    let n: usize = chars.len();
    if n == 0 {
        return None;
    }
    let at = find_from(&chars, 0, 'C');
    assert(chars@.skip(0) =~= chars@);
    if at == 0 {
        return match channel_part(id, &chars, 1) {
            Some(channel) => Some(GuildOrChannel::Channel(None, channel)),
            None => None,
        };
    }
    if chars[0] as u32 >= 0x80 {
        return None;
    }
    if at < n {
        let guild = parse_u64(&chars, 1, at);
        let channel = channel_part(id, &chars, at + 1);
        match (guild, channel) {
            (Some(guild), Some(channel)) => Some(GuildOrChannel::Channel(Some(guild), channel)),
            _ => None,
        }
    } else {
        assert(chars@.subrange(1, n as int) =~= id@.skip(1));
        match parse_u64(&chars, 1, n) {
            Some(guild) => Some(GuildOrChannel::Guild(guild)),
            None => None,
        }
    }
}

/// The name of a field without the index in front of it: what follows the
/// first bar, or all of `field` where there is no bar.
pub fn strip_indexer_field(field: &str) -> (name: &str)
    ensures
        name@ == if first_index(field@, '|') < field@.len() {
            field@.skip(first_index(field@, '|') + 1)
        } else {
            field@
        },
{
    let chars = chars_of(field);
    let at = find_from(&chars, 0, '|');
    assert(chars@.skip(0) =~= chars@);
    if at < chars.len() {
        assert(field@.subrange(at + 1, field@.len() as int) =~= field@.skip(at + 1));
        field.substring_char(at + 1, chars.len())
    } else {
        field
    }
}

} // verus!
