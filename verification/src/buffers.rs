//! How buffers are set up and filled: what a channel's buffer is called and
//! shows in its title, whether it is marked as holding something new, and
//! which lines of a page of history count as read.

use crate::search::ChannelType;
use crate::text::{
    chars_of, find_from, first_index, join, joined, replace_all, replaced_all, slice_of, string_of,
    texts,
};
use vstd::prelude::*;

verus! {

/// How the buffer of a guild channel is set up.
#[derive(Debug, PartialEq, Eq)]
pub struct ChannelBuffer {
    /// What the host is told the buffer is: `private` or `channel`.
    pub kind: &'static str,
    pub title: String,
    /// Whether the buffer is put on the host's list of buffers with something
    /// new in them.
    pub hotlist: bool,
    pub muted: bool,
}

/// The title of a channel's buffer: the name, the topic behind it if there is
/// one, and a note if the channel is muted.
pub open spec fn channel_title(name: Seq<char>, topic: Option<Seq<char>>, muted: bool) -> Seq<char> {
    let base = match topic {
        Some(topic) if topic.len() > 0 => name + " | "@ + topic,
        _ => name,
    };
    if muted {
        base + " (muted)"@
    } else {
        base
    }
}

/// Whether a channel holds a message that has not been read: what was read
/// last is not what came last.
pub open spec fn is_unread(last_read: Option<u64>, last_message: Option<u64>) -> bool {
    last_read != last_message
}

/// Whether a buffer is opened for a channel of this kind.
pub open spec fn has_buffer_kind(kind: ChannelType) -> bool {
    !(kind is Category || kind is Voice || kind is Store)
}

/// Decides whether `last_read` and `last_message` differ.
pub fn has_unread(last_read: Option<u64>, last_message: Option<u64>) -> (b: bool)
    ensures
        b == is_unread(last_read, last_message),
{
    match (last_read, last_message) {
        (Some(a), Some(b)) => a != b,
        (None, None) => false,
        _ => true,
    }
}

/// Plans the buffer of a guild channel; none for a channel that gets no
/// buffer.
///
/// `may_read_history` is the user's permission to read the channel's history
/// where it could be found out. A channel whose history the user may not read
/// gets no buffer, nor does a category, a voice channel or a store.
pub fn create_buffer_from_channel(
    may_read_history: Option<bool>,
    kind: ChannelType,
    name: &str,
    topic: Option<&str>,
    last_read: Option<u64>,
    last_message: Option<u64>,
    muted: bool,
) -> (plan: Option<ChannelBuffer>)
    ensures
        (may_read_history == Some(false) || !has_buffer_kind(kind)) ==> plan is None,
        !(may_read_history == Some(false) || !has_buffer_kind(kind)) ==> plan is Some && plan->0.kind@
            == (if kind is Private {
            "private"@
        } else {
            "channel"@
        }) && plan->0.title@ == channel_title(
            name@,
            match topic {
                Some(t) => Some(t@),
                None => None,
            },
            muted,
        ) && plan->0.hotlist == (is_unread(last_read, last_message) && !muted) && plan->0.muted
            == muted,
{
    match may_read_history {
        Some(false) => {
            return None;
        },
        _ => {},
    }
    let kind: &'static str = match kind {
        ChannelType::Category | ChannelType::Voice | ChannelType::Store => {
            return None;
        },
        ChannelType::Private => "private",
        ChannelType::Group | ChannelType::Text | ChannelType::News => "channel",
    };
    let mut title = String::new();
    title.append(name);
    match topic {
        Some(topic) => {
            if !topic.is_empty() {
                title.append(" | ");
                title.append(topic);
            }
        },
        None => {},
    }
    if muted {
        title.append(" (muted)");
    }
    assert(title@ =~= channel_title(
        name@,
        match topic {
            Some(t) => Some(t@),
            None => None,
        },
        muted,
    ));
    Some(ChannelBuffer { kind, title, hotlist: has_unread(last_read, last_message) && !muted, muted })
}

/// The title of the buffer of a private or group conversation: who it is
/// with.
pub fn conversation_title(recipients: &Vec<String>) -> (title: String)
    ensures
        title@ == "DM with "@ + joined(texts(recipients@), ", "@),
{
    let names = join(recipients, ", ");
    let mut title = String::new();
    title.append("DM with ");
    title.append(names.as_str());
    assert(title@ =~= "DM with "@ + joined(texts(recipients@), ", "@));
    title
}

/// Whether a buffer is muted, from what the host holds under `muted` for it.
pub fn buffer_is_muted(muted: Option<&str>) -> (b: bool)
    ensures
        b == (muted matches Some(v) && v@ == seq!['1']),
{
    match muted {
        Some(v) => {
            let chars = crate::text::chars_of(v);
            if chars.len() == 1 && chars[0] == '1' {
                assert(chars@ =~= seq!['1']);
                true
            } else {
                false
            }
        },
        None => false,
    }
}

/// Whether the history of a buffer is to be loaded: it has not been loaded
/// before, and the buffer belongs to a channel. A buffer whose history is
/// loaded is left as it is: nothing is cleared, nothing is fetched.
pub open spec fn wants_history(loaded: bool, has_channel: bool) -> bool {
    !loaded && has_channel
}

/// Decides whether the history of a buffer is to be loaded.
pub fn history_wanted(loaded: bool, has_channel: bool) -> (b: bool)
    ensures
        b == wants_history(loaded, has_channel),
{
    !loaded && has_channel
}

/// Whether the nick list of a buffer is to be loaded: it has not been loaded
/// before, and the buffer belongs to a channel of a guild.
pub open spec fn wants_nicks(loaded: bool, has_guild: bool, has_channel: bool) -> bool {
    !loaded && has_guild && has_channel
}

/// Decides whether the nick list of a buffer is to be loaded.
pub fn nicks_wanted(loaded: bool, has_guild: bool, has_channel: bool) -> (b: bool)
    ensures
        b == wants_nicks(loaded, has_guild, has_channel),
{
    !loaded && has_guild && has_channel
}

/// One line of a page of history.
#[derive(Clone, Copy, Debug, PartialEq, Eq, Structural)]
pub struct HistoryLine {
    /// The message to print.
    pub id: u64,
    /// Whether the buffer is marked as read once the line is printed.
    pub mark_read: bool,
}

/// How a page of history is shown.
#[derive(Debug, PartialEq, Eq)]
pub struct HistoryPlan {
    /// Whether the buffer is marked as read before anything is printed.
    pub mark_read_first: bool,
    /// The lines, in the order in which they are printed.
    pub lines: Vec<HistoryLine>,
}

/// Whether one of `ids` is `id`.
pub open spec fn holds_id(ids: Seq<u64>, id: u64) -> bool {
    exists|i: int| 0 <= i < ids.len() && ids[i] == id
}

/// The lines of a page of history. `newest_first` are the messages of the
/// page as the gateway hands them out; they are printed oldest first. Where
/// the page holds the message that was read last, the buffer is marked as read
/// after each line up to and including that message.
pub open spec fn history_lines(newest_first: Seq<u64>, last_read: Option<u64>) -> Seq<HistoryLine> {
    let printed = newest_first.reverse();
    Seq::new(
        printed.len(),
        |i: int|
            HistoryLine {
                id: printed[i],
                mark_read: match last_read {
                    Some(last) => holds_id(printed, last) && !holds_id(printed.take(i), last),
                    None => false,
                },
            },
    )
}

/// Whether the buffer is marked as read before a page of history is printed:
/// where something was read before, and it is not on the page.
pub open spec fn history_read_first(newest_first: Seq<u64>, last_read: Option<u64>) -> bool {
    match last_read {
        Some(last) => !holds_id(newest_first.reverse(), last),
        None => false,
    }
}

/// Plans how a page of history is shown.
pub fn load_history(newest_first: &Vec<u64>, last_read: Option<u64>) -> (plan: HistoryPlan)
    ensures
        plan.lines@ == history_lines(newest_first@, last_read),
        plan.mark_read_first == history_read_first(newest_first@, last_read),
{
    let n: usize = newest_first.len();
    let ghost printed = newest_first@.reverse();
    let mut on_page = false;
    match last_read {
        Some(last) => {
            let mut i: usize = 0;
            while i < n
                invariant
                    i <= n == newest_first@.len(),
                    printed == newest_first@.reverse(),
                    on_page == exists|k: int| n - i <= k < n && printed[k] == last,
                decreases n - i,
            {
                assert(printed[n - 1 - i] == newest_first@[i as int]);
                if newest_first[i] == last {
                    on_page = true;
                }
                i += 1;
            }
            assert(on_page == holds_id(printed, last));
        },
        None => {},
    }
    let mut lines: Vec<HistoryLine> = Vec::new();
    let mut backlog = on_page;
    let mut k: usize = 0;
    while k < n
        invariant
            k <= n == newest_first@.len(),
            printed == newest_first@.reverse(),
            last_read matches Some(last) ==> on_page == holds_id(printed, last),
            last_read is None ==> !on_page,
            lines@ == history_lines(newest_first@, last_read).take(k as int),
            backlog == (on_page && (last_read matches Some(last) && !holds_id(
                printed.take(k as int),
                last,
            ))),
        decreases n - k,
    {
        let id = newest_first[n - 1 - k];
        assert(printed[k as int] == id);
        let ghost before = lines@;
        lines.push(HistoryLine { id, mark_read: backlog });
        assert(lines@ =~= history_lines(newest_first@, last_read).take(k + 1));
        match last_read {
            Some(last) => {
                if id == last {
                    proof {
                        let wide = printed.take(k + 1);
                        assert(wide[k as int] == last);
                    }
                    backlog = false;
                } else {
                    proof {
                        let wide = printed.take(k + 1);
                        let narrow = printed.take(k as int);
                        if holds_id(wide, last) {
                            let j = choose|j: int| 0 <= j < wide.len() && wide[j] == last;
                            assert(narrow[j] == last);
                        }
                        if holds_id(narrow, last) {
                            let j = choose|j: int| 0 <= j < narrow.len() && narrow[j] == last;
                            assert(wide[j] == last);
                        }
                    }
                }
            },
            None => {},
        }
        k += 1;
    }
    assert(history_lines(newest_first@, last_read).take(n as int) =~= history_lines(
        newest_first@,
        last_read,
    ));
    HistoryPlan { mark_read_first: last_read.is_some() && !on_page, lines }
}

/// Whether a channel is shown as muted: its guild is, or the channel itself.
pub fn channel_is_muted(guild_muted: bool, channel_muted: Option<bool>) -> (b: bool)
    ensures
        b == (guild_muted || channel_muted == Some(true)),
{
    guild_muted || match channel_muted {
        Some(m) => m,
        None => false,
    }
}

/// The first `n` pieces of `s` between occurrences of `sep`, the last of them
/// holding all that is left.
pub open spec fn split_n(s: Seq<char>, n: nat, sep: char) -> Seq<Seq<char>>
    decreases n,
{
    let i = first_index(s, sep);
    if n == 0 {
        Seq::empty()
    } else if n == 1 || !(0 <= i < s.len()) {
        seq![s]
    } else {
        seq![s.take(i)] + split_n(s.skip(i + 1), (n - 1) as nat, sep)
    }
}

/// `pieces`, each with its line feeds turned into bars, filled up with empty
/// lines to `count` lines.
pub open spec fn patched(pieces: Seq<Seq<char>>, count: nat) -> Seq<Seq<char>> {
    Seq::new(
        count,
        |i: int|
            if i < pieces.len() {
                replaced_all(pieces[i], seq!['\n'], " | "@)
            } else {
                Seq::empty()
            },
    )
}

/// The new texts of the `count` lines that show a message, after the message
/// has been changed to `new_content`. Each line of the content goes to one
/// line of the buffer; what does not fit goes to the last line, with bars in
/// place of line feeds; lines that are left over become empty.
pub fn modify_buffer_lines(new_content: &str, count: usize) -> (lines: Vec<String>)
    ensures
        texts(lines@) == patched(split_n(new_content@, count as nat, '\n'), count as nat),
{
    let chars = chars_of(new_content);
    let n: usize = chars.len();
    let ghost pieces = split_n(chars@, count as nat, '\n');
    let mut feed: Vec<char> = Vec::new();
    feed.push('\n');
    let bar = chars_of(" | ");
    assert(feed@ =~= seq!['\n']);
    let mut lines: Vec<String> = Vec::new();
    let mut start: usize = 0;
    let mut done = false;
    let mut k: usize = 0;
    assert(chars@.skip(0) =~= chars@);
    while k < count
        invariant
            k <= count,
            start <= n == chars@.len(),
            chars@ == new_content@,
            feed@ == seq!['\n'],
            bar@ == " | "@,
            pieces == split_n(chars@, count as nat, '\n'),
            lines@.len() == k,
            !done ==> pieces.len() >= k && pieces.skip(k as int) == split_n(
                chars@.skip(start as int),
                (count - k) as nat,
                '\n',
            ),
            done ==> pieces.len() <= k,
            forall|i: int|
                0 <= i < k ==> (#[trigger] lines@[i])@ == patched(pieces, count as nat)[i],
        decreases count - k,
    {
        let ghost rest = chars@.skip(start as int);
        if done {
            lines.push(String::new());
        } else {
            let at = find_from(&chars, start, '\n');
            let last = k + 1 == count || at >= n;
            let end: usize = if last {
                n
            } else {
                at
            };
            proof {
                let here = split_n(rest, (count - k) as nat, '\n');
                assert(pieces.skip(k as int)[0] == pieces[k as int]);
                if last {
                    assert(here =~= seq![rest]);
                    assert(rest =~= chars@.subrange(start as int, n as int));
                } else {
                    assert(rest.take(at - start) =~= chars@.subrange(start as int, at as int));
                    assert(rest.skip(at - start + 1) =~= chars@.skip(at + 1));
                    assert(here.skip(1) =~= split_n(rest.skip(at - start + 1), (count - k - 1) as nat, '\n'));
                    assert(pieces.skip(k as int).skip(1) =~= pieces.skip(k + 1));
                }
            }
            let piece = slice_of(&chars, start, end);
            let shown = replace_all(&piece, &feed, &bar);
            lines.push(string_of(&shown));
            if last {
                done = true;
                assert(pieces.skip(k as int).len() == 1);
            } else {
                start = at + 1;
            }
        }
        k += 1;
    }
    assert(texts(lines@) =~= patched(pieces, count as nat));
    lines
}

/// The guilds in the order of their buffers: first those that the user has
/// not placed, the last of them first, then the others as the user has placed
/// them.
pub open spec fn guild_order(guilds: Seq<u64>, positions: Seq<u64>) -> Seq<u64> {
    unplaced(guilds, positions).reverse() + placed(guilds, positions)
}

/// The guilds among `guilds` that `positions` does not hold, in their order.
pub open spec fn unplaced(guilds: Seq<u64>, positions: Seq<u64>) -> Seq<u64>
    decreases guilds.len(),
{
    if guilds.len() == 0 {
        Seq::empty()
    } else if positions.contains(guilds.last()) {
        unplaced(guilds.drop_last(), positions)
    } else {
        unplaced(guilds.drop_last(), positions).push(guilds.last())
    }
}

/// The guilds among `positions` that `guilds` holds, each once, in the order
/// of `positions`.
pub open spec fn placed(guilds: Seq<u64>, positions: Seq<u64>) -> Seq<u64>
    decreases positions.len(),
{
    if positions.len() == 0 {
        Seq::empty()
    } else if guilds.contains(positions.last()) && !positions.drop_last().contains(
        positions.last(),
    ) {
        placed(guilds, positions.drop_last()).push(positions.last())
    } else {
        placed(guilds, positions.drop_last())
    }
}

fn holds_in(ids: &Vec<u64>, upto: usize, id: u64) -> (found: bool)
    requires
        upto <= ids@.len(),
    ensures
        found == ids@.take(upto as int).contains(id),
{
    let mut i: usize = 0;
    while i < upto
        invariant
            i <= upto <= ids@.len(),
            forall|k: int| 0 <= k < i ==> ids@[k] != id,
        decreases upto - i,
    {
        if ids[i] == id {
            assert(ids@.take(upto as int)[i as int] == id);
            return true;
        }
        i += 1;
    }
    assert forall|k: int| 0 <= k < ids@.take(upto as int).len() implies ids@.take(upto as int)[k]
        != id by {
        assert(ids@.take(upto as int)[k] == ids@[k]);
    }
    false
}

/// Puts the guilds into the order of their buffers. `guilds` holds each guild
/// once; `positions` is the order that the user has given to guilds.
pub fn create_buffers(guilds: &Vec<u64>, positions: &Vec<u64>) -> (order: Vec<u64>)
    ensures
        order@ == guild_order(guilds@, positions@),
{
    let mut order: Vec<u64> = Vec::new();
    let mut g: usize = guilds.len();
    assert(guilds@.take(g as int) =~= guilds@);
    assert(positions@.take(positions@.len() as int) =~= positions@);
    assert(order@ + unplaced(guilds@, positions@).reverse() =~= unplaced(
        guilds@,
        positions@,
    ).reverse());
    while g > 0
        invariant
            g <= guilds@.len(),
            unplaced(guilds@, positions@).reverse() == order@ + unplaced(
                guilds@.take(g as int),
                positions@,
            ).reverse(),
        decreases g,
    {
        let ghost prefix = guilds@.take(g as int);
        let ghost before = order@;
        assert(prefix.drop_last() =~= guilds@.take(g - 1));
        assert(prefix.last() == guilds@[g - 1]);
        assert(positions@.take(positions@.len() as int) =~= positions@);
        if !holds_in(positions, positions.len(), guilds[g - 1]) {
            order.push(guilds[g - 1]);
            let ghost inner = unplaced(prefix.drop_last(), positions@);
            assert(inner.push(prefix.last()).reverse() =~= seq![prefix.last()] + inner.reverse());
            assert(before + (seq![prefix.last()] + inner.reverse()) =~= order@ + inner.reverse());
        }
        g -= 1;
    }
    let ghost head = order@;
    assert(guilds@.take(0) =~= Seq::<u64>::empty());
    assert(head =~= unplaced(guilds@, positions@).reverse());
    let mut p: usize = 0;
    assert(positions@.take(0) =~= Seq::<u64>::empty());
    assert(order@ =~= head + placed(guilds@, positions@.take(0)));
    while p < positions.len()
        invariant
            p <= positions@.len(),
            order@ == head + placed(guilds@, positions@.take(p as int)),
        decreases positions@.len() - p,
    {
        assert(positions@.take(p + 1).drop_last() =~= positions@.take(p as int));
        assert(positions@.take(p + 1).last() == positions@[p as int]);
        assert(guilds@.take(guilds@.len() as int) =~= guilds@);
        let id = positions[p];
        if holds_in(guilds, guilds.len(), id) && !holds_in(positions, p, id) {
            order.push(id);
            assert(order@ =~= head + placed(guilds@, positions@.take(p as int)).push(id));
        }
        p += 1;
    }
    assert(positions@.take(p as int) =~= positions@);
    order
}

} // verus!
