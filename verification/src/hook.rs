//! What the user's own actions lead to: a line entered into a buffer, a switch
//! to another buffer, typing, and the commands that the program takes over
//! from the host.

use crate::parsing::{line_edit, parse_line_edit, LineEdit, LineEditView};
use crate::text::{
    chars_of, replace_all, replace_first, replaced_all, replaced_first, split_on, split_ranges,
    string_of, trim_range, trimmed,
};
use vstd::prelude::*;

verus! {

/// What a line entered into a buffer leads to.
#[derive(Debug)]
pub enum InputAction<'a> {
    /// Nothing: the line is empty, the buffer belongs to no channel, or the
    /// program is not connected.
    Nothing,
    /// Delete the user's `line`-th newest message.
    Delete { line: usize },
    /// Replace `old` by `new` in the user's `line`-th newest message: every
    /// occurrence if `global` is set, else the first.
    Edit { line: usize, old: &'a str, new: &'a str, global: bool },
    /// Send the line as a message.
    Send,
}

/// An `InputAction` as a mathematical value.
pub enum InputActionView {
    Nothing,
    Delete { line: nat },
    Edit { line: nat, old: Seq<char>, new: Seq<char>, global: bool },
    Send,
}

impl<'a> View for InputAction<'a> {
    type V = InputActionView;

    open spec fn view(&self) -> InputActionView {
        match *self {
            InputAction::Nothing => InputActionView::Nothing,
            InputAction::Delete { line } => InputActionView::Delete { line: line as nat },
            InputAction::Edit { line, old, new, global } => InputActionView::Edit {
                line: line as nat,
                old: old@,
                new: new@,
                global,
            },
            InputAction::Send => InputActionView::Send,
        }
    }
}

/// What the line `text` leads to. A line edit is carried out on the user's
/// own message; it is global if its options hold the letter `g`. Any other
/// line is sent.
pub open spec fn input_action(text: Seq<char>, has_channel: bool, connected: bool) -> InputActionView {
    if text.len() == 0 || !has_channel || !connected {
        InputActionView::Nothing
    } else {
        match line_edit(text) {
            Some(LineEditView::Delete { line }) => InputActionView::Delete { line },
            Some(LineEditView::Sub { line, old, new, options }) => InputActionView::Edit {
                line,
                old,
                new,
                global: options matches Some(o) && o.contains('g'),
            },
            None => InputActionView::Send,
        }
    }
}

fn has_char(s: &str, c: char) -> (b: bool)
    ensures
        b == s@.contains(c),
{
    let chars = chars_of(s);
    let mut i: usize = 0;
    while i < chars.len()
        invariant
            i <= chars@.len(),
            chars@ == s@,
            forall|k: int| 0 <= k < i ==> chars@[k] != c,
        decreases chars@.len() - i,
    {
        if chars[i] == c {
            assert(s@[i as int] == c);
            return true;
        }
        i += 1;
    }
    false
}

/// Decides what a line entered into a buffer leads to.
pub fn buffer_input<'a>(text: &'a str, has_channel: bool, connected: bool) -> (action: InputAction<
    'a,
>)
    ensures
        action@ == input_action(text@, has_channel, connected),
{
    if text.is_empty() || !has_channel || !connected {
        return InputAction::Nothing;
    }
    match parse_line_edit(text) {
        Some(LineEdit::Delete { line }) => InputAction::Delete { line },
        Some(LineEdit::Sub { line, old, new, options }) => {
            let global = match options {
                Some(o) => has_char(o, 'g'),
                None => false,
            };
            InputAction::Edit { line, old, new, global }
        },
        None => InputAction::Send,
    }
}

/// The content of a message after an edit.
pub fn apply_edit(content: &str, old: &str, new: &str, global: bool) -> (out: String)
    ensures
        out@ == if global {
            replaced_all(content@, old@, new@)
        } else {
            replaced_first(content@, old@, new@)
        },
{
    let s = chars_of(content);
    let pattern = chars_of(old);
    let to = chars_of(new);
    let out = if global {
        replace_all(&s, &pattern, &to)
    } else {
        replace_first(&s, &pattern, &to)
    };
    string_of(&out)
}

/// Why the user's n-th message could not be had.
#[derive(Clone, Copy, Debug, PartialEq, Eq, Structural)]
pub enum NthError {
    /// More than 100 messages back were asked for.
    ExceededLimit,
    /// The user has not written that many of the messages at hand.
    ItemMissing,
}

/// The most messages back that can be asked for.
pub const MAX_NTH_MESSAGE: usize = 100;

/// The number of messages by `user` among `authors`.
pub open spec fn count_own(authors: Seq<u64>, user: u64) -> nat
    decreases authors.len(),
{
    if authors.len() == 0 {
        0
    } else if authors.last() == user {
        count_own(authors.drop_last(), user) + 1
    } else {
        count_own(authors.drop_last(), user)
    }
}

/// Finds the `n`-th newest message of `user`. `authors` are the authors of
/// the messages at hand, newest first; the result is a position among them.
pub fn get_users_nth_message(authors: &Vec<u64>, user: u64, n: usize) -> (res: Result<
    usize,
    NthError,
>)
    ensures
        n > MAX_NTH_MESSAGE ==> res == Err::<usize, NthError>(NthError::ExceededLimit),
        n <= MAX_NTH_MESSAGE && (n == 0 || count_own(authors@, user) < n) ==> res == Err::<
            usize,
            NthError,
        >(NthError::ItemMissing),
        n <= MAX_NTH_MESSAGE && 0 < n <= count_own(authors@, user) ==> res is Ok && res->Ok_0
            < authors@.len() && authors@[res->Ok_0 as int] == user && count_own(
            authors@.take(res->Ok_0 as int),
            user,
        ) == n - 1,
{
    if n > MAX_NTH_MESSAGE {
        return Err(NthError::ExceededLimit);
    }
    if n == 0 {
        return Err(NthError::ItemMissing);
    }
    let mut seen: usize = 0;
    let mut i: usize = 0;
    while i < authors.len()
        invariant
            i <= authors@.len(),
            0 < n <= MAX_NTH_MESSAGE,
            seen == count_own(authors@.take(i as int), user),
            seen < n,
        decreases authors@.len() - i,
    {
        assert(authors@.take(i + 1).drop_last() =~= authors@.take(i as int));
        assert(authors@.take(i + 1).last() == authors@[i as int]);
        if authors[i] == user {
            if seen + 1 == n {
                proof {
                    lemma_count_grows(authors@, user, i + 1);
                }
                return Ok(i);
            }
            seen += 1;
        }
        i += 1;
    }
    assert(authors@.take(i as int) =~= authors@);
    Err(NthError::ItemMissing)
}

proof fn lemma_count_grows(authors: Seq<u64>, user: u64, n: int)
    requires
        0 <= n <= authors.len(),
    ensures
        count_own(authors.take(n), user) <= count_own(authors, user),
    decreases authors.len() - n,
{
    if n < authors.len() {
        assert(authors.take(n + 1).drop_last() =~= authors.take(n));
        lemma_count_grows(authors, user, n + 1);
    } else {
        assert(authors.take(n) =~= authors);
    }
}

/// The message to acknowledge when the user looks at a channel: the newest
/// one, unless it is the one that was read last or nothing is known to have
/// been read.
pub fn ack_target(last_read: Option<u64>, last_message: Option<u64>) -> (ack: Option<u64>)
    ensures
        ack == match (last_read, last_message) {
            (Some(read), Some(last)) if read != last => Some(last),
            _ => None,
        },
{
    match (last_read, last_message) {
        (Some(read), Some(last)) => if read != last {
            Some(last)
        } else {
            None
        },
        _ => None,
    }
}

/// One guild with the channels that the user has looked at.
pub struct GuildChannels {
    pub guild_id: u64,
    pub channels: Vec<u64>,
}

/// The channels that the user has looked at, guild by guild. The gateway is
/// asked for the typing events and activities of exactly these channels.
pub struct GuildSubscriptions {
    guilds: Vec<GuildChannels>,
}

/// The channels listed under `guild_id`; none if the guild is not listed.
pub open spec fn listed(guilds: Seq<GuildChannels>, guild_id: u64) -> Seq<u64>
    decreases guilds.len(),
{
    if guilds.len() == 0 {
        Seq::empty()
    } else if guilds[0].guild_id == guild_id {
        guilds[0].channels@
    } else {
        listed(guilds.drop_first(), guild_id)
    }
}

impl GuildSubscriptions {
    /// The guilds with their channels.
    pub closed spec fn guilds(&self) -> Seq<GuildChannels> {
        self.guilds@
    }

    /// No channels looked at.
    pub fn new() -> (subscriptions: Self)
        ensures
            subscriptions.guilds() == Seq::<GuildChannels>::empty(),
    {
        GuildSubscriptions { guilds: Vec::new() }
    }

    fn position(&self, guild_id: u64) -> (at: Option<usize>)
        ensures
            match at {
                Some(i) => i < self.guilds@.len() && self.guilds@[i as int].guild_id == guild_id
                    && listed(self.guilds@, guild_id) == self.guilds@[i as int].channels@
                    && forall|k: int| 0 <= k < i ==> self.guilds@[k].guild_id != guild_id,
                None => listed(self.guilds@, guild_id) == Seq::<u64>::empty() && forall|k: int|
                    0 <= k < self.guilds@.len() ==> self.guilds@[k].guild_id != guild_id,
            },
    {
        let mut i: usize = 0;
        assert(self.guilds@.skip(0) =~= self.guilds@);
        while i < self.guilds.len()
            invariant
                i <= self.guilds@.len(),
                listed(self.guilds@, guild_id) == listed(self.guilds@.skip(i as int), guild_id),
                forall|k: int| 0 <= k < i ==> self.guilds@[k].guild_id != guild_id,
            decreases self.guilds@.len() - i,
        {
            assert(self.guilds@.skip(i as int)[0] == self.guilds@[i as int]);
            if self.guilds[i].guild_id == guild_id {
                return Some(i);
            }
            assert(self.guilds@.skip(i as int).drop_first() =~= self.guilds@.skip(i + 1));
            i += 1;
        }
        None
    }

    /// Notes that the user has looked at a channel. Where the channel is new
    /// to its guild, the result is the guild's channels, the new one last, for
    /// which the gateway is to be asked; where it is not, nothing is to be
    /// asked and nothing changes. Other guilds keep their channels.
    pub fn subscribe(&mut self, guild_id: u64, channel_id: u64) -> (ask: Option<Vec<u64>>)
        ensures
            listed(old(self).guilds(), guild_id).contains(channel_id) ==> ask is None
                && final(self).guilds() == old(self).guilds(),
            !listed(old(self).guilds(), guild_id).contains(channel_id) ==> ask is Some && ask->0@
                == listed(old(self).guilds(), guild_id).push(channel_id) && listed(
                final(self).guilds(),
                guild_id,
            ) == ask->0@,
            forall|other: u64|
                other != guild_id ==> listed(final(self).guilds(), other) == listed(
                    old(self).guilds(),
                    other,
                ),
    {
        match self.position(guild_id) {
            Some(i) => {
                let known = holds(&self.guilds[i].channels, channel_id);
                if known {
                    return None;
                }
                let mut channels = copy_of(&self.guilds[i].channels);
                channels.push(channel_id);
                let ask = copy_of(&channels);
                let ghost before = self.guilds@;
                self.guilds.set(i, GuildChannels { guild_id, channels });
                proof {
                    lemma_listed_update(before, self.guilds@, i as int, guild_id);
                    assert forall|other: u64| other != guild_id implies listed(self.guilds@, other)
                        == listed(before, other) by {
                        lemma_listed_other(before, self.guilds@, i as int, other);
                    }
                }
                Some(ask)
            },
            None => {
                let mut channels: Vec<u64> = Vec::new();
                channels.push(channel_id);
                let ask = copy_of(&channels);
                let ghost before = self.guilds@;
                self.guilds.push(GuildChannels { guild_id, channels });
                proof {
                    assert(ask@ =~= Seq::<u64>::empty().push(channel_id));
                    lemma_listed_push(before, self.guilds@, guild_id);
                    assert forall|other: u64| other != guild_id implies listed(self.guilds@, other)
                        == listed(before, other) by {
                        lemma_listed_push_other(before, self.guilds@, other);
                    }
                }
                Some(ask)
            },
        }
    }
}

proof fn lemma_listed_update(before: Seq<GuildChannels>, after: Seq<GuildChannels>, i: int, guild_id: u64)
    requires
        0 <= i < before.len(),
        after.len() == before.len(),
        after[i].guild_id == guild_id,
        forall|k: int| 0 <= k < before.len() && k != i ==> after[k] == before[k],
        forall|k: int| 0 <= k < i ==> before[k].guild_id != guild_id,
    ensures
        listed(after, guild_id) == after[i].channels@,
    decreases i,
{
    if i > 0 {
        assert(after[0] == before[0]);
        lemma_listed_update(before.drop_first(), after.drop_first(), i - 1, guild_id);
    }
}

proof fn lemma_listed_other(before: Seq<GuildChannels>, after: Seq<GuildChannels>, i: int, other: u64)
    requires
        0 <= i < before.len(),
        after.len() == before.len(),
        after[i].guild_id == before[i].guild_id,
        before[i].guild_id != other,
        forall|k: int| 0 <= k < before.len() && k != i ==> after[k] == before[k],
    ensures
        listed(after, other) == listed(before, other),
    decreases before.len(),
{
    if i > 0 {
        assert(after[0] == before[0]);
        lemma_listed_other(before.drop_first(), after.drop_first(), i - 1, other);
    } else {
        assert(after.drop_first() =~= before.drop_first());
    }
}

proof fn lemma_listed_push(before: Seq<GuildChannels>, after: Seq<GuildChannels>, guild_id: u64)
    requires
        after.len() == before.len() + 1,
        forall|k: int| 0 <= k < before.len() ==> after[k] == before[k],
        after[before.len() as int].guild_id == guild_id,
        forall|k: int| 0 <= k < before.len() ==> before[k].guild_id != guild_id,
    ensures
        listed(after, guild_id) == after[before.len() as int].channels@,
    decreases before.len(),
{
    if before.len() > 0 {
        assert(after[0] == before[0]);
        lemma_listed_push(before.drop_first(), after.drop_first(), guild_id);
    }
}

proof fn lemma_listed_push_other(before: Seq<GuildChannels>, after: Seq<GuildChannels>, other: u64)
    requires
        after.len() == before.len() + 1,
        forall|k: int| 0 <= k < before.len() ==> after[k] == before[k],
        after[before.len() as int].guild_id != other,
    ensures
        listed(after, other) == listed(before, other),
    decreases before.len(),
{
    if before.len() > 0 {
        assert(after[0] == before[0]);
        assert forall|k: int| 0 <= k < before.drop_first().len() implies after.drop_first()[k]
            == before.drop_first()[k] by {
            assert(after[k + 1] == before[k + 1]);
        }
        lemma_listed_push_other(before.drop_first(), after.drop_first(), other);
    } else {
        assert(after.drop_first() =~= Seq::<GuildChannels>::empty());
        assert(before =~= Seq::<GuildChannels>::empty());
        assert(listed(after.drop_first(), other) == Seq::<u64>::empty());
    }
}

fn holds(ids: &Vec<u64>, id: u64) -> (found: bool)
    ensures
        found == ids@.contains(id),
{
    let mut i: usize = 0;
    while i < ids.len()
        invariant
            i <= ids.len(),
            forall|k: int| 0 <= k < i ==> ids@[k] != id,
        decreases ids.len() - i,
    {
        if ids[i] == id {
            return true;
        }
        i += 1;
    }
    false
}

fn copy_of(ids: &Vec<u64>) -> (copy: Vec<u64>)
    ensures
        copy@ == ids@,
{
    let mut copy: Vec<u64> = Vec::new();
    let mut i: usize = 0;
    while i < ids.len()
        invariant
            i <= ids.len(),
            copy@ == ids@.take(i as int),
        decreases ids.len() - i,
    {
        copy.push(ids[i]);
        assert(copy@ =~= ids@.take(i + 1));
        i += 1;
    }
    assert(ids@.take(i as int) =~= ids@);
    copy
}

/// Seconds that pass at least between two typing notices.
pub const TYPING_NOTICE_GAP: u64 = 9;

/// Keeps the program from telling the gateway too often that the user is
/// typing.
pub struct TypingThrottle {
    last: u64,
}

impl TypingThrottle {
    /// When the gateway was told last.
    pub closed spec fn last(&self) -> u64 {
        self.last
    }

    /// Nothing told yet.
    pub fn new() -> (throttle: Self)
        ensures
            throttle.last() == 0,
    {
        TypingThrottle { last: 0 }
    }

    /// The text in the input line of a buffer has changed at time `now`:
    /// whether the gateway is told that the user is typing. It is told only
    /// for a channel, only where the user wants it, not while a command is
    /// being entered, and not before the gap since the last notice has
    /// passed.
    pub fn handle_buffer_typing(
        &mut self,
        has_channel: bool,
        send_typing_events: bool,
        input_is_command: bool,
        now: u64,
    ) -> (tell: bool)
        ensures
            tell == (has_channel && send_typing_events && !input_is_command && old(self).last()
                + TYPING_NOTICE_GAP < now),
            final(self).last() == if tell {
                now
            } else {
                old(self).last()
            },
    {
        if has_channel && send_typing_events && !input_is_command && now >= TYPING_NOTICE_GAP
            && self.last < now - TYPING_NOTICE_GAP {
            self.last = now;
            true
        } else {
            false
        }
    }
}

/// Whether a line in the input begins a command.
pub fn input_is_command(input: &str) -> (b: bool)
    ensures
        b == (input@.len() > 0 && input@[0] == '/'),
{
    let chars = chars_of(input);
    chars.len() > 0 && chars[0] == '/'
}

/// The word in front of the one that is being completed: the last but one of
/// the words of `input`.
pub fn previous_word(input: &str) -> (word: Option<String>)
    ensures
        match word {
            Some(w) => split_on(input@, ' ').len() >= 2 && w@ == split_on(input@, ' ')[split_on(
                input@,
                ' ',
            ).len() - 2],
            None => split_on(input@, ' ').len() < 2,
        },
{
    let chars = chars_of(input);
    let ranges = split_ranges(&chars, ' ');
    if ranges.len() < 2 {
        return None;
    }
    let (from, to) = ranges[ranges.len() - 2];
    Some(input.substring_char(from, to).to_owned())
}

/// A `/nick` command taken apart.
#[derive(Debug, PartialEq, Eq)]
pub struct NickCommand {
    /// Whether the nick is to change in every guild.
    pub all: bool,
    /// The new nick; none to go back to the user's own name.
    pub nick: Option<String>,
}

/// What stands behind the name of a command that is `skipped` characters
/// long, trimmed.
pub open spec fn command_tail(command: Seq<char>, skipped: int) -> Seq<char> {
    if command.len() >= skipped {
        trimmed(command.skip(skipped))
    } else {
        Seq::empty()
    }
}

/// Whether a `/nick` command is for every guild: its first word is `-all`.
pub open spec fn nick_for_all(command: Seq<char>) -> bool {
    split_on(command_tail(command, 5), ' ')[0] == seq!['-', 'a', 'l', 'l']
}

/// The nick that a `/nick` command gives: what stands behind the command's
/// name, and behind `-all` if that comes first.
pub open spec fn nick_given(command: Seq<char>) -> Seq<char> {
    if nick_for_all(command) {
        trimmed(command_tail(command, 5).skip(4))
    } else {
        command_tail(command, 5)
    }
}

/// Takes a `/nick` command apart.
pub fn handle_nick(command: &str) -> (parsed: NickCommand)
    ensures
        parsed.all == nick_for_all(command@),
        match parsed.nick {
            Some(nick) => nick@ == nick_given(command@) && nick@.len() > 0,
            None => nick_given(command@).len() == 0,
        },
{
    let chars = chars_of(command);
    let n: usize = chars.len();
    let start: usize = if n >= 5 {
        5
    } else {
        n
    };
    let (from, to) = trim_range(&chars, start, n);
    let ghost tail = command_tail(command@, 5);
    assert(tail =~= chars@.subrange(from as int, to as int)) by {
        if n >= 5 {
            assert(chars@.subrange(5, n as int) =~= command@.skip(5));
        } else {
            assert(chars@.subrange(n as int, n as int) =~= Seq::<char>::empty());
        }
    }
    let tail_chars = crate::text::slice_of(&chars, from, to);
    let words = split_ranges(&tail_chars, ' ');
    let (first_from, first_to) = words[0];
    let ghost first = split_on(tail, ' ')[0];
    assert(first == tail_chars@.subrange(first_from as int, first_to as int));
    let all = first_to - first_from == 4 && tail_chars[first_from] == '-' && tail_chars[first_from
        + 1] == 'a' && tail_chars[first_from + 2] == 'l' && tail_chars[first_from + 3] == 'l';
    proof {
        if all {
            assert(first =~= seq!['-', 'a', 'l', 'l']);
        } else if first.len() == 4 {
            assert(first[0] == tail_chars@[first_from as int]);
            assert(first[1] == tail_chars@[first_from + 1]);
            assert(first[2] == tail_chars@[first_from + 2]);
            assert(first[3] == tail_chars@[first_from + 3]);
        }
    }
    let (nick_from, nick_to) = if all {
        assert(tail_chars@.subrange(4, tail_chars@.len() as int) =~= tail.skip(4));
        trim_range(&tail_chars, 4, tail_chars.len())
    } else {
        assert(tail_chars@.subrange(0, tail_chars@.len() as int) =~= tail);
        (0, tail_chars.len())
    };
    let nick = if nick_to > nick_from {
        let text = crate::text::slice_of(&tail_chars, nick_from, nick_to);
        Some(string_of(&text))
    } else {
        None
    };
    NickCommand { all, nick }
}

/// Whom a `/query` command asks for: what stands behind the command's name,
/// trimmed; none if the command names nobody.
pub fn handle_query(command: &str) -> (target: Option<String>)
    ensures
        match target {
            Some(name) => command@.len() > 7 && name@ == command_tail(command@, 7),
            None => command@.len() <= 7,
        },
{
    let chars = chars_of(command);
    let n: usize = chars.len();
    if n <= 7 {
        return None;
    }
    let (from, to) = trim_range(&chars, 7, n);
    assert(chars@.subrange(7, n as int) =~= command@.skip(7));
    let text = crate::text::slice_of(&chars, from, to);
    Some(string_of(&text))
}

} // verus!
