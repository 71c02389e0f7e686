//! Messages as lines of a buffer.

use crate::formatting::{block_quote, quote_bar};
use crate::message_manager::{Embed, Message, MessageKind};
use crate::numbers::{all_digits, decimal, is_digit, push_decimal};
use crate::text::{
    chars_of, find_from, find_sub, find_sub_from, first_index, line_ranges, lines_of, pieces,
    push_char, push_range, string_of,
};
use crate::utils::{read_id, user_part};
use vstd::prelude::*;

verus! {

/// The host's codes that a rendered message holds.
#[derive(Debug)]
pub struct Marks {
    /// The colour of the note behind an edited message.
    pub edited: String,
    pub bold: String,
    pub reset: String,
}

/// A message ready for the buffer.
#[derive(Debug, PartialEq, Eq)]
#[allow(inconsistent_fields)]
pub enum Rendered {
    /// A message that a user wrote: the prefix of its line, and its text,
    /// which is Markdown still.
    Text { prefix: String, source: String },
    /// A notice: the name of the host's prefix for its line, and its text.
    Notice { prefix: &'static str, body: String },
}

/// A `Rendered` as a mathematical value.
pub enum RenderedView {
    Text { prefix: Seq<char>, source: Seq<char> },
    Notice { prefix: Seq<char>, body: Seq<char> },
}

impl View for Rendered {
    type V = RenderedView;

    open spec fn view(&self) -> RenderedView {
        match self {
            Rendered::Text { prefix, source } => RenderedView::Text {
                prefix: prefix@,
                source: source@,
            },
            Rendered::Notice { prefix, body } => RenderedView::Notice {
                prefix: prefix@,
                body: body@,
            },
        }
    }
}

/// `text` with a line break in front, unless nothing stands before it.
pub open spec fn on_new_line(before: Seq<char>, text: Seq<char>) -> Seq<char> {
    if before.len() > 0 {
        before + seq!['\n'] + text
    } else {
        before + text
    }
}

/// `content` with the places of the first `n` attachments, each on a line of
/// its own.
pub open spec fn with_attachments(content: Seq<char>, attachments: Seq<String>, n: int) -> Seq<char>
    decreases n,
{
    if n <= 0 {
        content
    } else {
        on_new_line(with_attachments(content, attachments, n - 1), attachments[n - 1]@)
    }
}

/// The view of an optional string.
pub open spec fn opt_text(s: Option<String>) -> Option<Seq<char>> {
    match s {
        Some(s) => Some(s@),
        None => None,
    }
}

/// An optional text as a quote with an empty line behind; nothing for none.
pub open spec fn quoted_part(text: Option<Seq<char>>) -> Seq<char> {
    match text {
        Some(text) => block_quote(lines_of(text)) + seq!['\n'],
        None => Seq::empty(),
    }
}

/// The fields of an embed, one after the other: the name of each and its
/// value as a quote.
pub open spec fn fields_text(embed: Embed, n: int) -> Seq<char>
    decreases n,
{
    if n <= 0 {
        Seq::empty()
    } else {
        fields_text(embed, n - 1) + embed.fields@[n - 1].name@ + block_quote(
            lines_of(embed.fields@[n - 1].value@),
        ) + seq!['\n']
    }
}

/// What is shown of an embed: who it is by, its title, its description, its
/// fields and its footer.
pub open spec fn embed_text(embed: Embed, bold: Seq<char>, reset: Seq<char>) -> Seq<char> {
    (match embed.author {
        Some(author) => seq![quote_bar()] + bold + author.name@ + reset + (match author.url {
            Some(url) => " ("@ + url@ + ")"@,
            None => Seq::empty(),
        }) + seq!['\n'],
        None => Seq::empty(),
    }) + quoted_part(opt_text(embed.title)) + quoted_part(opt_text(embed.description)) + fields_text(
        embed,
        embed.fields@.len() as int,
    ) + quoted_part(opt_text(embed.footer))
}

/// `content` with the first `n` embeds, each beginning on a line of its own.
pub open spec fn with_embeds(
    content: Seq<char>,
    embeds: Seq<Embed>,
    n: int,
    bold: Seq<char>,
    reset: Seq<char>,
) -> Seq<char>
    decreases n,
{
    if n <= 0 {
        content
    } else {
        on_new_line(with_embeds(content, embeds, n - 1, bold, reset), embed_text(
            embeds[n - 1],
            bold,
            reset,
        ))
    }
}

/// The text of a message that a user wrote: the cleaned content, a note if
/// the message was edited, the attachments and the embeds.
pub open spec fn message_source(
    msg: Message,
    content: Seq<char>,
    edited: Seq<char>,
    bold: Seq<char>,
    reset: Seq<char>,
) -> Seq<char> {
    let noted = if msg.edited {
        content + edited + " (edited)"@ + reset
    } else {
        content
    };
    with_embeds(
        with_attachments(noted, msg.attachments@, msg.attachments@.len() as int),
        msg.embeds@,
        msg.embeds@.len() as int,
        bold,
        reset,
    )
}

/// The name of the host's prefix for a notice of this kind.
pub open spec fn notice_prefix(kind: MessageKind) -> Seq<char> {
    match kind {
        MessageKind::GroupRecipientAddition | MessageKind::MemberJoin => "join"@,
        MessageKind::GroupRecipientRemoval => "quit"@,
        _ => "network"@,
    }
}

/// The text of a notice of this kind; empty for a message that a user wrote.
pub open spec fn notice_body(kind: MessageKind, author: Seq<char>, content: Seq<char>) -> Seq<char> {
    match kind {
        MessageKind::Regular => Seq::empty(),
        MessageKind::GroupRecipientAddition | MessageKind::MemberJoin => author
            + " joined the group."@,
        MessageKind::GroupRecipientRemoval => author + " left the group."@,
        MessageKind::GroupNameUpdate => author + " changed the channel name: "@ + content + "."@,
        MessageKind::GroupCallCreation => author + " started a call."@,
        MessageKind::GroupIconUpdate => author + " changed the channel icon."@,
        MessageKind::PinsAdd => author + " pinned a message to this channel"@,
        MessageKind::NitroBoost => author + " boosted this channel with nitro"@,
        MessageKind::NitroTier1 => "This channel has achieved nitro level 1"@,
        MessageKind::NitroTier2 => "This channel has achieved nitro level 2"@,
        MessageKind::NitroTier3 => "This channel has achieved nitro level 3"@,
    }
}

/// What a message is rendered to. `content` is the content of the message
/// with its mentions and emojis made readable, `author` the author's name as
/// it is shown.
pub open spec fn rendered_msg(
    msg: Message,
    content: Seq<char>,
    author: Seq<char>,
    edited: Seq<char>,
    bold: Seq<char>,
    reset: Seq<char>,
) -> RenderedView {
    if msg.kind is Regular {
        RenderedView::Text {
            prefix: author,
            source: message_source(msg, content, edited, bold, reset),
        }
    } else {
        RenderedView::Notice {
            prefix: notice_prefix(msg.kind),
            body: notice_body(msg.kind, author, msg.content@),
        }
    }
}

/// Appends the characters of `text` to `out`.
fn push_str(out: &mut Vec<char>, text: &str)
    ensures
        final(out)@ == old(out)@ + text@,
{
    let chars = chars_of(text);
    push_range(out, &chars, 0, chars.len());
    assert(chars@.subrange(0, chars@.len() as int) =~= text@);
}

/// Appends the lines of `text` as a quote to `out`.
fn push_quote(out: &mut Vec<char>, text: &str)
    ensures
        final(out)@ == old(out)@ + block_quote(lines_of(text@)),
{
    let chars = chars_of(text);
    let ranges = line_ranges(&chars);
    let ghost lines = lines_of(text@);
    let mut k: usize = 0;
    assert(lines.take(0) =~= Seq::<Seq<char>>::empty());
    assert(out@ =~= old(out)@ + block_quote(lines.take(0)));
    while k < ranges.len()
        invariant
            k <= ranges@.len(),
            chars@ == text@,
            lines == lines_of(text@),
            pieces(chars@, ranges@) == lines,
            forall|i: int|
                0 <= i < ranges@.len() ==> (#[trigger] ranges@[i]).0 <= ranges@[i].1 <= chars@.len(),
            out@ == old(out)@ + block_quote(lines.take(k as int)),
        decreases ranges@.len() - k,
    {
        let (from, to) = ranges[k];
        assert(lines[k as int] == chars@.subrange(from as int, to as int));
        assert(lines.take(k + 1).drop_last() =~= lines.take(k as int));
        let ghost before = out@;
        out.push('\u{258e}');
        push_range(out, &chars, from, to);
        out.push('\n');
        assert(out@ =~= old(out)@ + (block_quote(lines.take(k as int)) + seq![quote_bar()]
            + lines.take(k + 1).last() + seq!['\n']));
        k += 1;
    }
    assert(lines.take(k as int) =~= lines);
}

/// Appends an optional text as a quote with an empty line behind to `out`.
fn push_quoted_part(out: &mut Vec<char>, text: &Option<String>)
    ensures
        final(out)@ == old(out)@ + quoted_part(opt_text(*text)),
{
    match text {
        Some(text) => {
            push_quote(out, text.as_str());
            out.push('\n');
            assert(out@ =~= old(out)@ + quoted_part(opt_text(Some(*text))));
        },
        None => {
            assert(out@ =~= old(out)@ + Seq::<char>::empty());
        },
    }
}

/// Writes what is shown of an embed.
fn embed_chars(embed: &Embed, marks: &Marks) -> (out: Vec<char>)
    ensures
        out@ == embed_text(*embed, marks.bold@, marks.reset@),
{
    let mut out: Vec<char> = Vec::new();
    match &embed.author {
        Some(author) => {
            out.push('\u{258e}');
            push_str(&mut out, marks.bold.as_str());
            push_str(&mut out, author.name.as_str());
            push_str(&mut out, marks.reset.as_str());
            match &author.url {
                Some(url) => {
                    push_str(&mut out, " (");
                    push_str(&mut out, url.as_str());
                    push_str(&mut out, ")");
                },
                None => {},
            }
            out.push('\n');
        },
        None => {},
    }
    let ghost head = out@;
    assert(head =~= (match embed.author {
        Some(author) => seq![quote_bar()] + marks.bold@ + author.name@ + marks.reset@
            + (match author.url {
            Some(url) => " ("@ + url@ + ")"@,
            None => Seq::empty(),
        }) + seq!['\n'],
        None => Seq::empty(),
    }));
    push_quoted_part(&mut out, &embed.title);
    push_quoted_part(&mut out, &embed.description);
    let ghost upper = out@;
    let mut k: usize = 0;
    assert(out@ =~= upper + fields_text(*embed, 0));
    while k < embed.fields.len()
        invariant
            k <= embed.fields@.len(),
            out@ == upper + fields_text(*embed, k as int),
        decreases embed.fields@.len() - k,
    {
        let ghost before = out@;
        push_str(&mut out, embed.fields[k].name.as_str());
        push_quote(&mut out, embed.fields[k].value.as_str());
        out.push('\n');
        assert(out@ =~= upper + fields_text(*embed, k + 1));
        k += 1;
    }
    push_quoted_part(&mut out, &embed.footer);
    out
}

/// Renders a message. `content` is the content of the message with its
/// mentions and emojis made readable, `author` the author's name as it is
/// shown.
pub fn render_msg(msg: &Message, content: &str, author: &str, marks: &Marks) -> (out: Rendered)
    ensures
        out@ == rendered_msg(*msg, content@, author@, marks.edited@, marks.bold@, marks.reset@),
{
    match msg.kind {
        MessageKind::Regular => {
            let mut text: Vec<char> = Vec::new();
            push_str(&mut text, content);
            if msg.edited {
                push_str(&mut text, marks.edited.as_str());
                push_str(&mut text, " (edited)");
                push_str(&mut text, marks.reset.as_str());
            }
            let ghost noted = text@;
            assert(noted =~= if msg.edited {
                content@ + marks.edited@ + " (edited)"@ + marks.reset@
            } else {
                content@
            });
            let mut k: usize = 0;
            while k < msg.attachments.len()
                invariant
                    k <= msg.attachments@.len(),
                    text@ == with_attachments(noted, msg.attachments@, k as int),
                decreases msg.attachments@.len() - k,
            {
                if text.len() > 0 {
                    text.push('\n');
                }
                push_str(&mut text, msg.attachments[k].as_str());
                assert(text@ =~= with_attachments(noted, msg.attachments@, k + 1));
                k += 1;
            }
            let ghost attached = text@;
            let mut e: usize = 0;
            while e < msg.embeds.len()
                invariant
                    e <= msg.embeds@.len(),
                    text@ == with_embeds(attached, msg.embeds@, e as int, marks.bold@, marks.reset@),
                decreases msg.embeds@.len() - e,
            {
                if text.len() > 0 {
                    text.push('\n');
                }
                let shown = embed_chars(&msg.embeds[e], marks);
                push_range(&mut text, &shown, 0, shown.len());
                assert(shown@.subrange(0, shown@.len() as int) =~= shown@);
                assert(text@ =~= with_embeds(
                    attached,
                    msg.embeds@,
                    e + 1,
                    marks.bold@,
                    marks.reset@,
                ));
                e += 1;
            }
            Rendered::Text { prefix: author.to_owned(), source: string_of(&text) }
        },
        kind => {
            let prefix: &'static str = match kind {
                MessageKind::GroupRecipientAddition | MessageKind::MemberJoin => "join",
                MessageKind::GroupRecipientRemoval => "quit",
                _ => "network",
            };
            let mut body = String::new();
            match kind {
                MessageKind::Regular => {},
                MessageKind::GroupRecipientAddition | MessageKind::MemberJoin => {
                    body.append(author);
                    body.append(" joined the group.");
                },
                MessageKind::GroupRecipientRemoval => {
                    body.append(author);
                    body.append(" left the group.");
                },
                MessageKind::GroupNameUpdate => {
                    body.append(author);
                    body.append(" changed the channel name: ");
                    body.append(msg.content.as_str());
                    body.append(".");
                },
                MessageKind::GroupCallCreation => {
                    body.append(author);
                    body.append(" started a call.");
                },
                MessageKind::GroupIconUpdate => {
                    body.append(author);
                    body.append(" changed the channel icon.");
                },
                MessageKind::PinsAdd => {
                    body.append(author);
                    body.append(" pinned a message to this channel");
                },
                MessageKind::NitroBoost => {
                    body.append(author);
                    body.append(" boosted this channel with nitro");
                },
                MessageKind::NitroTier1 => {
                    body.append("This channel has achieved nitro level 1");
                },
                MessageKind::NitroTier2 => {
                    body.append("This channel has achieved nitro level 2");
                },
                MessageKind::NitroTier3 => {
                    body.append("This channel has achieved nitro level 3");
                },
            }
            assert(body@ =~= notice_body(kind, author@, msg.content@));
            Rendered::Notice { prefix, body }
        },
    }
}

/// The tag that tells the host how a line notifies: as a highlight where the
/// user is mentioned, as a private message in a private conversation, as a
/// message otherwise, and not at all where `notify` is not set.
pub fn msg_tags(notify: bool, self_mentioned: bool, is_private: bool) -> (tags: Vec<String>)
    ensures
        tags@.len() == 1,
        tags@[0]@ == if !notify {
            "notify_none"@
        } else if self_mentioned {
            "notify_highlight"@
        } else if is_private {
            "notify_private"@
        } else {
            "notify_message"@
        },
{
    let tag: &'static str = if !notify {
        "notify_none"
    } else if self_mentioned {
        "notify_highlight"
    } else if is_private {
        "notify_private"
    } else {
        "notify_message"
    };
    let mut tags: Vec<String> = Vec::new();
    tags.push(tag.to_owned());
    tags
}

/// Whether one of `mentions` is `user`.
pub fn mentions_user_id(mentions: &Vec<u64>, user: u64) -> (b: bool)
    ensures
        b == mentions@.contains(user),
{
    let mut i: usize = 0;
    while i < mentions.len()
        invariant
            i <= mentions@.len(),
            forall|k: int| 0 <= k < i ==> mentions@[k] != user,
        decreases mentions@.len() - i,
    {
        if mentions[i] == user {
            return true;
        }
        i += 1;
    }
    false
}

/// The name under which the author of a message is shown: the name as a
/// member of the guild where there is one, the user's own name else.
pub fn author_display_name(member_name: Option<&str>, author_name: &str) -> (name: String)
    ensures
        name@ == match member_name {
            Some(n) => n@,
            None => author_name@,
        },
{
    match member_name {
        Some(n) => n.to_owned(),
        None => author_name.to_owned(),
    }
}

/// The line that the host prints: the prefix, a tab, the text.
pub fn print_msg(prefix: &str, content: &str) -> (line: String)
    ensures
        line@ == prefix@ + seq!['\t'] + content@,
{
    let mut line = String::new();
    line.append(prefix);
    push_char(&mut line, '\t');
    line.append(content);
    assert(line@ =~= prefix@ + seq!['\t'] + content@);
    line
}

/// `n` in decimal, with zeros in front to make four digits.
pub open spec fn four_digits(n: u16) -> Seq<char> {
    if n < 10 {
        "000"@ + decimal(n as nat)
    } else if n < 100 {
        "00"@ + decimal(n as nat)
    } else if n < 1000 {
        "0"@ + decimal(n as nat)
    } else {
        decimal(n as nat)
    }
}

/// What stands for a mention of a user: an at sign, the name, a hash and the
/// user's four-digit discriminator.
pub fn user_tag(name: &str, discriminator: u16) -> (tag: String)
    ensures
        tag@ == seq!['@'] + name@ + seq!['#'] + four_digits(discriminator),
{
    let mut tag = String::new();
    push_char(&mut tag, '@');
    tag.append(name);
    push_char(&mut tag, '#');
    if discriminator < 10 {
        tag.append("000");
    } else if discriminator < 100 {
        tag.append("00");
    } else if discriminator < 1000 {
        tag.append("0");
    }
    push_decimal(&mut tag, discriminator as u64);
    assert(tag@ =~= seq!['@'] + name@ + seq!['#'] + four_digits(discriminator));
    tag
}

/// A user whom the cache knows, with what stands for a mention of the user.
#[derive(Debug)]
pub struct KnownUser {
    pub id: u64,
    pub shown: String,
}

/// What stands for a mention of the user `id`, if the user is known.
pub open spec fn shown_for(known: Seq<KnownUser>, id: u64) -> Option<Seq<char>>
    decreases known.len(),
{
    if known.len() == 0 {
        None
    } else if known[0].id == id {
        Some(known[0].shown@)
    } else {
        shown_for(known.drop_first(), id)
    }
}

/// `s` with its mentions of users made readable, and the users that are
/// mentioned and not known.
///
/// A mention is `<@`, an optional `!`, an identifier and `>`. The mention of
/// a known user is replaced by what stands for the user. The mention of an
/// unknown user stays as it is. A mention whose digits spell no identifier is
/// replaced by `@invalid-user`. Anything else between `<@` and the next `>`
/// stays as it is. The text is read once, from the left.
pub open spec fn users_cleaned(s: Seq<char>, known: Seq<KnownUser>) -> (Seq<char>, Seq<u64>)
    decreases s.len(),
{
    match find_sub(s, seq!['<', '@']) {
        None => (s, Seq::empty()),
        Some(at) => {
            let end = at + 2 + first_index(s.skip(at + 2), '>');
            if at < 0 || end < at + 2 || end >= s.len() {
                (s, Seq::empty())
            } else {
                let start = if s[at + 2] == '!' {
                    at + 3
                } else {
                    at + 2
                };
                let inner = s.subrange(start, end);
                let behind = users_cleaned(s.skip(end + 1), known);
                let from_end = users_cleaned(s.skip(end), known);
                match read_id(inner) {
                    Some(id) => match shown_for(known, id) {
                        Some(shown) => (s.take(at) + shown + behind.0, behind.1),
                        None => (s.take(end) + from_end.0, seq![id] + from_end.1),
                    },
                    None => if inner.len() > 0 && all_digits(inner) {
                        (s.take(at) + "@invalid-user"@ + behind.0, behind.1)
                    } else {
                        (s.take(end) + from_end.0, from_end.1)
                    },
                }
            }
        },
    }
}

fn lookup<'a>(known: &'a Vec<KnownUser>, id: u64) -> (shown: Option<&'a str>)
    ensures
        match shown {
            Some(text) => shown_for(known@, id) == Some(text@),
            None => shown_for(known@, id) is None,
        },
{
    let mut i: usize = 0;
    assert(known@.skip(0) =~= known@);
    while i < known.len()
        invariant
            i <= known@.len(),
            shown_for(known@, id) == shown_for(known@.skip(i as int), id),
        decreases known@.len() - i,
    {
        assert(known@.skip(i as int)[0] == known@[i as int]);
        if known[i].id == id {
            return Some(known[i].shown.as_str());
        }
        assert(known@.skip(i as int).drop_first() =~= known@.skip(i + 1));
        i += 1;
    }
    None
}

fn digits_only(chars: &Vec<char>, from: usize, to: usize) -> (b: bool)
    requires
        from <= to <= chars@.len(),
    ensures
        b == all_digits(chars@.subrange(from as int, to as int)),
{
    let ghost part = chars@.subrange(from as int, to as int);
    let mut i: usize = from;
    while i < to
        invariant
            from <= i <= to <= chars@.len(),
            part == chars@.subrange(from as int, to as int),
            forall|k: int| 0 <= k < i - from ==> is_digit(#[trigger] part[k]),
        decreases to - i,
    {
        let code: u32 = chars[i] as u32;
        assert(part[i - from] == chars@[i as int]);
        if code < 0x30 || code > 0x39 {
            return false;
        }
        i += 1;
    }
    true
}

/// What the next step of cleaning does.
enum Step<'a> {
    /// No mention is left: the rest stays as it is.
    Done,
    /// The text up to `at` stays, `shown` follows, and cleaning goes on behind
    /// `end`.
    Replace { at: usize, end: usize, shown: &'a str },
    /// The text up to `end` stays and cleaning goes on at `end`; `unknown` is
    /// the user of a mention that stays.
    Keep { end: usize, unknown: Option<u64> },
}

/// Decides the next step of cleaning the part of `content` from `p` on.
fn clean_step<'a>(
    content: &str,
    chars: &Vec<char>,
    known: &'a Vec<KnownUser>,
    p: usize,
) -> (step: Step<'a>)
    requires
        chars@ == content@,
        p <= chars@.len(),
    ensures
        match step {
            Step::Done => users_cleaned(chars@.skip(p as int), known@) == (
                chars@.skip(p as int),
                Seq::<u64>::empty(),
            ),
            Step::Replace { at, end, shown } => p <= at && at + 2 <= end < chars@.len()
                && users_cleaned(chars@.skip(p as int), known@) == (
                chars@.subrange(p as int, at as int) + shown@ + users_cleaned(
                    chars@.skip(end + 1),
                    known@,
                ).0,
                users_cleaned(chars@.skip(end + 1), known@).1,
            ),
            Step::Keep { end, unknown } => p + 2 <= end < chars@.len() && users_cleaned(
                chars@.skip(p as int),
                known@,
            ) == (
                chars@.subrange(p as int, end as int) + users_cleaned(
                    chars@.skip(end as int),
                    known@,
                ).0,
                (match unknown {
                    Some(id) => seq![id],
                    None => Seq::empty(),
                }) + users_cleaned(chars@.skip(end as int), known@).1,
            ),
        },
{
    let n: usize = chars.len();
    let ghost rest = chars@.skip(p as int);
    let mut mark: Vec<char> = Vec::new();
    mark.push('<');
    mark.push('@');
    assert(mark@ =~= seq!['<', '@']);
    let at = match find_sub_from(chars, p, &mark) {
        Some(at) => at,
        None => {
            return Step::Done;
        },
    };
    let end = find_from(chars, at + 2, '>');
    assert(rest.skip(at - p + 2) =~= chars@.skip(at + 2));
    if end >= n {
        return Step::Done;
    }
    proof {
        crate::text::lemma_first_index(chars@.skip(at + 2), '>');
        assert(chars@.skip(at + 2)[end - at - 2] == chars@[end as int]);
        assert(rest[at - p + 2] == chars@[at + 2]);
    }
    let start: usize = if chars[at + 2] == '!' {
        at + 3
    } else {
        at + 2
    };
    let ghost inner = rest.subrange(start - p, end - p);
    proof {
        assert(inner =~= content@.subrange(start as int, end as int));
        assert(inner =~= chars@.subrange(start as int, end as int));
        assert(rest.skip(end - p + 1) =~= chars@.skip(end + 1));
        assert(rest.skip(end - p) =~= chars@.skip(end as int));
        assert(rest.take(at - p) =~= chars@.subrange(p as int, at as int));
        assert(rest.take(end - p) =~= chars@.subrange(p as int, end as int));
    }
    match user_part(content, chars, start, end) {
        Some(id) => match lookup(known, id) {
            Some(shown) => Step::Replace { at, end, shown },
            None => Step::Keep { end, unknown: Some(id) },
        },
        None => {
            if end > start && digits_only(chars, start, end) {
                Step::Replace { at, end, shown: "@invalid-user" }
            } else {
                assert(Seq::<u64>::empty() + users_cleaned(chars@.skip(end as int), known@).1
                    =~= users_cleaned(chars@.skip(end as int), known@).1);
                Step::Keep { end, unknown: None }
            }
        },
    }
}

/// Makes the mentions of users in `content` readable. The result is the new
/// text and the users that are mentioned and not among `known`.
pub fn clean_users(content: &str, known: &Vec<KnownUser>) -> (res: (String, Vec<u64>))
    ensures
        res.0@ == users_cleaned(content@, known@).0,
        res.1@ == users_cleaned(content@, known@).1,
{
    let chars = chars_of(content);
    let n: usize = chars.len();
    let mut out: Vec<char> = Vec::new();
    let mut unknown: Vec<u64> = Vec::new();
    let mut p: usize = 0;
    assert(chars@.skip(0) =~= chars@);
    assert(out@ + users_cleaned(chars@, known@).0 =~= users_cleaned(chars@, known@).0);
    assert(unknown@ + users_cleaned(chars@, known@).1 =~= users_cleaned(chars@, known@).1);
    loop
        invariant_except_break
            p <= chars@.len() == n,
            chars@ == content@,
            users_cleaned(chars@, known@).0 == out@ + users_cleaned(chars@.skip(p as int), known@).0,
            users_cleaned(chars@, known@).1 == unknown@ + users_cleaned(
                chars@.skip(p as int),
                known@,
            ).1,
        ensures
            out@ == users_cleaned(chars@, known@).0,
            unknown@ == users_cleaned(chars@, known@).1,
        decreases n - p,
    {
        let ghost out0 = out@;
        let ghost unknown0 = unknown@;
        match clean_step(content, &chars, known, p) {
            Step::Done => {
                push_range(&mut out, &chars, p, n);
                assert(chars@.subrange(p as int, n as int) =~= chars@.skip(p as int));
                assert(unknown0 + Seq::<u64>::empty() =~= unknown0);
                break;
            },
            Step::Replace { at, end, shown } => {
                push_range(&mut out, &chars, p, at);
                let shown_chars = chars_of(shown);
                push_range(&mut out, &shown_chars, 0, shown_chars.len());
                assert(shown_chars@.subrange(0, shown_chars@.len() as int) =~= shown@);
                assert(out0 + (chars@.subrange(p as int, at as int) + shown@ + users_cleaned(
                    chars@.skip(end + 1),
                    known@,
                ).0) =~= out@ + users_cleaned(chars@.skip(end + 1), known@).0);
                p = end + 1;
            },
            Step::Keep { end, unknown: id } => {
                push_range(&mut out, &chars, p, end);
                assert(out0 + (chars@.subrange(p as int, end as int) + users_cleaned(
                    chars@.skip(end as int),
                    known@,
                ).0) =~= out@ + users_cleaned(chars@.skip(end as int), known@).0);
                match id {
                    Some(id) => {
                        unknown.push(id);
                        assert(unknown0 + (seq![id] + users_cleaned(
                            chars@.skip(end as int),
                            known@,
                        ).1) =~= unknown@ + users_cleaned(chars@.skip(end as int), known@).1);
                    },
                    None => {
                        assert(unknown0 + (Seq::<u64>::empty() + users_cleaned(
                            chars@.skip(end as int),
                            known@,
                        ).1) =~= unknown@ + users_cleaned(chars@.skip(end as int), known@).1);
                    },
                }
                p = end;
            },
        }
    }
    (string_of(&out), unknown)
}

} // verus!
