//! Mentions and emojis between what the user types and what is sent, and
//! between what arrives and what is shown.

use crate::numbers::{decimal, push_decimal};
use crate::text::{chars_of, replace_all, replaced_all, string_of};
use vstd::prelude::*;

verus! {

/// An emoji as it arrives: its name and its number between colons and angle
/// brackets.
pub const GLOBAL_EMOJI: &'static str = "<:(.*?):(\\d*?)>";

/// An emoji as the user types it: a name between colons, with the character
/// in front of it.
pub const EMOJI_SYNTAX: &'static str = "(.?):(\\w+):";

/// A channel as the user mentions it.
pub const CHANNEL_MENTION: &'static str = "#([a-z_-]+)";

/// A user as the user mentions one: name, hash and discriminator.
pub const USER_MENTION: &'static str = "@(.{0,32}?)#(\\d{2,4})";

/// A role as the user mentions it.
pub const ROLE_MENTION: &'static str = "@([^\\s]{1,32})";

/// One match of a pattern: what the whole pattern matched and what each of
/// its groups matched, if it took part.
pub type Match = Seq<Option<Seq<char>>>;

/// The matches of the regular expression `pattern` in `text`, from the left
/// and not overlapping; none if `pattern` is no regular expression.
pub uninterp spec fn regex_captures(pattern: Seq<char>, text: Seq<char>) -> Option<Seq<Match>>;

/// The views of the groups of one match.
pub open spec fn groups(found: Vec<Option<String>>) -> Match {
    found@.map_values(
        |g: Option<String>|
            match g {
                Some(s) => Some(s@),
                None => None,
            },
    )
}

/// The views of some matches.
pub open spec fn matches_view(found: Seq<Vec<Option<String>>>) -> Seq<Match> {
    found.map_values(|m: Vec<Option<String>>| groups(m))
}

/// `regex::Regex::new` and `regex::Regex::captures_iter`: compiles `pattern`
/// and collects every match in `text` with the text of each of its groups.
/// The result depends on the two texts alone.
#[verifier::external_body]
fn captures_iter(pattern: &str, text: &str) -> (found: Option<Vec<Vec<Option<String>>>>)
    ensures
        match found {
            Some(found) => regex_captures(pattern@, text@) == Some(matches_view(found@)),
            None => regex_captures(pattern@, text@) is None,
        },
{
    match regex::Regex::new(pattern) {
        Ok(re) => Some(
            re.captures_iter(text).map(
                |c| c.iter().map(|g| g.map(|m| m.as_str().to_string())).collect(),
            ).collect(),
        ),
        Err(_) => None,
    }
}

/// The text of group `i` of a match, if the group took part.
pub open spec fn group(m: Match, i: int) -> Option<Seq<char>> {
    if 0 <= i < m.len() {
        m[i]
    } else {
        None
    }
}

fn group_chars(m: &Vec<Option<String>>, i: usize) -> (text: Option<Vec<char>>)
    ensures
        match text {
            Some(t) => group(groups(*m), i as int) == Some(t@),
            None => group(groups(*m), i as int) is None,
        },
{
    if i < m.len() {
        match &m[i] {
            Some(s) => Some(chars_of(s.as_str())),
            None => None,
        }
    } else {
        None
    }
}

/// `text` after one arriving emoji has been made readable: every occurrence
/// of what matched is replaced by the emoji's name between colons.
pub open spec fn emoji_cleaned(text: Seq<char>, m: Match) -> Seq<char> {
    match (group(m, 0), group(m, 1)) {
        (Some(whole), Some(name)) => replaced_all(text, whole, seq![':'] + name + seq![':']),
        _ => text,
    }
}

/// `text` after the arriving emojis `found` have been made readable, one
/// after the other.
pub open spec fn emojis_cleaned(text: Seq<char>, found: Seq<Match>) -> Seq<char>
    decreases found.len(),
{
    if found.len() == 0 {
        text
    } else {
        emojis_cleaned(emoji_cleaned(text, found[0]), found.drop_first())
    }
}

/// Makes the emojis in `input` readable, given the matches of `GLOBAL_EMOJI`
/// in it.
pub fn clean_emojis_with(input: &str, found: &Vec<Vec<Option<String>>>) -> (out: String)
    ensures
        out@ == emojis_cleaned(input@, matches_view(found@)),
{
    let ghost all = matches_view(found@);
    let mut text = chars_of(input);
    let mut k: usize = 0;
    assert(all.skip(0) =~= all);
    while k < found.len()
        invariant
            k <= found@.len(),
            all == matches_view(found@),
            emojis_cleaned(input@, all) == emojis_cleaned(text@, all.skip(k as int)),
        decreases found@.len() - k,
    {
        assert(all.skip(k as int)[0] == groups(found@[k as int]));
        assert(all.skip(k as int).drop_first() =~= all.skip(k + 1));
        match (group_chars(&found[k], 0), group_chars(&found[k], 1)) {
            (Some(whole), Some(name)) => {
                let mut to: Vec<char> = Vec::new();
                to.push(':');
                crate::text::push_range(&mut to, &name, 0, name.len());
                to.push(':');
                assert(name@.subrange(0, name@.len() as int) =~= name@);
                assert(to@ =~= seq![':'] + name@ + seq![':']);
                text = replace_all(&text, &whole, &to);
            },
            _ => {},
        }
        k += 1;
    }
    string_of(&text)
}

/// Makes the emojis in `input` readable: `<:name:number>` becomes `:name:`.
pub fn clean_emojis(input: &str) -> (out: String)
    ensures
        out@ == match regex_captures(GLOBAL_EMOJI@, input@) {
            Some(found) => emojis_cleaned(input@, found),
            None => input@,
        },
{
    match captures_iter(GLOBAL_EMOJI, input) {
        Some(found) => clean_emojis_with(input, &found),
        None => input.to_owned(),
    }
}

/// Something with a name and a number: an emoji, a channel, a user.
#[derive(Debug)]
pub struct Named {
    pub id: u64,
    pub name: String,
}

/// A member of a guild.
#[derive(Debug)]
pub struct MemberName {
    pub id: u64,
    pub name: String,
    pub nick: Option<String>,
}

/// A role of a guild.
#[derive(Debug)]
pub struct RoleName {
    pub id: u64,
    pub name: String,
    pub mentionable: bool,
}

/// The number of the first of `items` with the name `name`.
pub open spec fn id_of(items: Seq<Named>, name: Seq<char>) -> Option<u64>
    decreases items.len(),
{
    if items.len() == 0 {
        None
    } else if items[0].name@ == name {
        Some(items[0].id)
    } else {
        id_of(items.drop_first(), name)
    }
}

fn find_named(items: &Vec<Named>, name: &Vec<char>) -> (id: Option<u64>)
    ensures
        id == id_of(items@, name@),
{
    let mut i: usize = 0;
    assert(items@.skip(0) =~= items@);
    while i < items.len()
        invariant
            i <= items@.len(),
            id_of(items@, name@) == id_of(items@.skip(i as int), name@),
        decreases items@.len() - i,
    {
        assert(items@.skip(i as int)[0] == items@[i as int]);
        let own = chars_of(items[i].name.as_str());
        if crate::text::same_chars(&own, name) {
            return Some(items[i].id);
        }
        assert(items@.skip(i as int).drop_first() =~= items@.skip(i + 1));
        i += 1;
    }
    None
}

/// An emoji as it is sent: `<:name:number>`.
pub open spec fn emoji_mention(name: Seq<char>, id: u64) -> Seq<char> {
    seq!['<', ':'] + name + seq![':'] + decimal(id as nat) + seq!['>']
}

/// `text` after one typed emoji has been expanded. An emoji behind a
/// backslash stays as it is, and so does one that the guild does not have.
pub open spec fn emoji_expanded(text: Seq<char>, m: Match, emojis: Seq<Named>) -> Seq<char> {
    if group(m, 1) == Some(seq!['\\']) {
        text
    } else {
        match group(m, 2) {
            Some(name) => match id_of(emojis, name) {
                Some(id) => replaced_all(text, seq![':'] + name + seq![':'], emoji_mention(name, id)),
                None => text,
            },
            None => text,
        }
    }
}

/// `text` after the typed emojis `found` have been expanded, one after the
/// other.
pub open spec fn emojis_expanded(text: Seq<char>, found: Seq<Match>, emojis: Seq<Named>) -> Seq<char>
    decreases found.len(),
{
    if found.len() == 0 {
        text
    } else {
        emojis_expanded(emoji_expanded(text, found[0], emojis), found.drop_first(), emojis)
    }
}

fn decimal_chars(out: &mut Vec<char>, n: u64)
    ensures
        final(out)@ == old(out)@ + decimal(n as nat),
{
    let mut digits = String::new();
    push_decimal(&mut digits, n);
    let chars = chars_of(digits.as_str());
    crate::text::push_range(out, &chars, 0, chars.len());
    assert(chars@.subrange(0, chars@.len() as int) =~= decimal(n as nat));
}

/// Expands the emojis of the guild in `input`, given the matches of
/// `EMOJI_SYNTAX` in it.
pub fn expand_guild_emojis_with(
    input: &str,
    found: &Vec<Vec<Option<String>>>,
    emojis: &Vec<Named>,
) -> (out: String)
    ensures
        out@ == emojis_expanded(input@, matches_view(found@), emojis@),
{
    let ghost all = matches_view(found@);
    let mut text = chars_of(input);
    let mut k: usize = 0;
    assert(all.skip(0) =~= all);
    while k < found.len()
        invariant
            k <= found@.len(),
            all == matches_view(found@),
            emojis_expanded(input@, all, emojis@) == emojis_expanded(
                text@,
                all.skip(k as int),
                emojis@,
            ),
        decreases found@.len() - k,
    {
        assert(all.skip(k as int)[0] == groups(found@[k as int]));
        assert(all.skip(k as int).drop_first() =~= all.skip(k + 1));
        let escaped = match group_chars(&found[k], 1) {
            Some(prefix) => {
                if prefix.len() == 1 && prefix[0] == '\\' {
                    assert(prefix@ =~= seq!['\\']);
                    true
                } else {
                    assert(prefix@ != seq!['\\']) by {
                        if prefix@.len() == 1 {
                            assert(prefix@[0] != '\\');
                        }
                    }
                    false
                }
            },
            None => false,
        };
        if !escaped {
            match group_chars(&found[k], 2) {
                Some(name) => match find_named(emojis, &name) {
                    Some(id) => {
                        let mut pattern: Vec<char> = Vec::new();
                        pattern.push(':');
                        crate::text::push_range(&mut pattern, &name, 0, name.len());
                        pattern.push(':');
                        let mut to: Vec<char> = Vec::new();
                        to.push('<');
                        to.push(':');
                        crate::text::push_range(&mut to, &name, 0, name.len());
                        to.push(':');
                        decimal_chars(&mut to, id);
                        to.push('>');
                        assert(name@.subrange(0, name@.len() as int) =~= name@);
                        assert(pattern@ =~= seq![':'] + name@ + seq![':']);
                        assert(to@ =~= emoji_mention(name@, id));
                        text = replace_all(&text, &pattern, &to);
                    },
                    None => {},
                },
                None => {},
            }
        }
        k += 1;
    }
    string_of(&text)
}

/// Expands the emojis of the guild that the user has typed by name:
/// `:name:` becomes `<:name:number>`. `emojis` are the emojis of the guild;
/// none where the buffer belongs to no guild that is known.
pub fn expand_guild_emojis(emojis: Option<&Vec<Named>>, input: &str) -> (out: String)
    ensures
        out@ == match (emojis, regex_captures(EMOJI_SYNTAX@, input@)) {
            (Some(emojis), Some(found)) => emojis_expanded(input@, found, emojis@),
            _ => input@,
        },
{
    match emojis {
        Some(emojis) => match captures_iter(EMOJI_SYNTAX, input) {
            Some(found) => expand_guild_emojis_with(input, &found, emojis),
            None => input.to_owned(),
        },
        None => input.to_owned(),
    }
}

/// What the cache knows of the place in which the user writes.
#[derive(Debug)]
pub struct Directory {
    /// The channels of the guild; all channels where there is no guild.
    pub channels: Vec<Named>,
    /// The members of the guild; none where there is no guild.
    pub members: Vec<MemberName>,
    /// All users.
    pub users: Vec<Named>,
    /// The roles of the guild; none where there is no guild.
    pub roles: Vec<RoleName>,
}

/// The number of the first of `members` whose nick or name is `name`.
pub open spec fn member_of(members: Seq<MemberName>, name: Seq<char>) -> Option<u64>
    decreases members.len(),
{
    if members.len() == 0 {
        None
    } else if (members[0].nick matches Some(nick) && nick@ == name) || members[0].name@ == name {
        Some(members[0].id)
    } else {
        member_of(members.drop_first(), name)
    }
}

/// The first of `roles` with the name `name`.
pub open spec fn role_of(roles: Seq<RoleName>, name: Seq<char>) -> Option<RoleName>
    decreases roles.len(),
{
    if roles.len() == 0 {
        None
    } else if roles[0].name@ == name {
        Some(roles[0])
    } else {
        role_of(roles.drop_first(), name)
    }
}

/// A mention as it is sent: `<`, the sign of its kind, the number and `>`.
pub open spec fn mention(sign: Seq<char>, id: u64) -> Seq<char> {
    seq!['<'] + sign + decimal(id as nat) + seq!['>']
}

/// The number that the name in a match stands for, as channels go.
pub open spec fn channel_target(m: Match, d: Directory) -> Option<u64> {
    match group(m, 1) {
        Some(name) => id_of(d.channels@, name),
        None => None,
    }
}

/// The number that the name in a match stands for, as users go: a member of
/// the guild by nick or name, or else any user by name.
pub open spec fn user_target(m: Match, d: Directory) -> Option<u64> {
    match group(m, 1) {
        Some(name) => match member_of(d.members@, name) {
            Some(id) => Some(id),
            None => id_of(d.users@, name),
        },
        None => None,
    }
}

/// The number that the name in a match stands for, as roles go: a role that
/// may be mentioned.
pub open spec fn role_target(m: Match, d: Directory) -> Option<u64> {
    match group(m, 1) {
        Some(name) => match role_of(d.roles@, name) {
            Some(role) if role.mentionable => Some(role.id),
            _ => None,
        },
        None => None,
    }
}

/// `text` with what `m` matched replaced by a mention of `target`, where
/// there is one.
pub open spec fn mention_made(text: Seq<char>, m: Match, sign: Seq<char>, target: Option<u64>) -> Seq<
    char,
> {
    match (group(m, 0), target) {
        (Some(whole), Some(id)) => replaced_all(text, whole, mention(sign, id)),
        _ => text,
    }
}

/// `text` after the channels that `found` name have been turned into
/// mentions, one after the other.
pub open spec fn channels_mentioned(text: Seq<char>, found: Seq<Match>, d: Directory) -> Seq<char>
    decreases found.len(),
{
    if found.len() == 0 {
        text
    } else {
        channels_mentioned(
            mention_made(text, found[0], seq!['#'], channel_target(found[0], d)),
            found.drop_first(),
            d,
        )
    }
}

/// `text` after the users that `found` name have been turned into mentions.
pub open spec fn users_mentioned(text: Seq<char>, found: Seq<Match>, d: Directory) -> Seq<char>
    decreases found.len(),
{
    if found.len() == 0 {
        text
    } else {
        users_mentioned(
            mention_made(text, found[0], seq!['@'], user_target(found[0], d)),
            found.drop_first(),
            d,
        )
    }
}

/// `text` after the roles that `found` name have been turned into mentions.
pub open spec fn roles_mentioned(text: Seq<char>, found: Seq<Match>, d: Directory) -> Seq<char>
    decreases found.len(),
{
    if found.len() == 0 {
        text
    } else {
        roles_mentioned(
            mention_made(text, found[0], seq!['@', '&'], role_target(found[0], d)),
            found.drop_first(),
            d,
        )
    }
}

/// `input` with the channels, users and roles that it names turned into
/// mentions, in this order.
pub open spec fn mentions_created(
    input: Seq<char>,
    channels: Seq<Match>,
    users: Seq<Match>,
    roles: Seq<Match>,
    d: Directory,
) -> Seq<char> {
    roles_mentioned(users_mentioned(channels_mentioned(input, channels, d), users, d), roles, d)
}

fn find_member(members: &Vec<MemberName>, name: &Vec<char>) -> (id: Option<u64>)
    ensures
        id == member_of(members@, name@),
{
    let mut i: usize = 0;
    assert(members@.skip(0) =~= members@);
    while i < members.len()
        invariant
            i <= members@.len(),
            member_of(members@, name@) == member_of(members@.skip(i as int), name@),
        decreases members@.len() - i,
    {
        assert(members@.skip(i as int)[0] == members@[i as int]);
        let by_nick = match &members[i].nick {
            Some(nick) => {
                let own = chars_of(nick.as_str());
                crate::text::same_chars(&own, name)
            },
            None => false,
        };
        if by_nick {
            return Some(members[i].id);
        }
        let own = chars_of(members[i].name.as_str());
        if crate::text::same_chars(&own, name) {
            return Some(members[i].id);
        }
        assert(members@.skip(i as int).drop_first() =~= members@.skip(i + 1));
        i += 1;
    }
    None
}

fn find_role(roles: &Vec<RoleName>, name: &Vec<char>) -> (at: Option<usize>)
    ensures
        match at {
            Some(i) => i < roles@.len() && role_of(roles@, name@) == Some(roles@[i as int]),
            None => role_of(roles@, name@) is None,
        },
{
    let mut i: usize = 0;
    assert(roles@.skip(0) =~= roles@);
    while i < roles.len()
        invariant
            i <= roles@.len(),
            role_of(roles@, name@) == role_of(roles@.skip(i as int), name@),
        decreases roles@.len() - i,
    {
        assert(roles@.skip(i as int)[0] == roles@[i as int]);
        let own = chars_of(roles[i].name.as_str());
        if crate::text::same_chars(&own, name) {
            return Some(i);
        }
        assert(roles@.skip(i as int).drop_first() =~= roles@.skip(i + 1));
        i += 1;
    }
    None
}

/// Replaces what `m` matched in `text` by a mention of `target`.
fn make_mention(text: Vec<char>, m: &Vec<Option<String>>, sign: &str, target: Option<u64>) -> (out:
    Vec<char>)
    ensures
        out@ == mention_made(text@, groups(*m), sign@, target),
{
    match (group_chars(m, 0), target) {
        (Some(whole), Some(id)) => {
            let mut to: Vec<char> = Vec::new();
            to.push('<');
            let sign_chars = chars_of(sign);
            crate::text::push_range(&mut to, &sign_chars, 0, sign_chars.len());
            assert(sign_chars@.subrange(0, sign_chars@.len() as int) =~= sign@);
            decimal_chars(&mut to, id);
            to.push('>');
            assert(to@ =~= mention(sign@, id));
            replace_all(&text, &whole, &to)
        },
        _ => text,
    }
}

/// Turns the names in `input` into mentions, given the matches of
/// `CHANNEL_MENTION`, `USER_MENTION` and `ROLE_MENTION` in it.
pub fn create_mentions_with(
    input: &str,
    channels: &Vec<Vec<Option<String>>>,
    users: &Vec<Vec<Option<String>>>,
    roles: &Vec<Vec<Option<String>>>,
    directory: &Directory,
) -> (out: String)
    ensures
        out@ == mentions_created(
            input@,
            matches_view(channels@),
            matches_view(users@),
            matches_view(roles@),
            *directory,
        ),
{
    let mut text = chars_of(input);
    let ghost all = matches_view(channels@);
    let mut k: usize = 0;
    assert(all.skip(0) =~= all);
    while k < channels.len()
        invariant
            k <= channels@.len(),
            all == matches_view(channels@),
            channels_mentioned(input@, all, *directory) == channels_mentioned(
                text@,
                all.skip(k as int),
                *directory,
            ),
        decreases channels@.len() - k,
    {
        assert(all.skip(k as int)[0] == groups(channels@[k as int]));
        assert(all.skip(k as int).drop_first() =~= all.skip(k + 1));
        let target = match group_chars(&channels[k], 1) {
            Some(name) => find_named(&directory.channels, &name),
            None => None,
        };
        proof {
            reveal_strlit("#");
            assert("#"@ =~= seq!['#']);
        }
        text = make_mention(text, &channels[k], "#", target);
        k += 1;
    }
    let ghost first = text@;
    let ghost all = matches_view(users@);
    let mut k: usize = 0;
    assert(all.skip(0) =~= all);
    while k < users.len()
        invariant
            k <= users@.len(),
            all == matches_view(users@),
            users_mentioned(first, all, *directory) == users_mentioned(
                text@,
                all.skip(k as int),
                *directory,
            ),
        decreases users@.len() - k,
    {
        assert(all.skip(k as int)[0] == groups(users@[k as int]));
        assert(all.skip(k as int).drop_first() =~= all.skip(k + 1));
        let target = match group_chars(&users[k], 1) {
            Some(name) => match find_member(&directory.members, &name) {
                Some(id) => Some(id),
                None => find_named(&directory.users, &name),
            },
            None => None,
        };
        proof {
            reveal_strlit("@");
            assert("@"@ =~= seq!['@']);
        }
        text = make_mention(text, &users[k], "@", target);
        k += 1;
    }
    let ghost second = text@;
    let ghost all = matches_view(roles@);
    let mut k: usize = 0;
    assert(all.skip(0) =~= all);
    while k < roles.len()
        invariant
            k <= roles@.len(),
            all == matches_view(roles@),
            roles_mentioned(second, all, *directory) == roles_mentioned(
                text@,
                all.skip(k as int),
                *directory,
            ),
        decreases roles@.len() - k,
    {
        assert(all.skip(k as int)[0] == groups(roles@[k as int]));
        assert(all.skip(k as int).drop_first() =~= all.skip(k + 1));
        let target = match group_chars(&roles[k], 1) {
            Some(name) => match find_role(&directory.roles, &name) {
                Some(i) => if directory.roles[i].mentionable {
                    Some(directory.roles[i].id)
                } else {
                    None
                },
                None => None,
            },
            None => None,
        };
        proof {
            reveal_strlit("@&");
            assert("@&"@ =~= seq!['@', '&']);
        }
        text = make_mention(text, &roles[k], "@&", target);
        k += 1;
    }
    string_of(&text)
}

/// Turns the names of channels, users and roles that the user has typed into
/// mentions: `#name` into `<#number>`, `@name#1234` into `<@number>`, and
/// `@role` into `<@&number>`. A text in which the patterns cannot be matched
/// stays as it is.
pub fn create_mentions(directory: &Directory, input: &str) -> (out: String)
    ensures
        out@ == match (
            regex_captures(CHANNEL_MENTION@, input@),
            regex_captures(USER_MENTION@, input@),
            regex_captures(ROLE_MENTION@, input@),
        ) {
            (Some(channels), Some(users), Some(roles)) => mentions_created(
                input@,
                channels,
                users,
                roles,
                *directory,
            ),
            _ => input@,
        },
{
    let channels = captures_iter(CHANNEL_MENTION, input);
    let users = captures_iter(USER_MENTION, input);
    let roles = captures_iter(ROLE_MENTION, input);
    match (channels, users, roles) {
        (Some(channels), Some(users), Some(roles)) => create_mentions_with(
            input,
            &channels,
            &users,
            &roles,
            directory,
        ),
        _ => input.to_owned(),
    }
}

} // verus!
