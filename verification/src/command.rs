//! The `/discord` command line: its parts, and the comma-separated lists of
//! watched and auto-joined places that its sub-commands edit.

use crate::text::{
    chars_less, chars_of, join, joined, lemma_text_order, same_chars, slice_of, split_on,
    split_ranges, string_of, text_less, texts, trim_range, trimmed,
};
use crate::nicklist::OnlineStatus;
use crate::search::{lowercased, to_lowercase};
use std::collections::VecDeque;
use vstd::prelude::*;

verus! {

/// A command line taken apart.
#[derive(Clone, Debug)]
pub struct Args<'a> {
    /// The sub-command: the second word of the line.
    pub base: &'a str,
    /// The words behind the sub-command.
    pub args: VecDeque<&'a str>,
    /// Everything behind the sub-command, trimmed.
    pub rest: &'a str,
}

/// `Args` as a mathematical value.
pub struct ArgsView {
    pub base: Seq<char>,
    pub args: Seq<Seq<char>>,
    pub rest: Seq<char>,
}

impl<'a> View for Args<'a> {
    type V = ArgsView;

    open spec fn view(&self) -> ArgsView {
        ArgsView {
            base: self.base@,
            args: self.args@.map_values(|word: &str| word@),
            rest: self.rest@,
        }
    }
}

/// The parts of the command line `cmd`.
///
/// Words are what single spaces separate; the first word is the command's own
/// name and is passed over. A line without a second word has no parts.
pub open spec fn parsed_args(cmd: Seq<char>) -> ArgsView {
    let words = split_on(cmd, ' ');
    if words.len() <= 1 {
        ArgsView { base: Seq::empty(), args: Seq::empty(), rest: Seq::empty() }
    } else {
        ArgsView {
            base: words[1],
            args: words.skip(2),
            rest: trimmed(cmd.skip((words[0].len() + 1 + words[1].len()) as int)),
        }
    }
}

impl<'a> Args<'a> {
    /// Takes the command line `cmd` apart.
    pub fn from_cmd(cmd: &'a str) -> (parsed: Args<'a>)
        ensures
            parsed@ == parsed_args(cmd@),
    {
        let chars = chars_of(cmd);
        let ranges = split_ranges(&chars, ' ');
        let ghost words = split_on(chars@, ' ');
        if ranges.len() <= 1 {
            let nothing = cmd.substring_char(0, 0);
            let parsed = Args { base: nothing, args: VecDeque::new(), rest: nothing };
            assert(parsed@.args =~= Seq::<Seq<char>>::empty());
            assert(parsed@.base =~= Seq::<char>::empty());
            return parsed;
        }
        let (base_from, base_to) = ranges[1];
        assert(ranges@[0].1 + 1 == ranges@[1].0);
        assert(chars@.subrange(ranges@[0].0 as int, ranges@[0].1 as int).len() == words[0].len());
        assert(chars@.subrange(base_from as int, base_to as int).len() == words[1].len());
        let base = cmd.substring_char(base_from, base_to);
        let mut args: VecDeque<&'a str> = VecDeque::new();
        let mut k: usize = 2;
        while k < ranges.len()
            invariant
                2 <= k <= ranges@.len(),
                chars@ == cmd@,
                ranges@.len() == words.len(),
                forall|i: int|
                    0 <= i < ranges@.len() ==> (#[trigger] ranges@[i]).0 <= ranges@[i].1
                        <= chars@.len() && chars@.subrange(
                        ranges@[i].0 as int,
                        ranges@[i].1 as int,
                    ) == words[i],
                args@.map_values(|word: &str| word@) == words.subrange(2, k as int),
            decreases ranges@.len() - k,
        {
            let (from, to) = ranges[k];
            let word = cmd.substring_char(from, to);
            let ghost before = args@;
            args.push_back(word);
            assert(args@.map_values(|word: &str| word@) =~= before.map_values(|word: &str| word@).push(
                word@,
            ));
            assert(words.subrange(2, k + 1) =~= words.subrange(2, k as int).push(words[k as int]));
            k += 1;
        }
        assert(words.subrange(2, k as int) =~= words.skip(2));
        let (rest_from, rest_to) = trim_range(&chars, base_to, chars.len());
        assert(chars@.subrange(base_to as int, chars@.len() as int) =~= cmd@.skip(base_to as int));
        let rest = cmd.substring_char(rest_from, rest_to);
        Args { base, args, rest }
    }
}

/// The entries of a comma-separated list: its pieces that are not empty.
pub open spec fn entries(parts: Seq<Seq<char>>) -> Seq<Seq<char>>
    decreases parts.len(),
{
    if parts.len() == 0 {
        Seq::empty()
    } else if parts.last().len() > 0 {
        entries(parts.drop_last()).push(parts.last())
    } else {
        entries(parts.drop_last())
    }
}

/// `items` without every occurrence of `item`.
pub open spec fn without(items: Seq<Seq<char>>, item: Seq<char>) -> Seq<Seq<char>>
    decreases items.len(),
{
    if items.len() == 0 {
        Seq::empty()
    } else if items.last() != item {
        without(items.drop_last(), item).push(items.last())
    } else {
        without(items.drop_last(), item)
    }
}

/// `sorted` with `item` put where the order of strings wants it, unless it is
/// there already.
pub open spec fn inserted(sorted: Seq<Seq<char>>, item: Seq<char>) -> Seq<Seq<char>>
    decreases sorted.len(),
{
    if sorted.len() == 0 {
        seq![item]
    } else if sorted.last() == item {
        sorted
    } else if text_less(sorted.last(), item) {
        sorted.push(item)
    } else {
        inserted(sorted.drop_last(), item).push(sorted.last())
    }
}

/// The different strings among `items`, in the order of strings.
pub open spec fn sorted_set(items: Seq<Seq<char>>) -> Seq<Seq<char>>
    decreases items.len(),
{
    if items.len() == 0 {
        Seq::empty()
    } else {
        inserted(sorted_set(items.drop_last()), items.last())
    }
}

/// Whether each string of `s` comes before the next in the order of strings.
pub open spec fn ascending(s: Seq<Seq<char>>) -> bool {
    forall|i: int, j: int| 0 <= i < j < s.len() ==> text_less(#[trigger] s[i], #[trigger] s[j])
}

/// The list `items` with `new_item` added: the entries and the new item, each
/// once, in the order of strings, with commas between.
pub open spec fn list_with(items: Seq<char>, new_item: Seq<char>) -> Seq<char> {
    joined(sorted_set(entries(split_on(items, ',')).push(new_item)), ","@)
}

/// The list `items` with `old_item` taken out: the other entries in their
/// order, with commas between.
pub open spec fn list_without(items: Seq<char>, old_item: Seq<char>) -> Seq<char> {
    joined(without(entries(split_on(items, ',')), old_item), ","@)
}

/// Inserting into an ascending sequence leaves it ascending, with the item
/// added to what it held.
pub proof fn lemma_inserted(sorted: Seq<Seq<char>>, item: Seq<char>)
    requires
        ascending(sorted),
    ensures
        ascending(inserted(sorted, item)),
        forall|x: Seq<char>|
            #[trigger] inserted(sorted, item).contains(x) <==> (sorted.contains(x) || x == item),
    decreases sorted.len(),
{
    let out = inserted(sorted, item);
    if sorted.len() == 0 {
        assert(out[0] == item);
    } else if sorted.last() == item {
        assert(sorted[sorted.len() - 1] == item);
    } else if text_less(sorted.last(), item) {
        assert forall|i: int, j: int| 0 <= i < j < out.len() implies text_less(
            #[trigger] out[i],
            #[trigger] out[j],
        ) by {
            if j == sorted.len() {
                if i < sorted.len() - 1 {
                    assert(text_less(sorted[i], sorted[sorted.len() - 1]));
                    lemma_text_order(sorted[i], sorted.last(), item);
                }
            }
        }
        assert forall|x: Seq<char>| out.contains(x) <==> (sorted.contains(x) || x == item) by {
            if out.contains(x) {
                let k = choose|k: int| 0 <= k < out.len() && out[k] == x;
                if k < sorted.len() {
                    assert(sorted[k] == x);
                }
            }
            if sorted.contains(x) {
                let k = choose|k: int| 0 <= k < sorted.len() && sorted[k] == x;
                assert(out[k] == x);
            }
            if x == item {
                assert(out[sorted.len() as int] == x);
            }
        }
    } else {
        let init = sorted.drop_last();
        let last = sorted.last();
        assert forall|i: int, j: int| 0 <= i < j < init.len() implies text_less(
            #[trigger] init[i],
            #[trigger] init[j],
        ) by {
            assert(text_less(sorted[i], sorted[j]));
        }
        lemma_inserted(init, item);
        let mid = inserted(init, item);
        lemma_text_order(last, item, item);
        assert(text_less(item, last));
        assert forall|i: int, j: int| 0 <= i < j < out.len() implies text_less(
            #[trigger] out[i],
            #[trigger] out[j],
        ) by {
            if j == mid.len() {
                assert(mid.contains(mid[i]));
                if init.contains(mid[i]) {
                    let k = choose|k: int| 0 <= k < init.len() && init[k] == mid[i];
                    assert(text_less(sorted[k], sorted[sorted.len() - 1]));
                }
            } else {
                assert(text_less(mid[i], mid[j]));
            }
        }
        assert forall|x: Seq<char>| out.contains(x) <==> (sorted.contains(x) || x == item) by {
            if out.contains(x) {
                let k = choose|k: int| 0 <= k < out.len() && out[k] == x;
                if k < mid.len() {
                    assert(mid.contains(mid[k]));
                    if init.contains(x) {
                        let m = choose|m: int| 0 <= m < init.len() && init[m] == x;
                        assert(sorted[m] == x);
                    }
                } else {
                    assert(sorted[sorted.len() - 1] == x);
                }
            }
            if sorted.contains(x) {
                let k = choose|k: int| 0 <= k < sorted.len() && sorted[k] == x;
                if k < init.len() {
                    assert(init[k] == x);
                    assert(init.contains(x));
                    assert(mid.contains(x));
                    let m = choose|m: int| 0 <= m < mid.len() && mid[m] == x;
                    assert(out[m] == x);
                } else {
                    assert(out[mid.len() as int] == x);
                }
            }
            if x == item {
                assert(mid.contains(item));
                let m = choose|m: int| 0 <= m < mid.len() && mid[m] == item;
                assert(out[m] == x);
            }
        }
    }
}

/// `sorted_set` is the one ascending sequence that holds exactly the strings
/// of `items`: sorted, and each string once.
pub proof fn lemma_sorted_set(items: Seq<Seq<char>>)
    ensures
        ascending(sorted_set(items)),
        forall|x: Seq<char>| #[trigger] sorted_set(items).contains(x) <==> items.contains(x),
    decreases items.len(),
{
    if items.len() > 0 {
        let init = items.drop_last();
        lemma_sorted_set(init);
        lemma_inserted(sorted_set(init), items.last());
        assert forall|x: Seq<char>| sorted_set(items).contains(x) <==> items.contains(x) by {
            if items.contains(x) {
                let k = choose|k: int| 0 <= k < items.len() && items[k] == x;
                if k < init.len() {
                    assert(init[k] == x);
                }
            }
            if init.contains(x) {
                let k = choose|k: int| 0 <= k < init.len() && init[k] == x;
                assert(items[k] == x);
            }
            if x == items.last() {
                assert(items[items.len() - 1] == x);
            }
        }
    }
}

/// The views of `lines`, in order.
pub open spec fn lines(list: Seq<Vec<char>>) -> Seq<Seq<char>> {
    list.map_values(|line: Vec<char>| line@)
}

/// Puts `item` into `sorted` where the order of strings wants it, unless it
/// is there already.
fn insert_sorted(sorted: &mut Vec<Vec<char>>, item: Vec<char>)
    ensures
        lines(final(sorted)@) == inserted(lines(old(sorted)@), item@),
{
    let ghost all = lines(sorted@);
    let mut p: usize = sorted.len();
    assert(all.take(p as int) =~= all);
    assert(inserted(all, item@) + all.skip(p as int) =~= inserted(all, item@));
    while p > 0 && !same_chars(&sorted[p - 1], &item) && !chars_less(&sorted[p - 1], &item)
        invariant
            p <= sorted@.len(),
            all == lines(sorted@),
            inserted(all, item@) == inserted(all.take(p as int), item@) + all.skip(p as int),
        decreases p,
    {
        let ghost prefix = all.take(p as int);
        assert(prefix.last() == sorted@[p - 1]@);
        assert(prefix.drop_last() =~= all.take(p - 1));
        assert(inserted(all.take(p - 1), item@).push(prefix.last()) + all.skip(p as int)
            =~= inserted(all.take(p - 1), item@) + all.skip(p - 1));
        p -= 1;
    }
    let ghost prefix = all.take(p as int);
    if p > 0 {
        assert(prefix.last() == sorted@[p - 1]@);
    }
    if p > 0 && same_chars(&sorted[p - 1], &item) {
        assert(prefix + all.skip(p as int) =~= all);
    } else {
        sorted.insert(p, item);
        assert(lines(sorted@) =~= prefix.push(item@) + all.skip(p as int));
        if p == 0 {
            assert(seq![item@] =~= prefix.push(item@));
        }
    }
}

/// The entries of the comma-separated list in `chars`, copied.
fn list_entries(chars: &Vec<char>) -> (items: Vec<Vec<char>>)
    ensures
        lines(items@) == entries(split_on(chars@, ',')),
{
    let ranges = split_ranges(chars, ',');
    let ghost parts = split_on(chars@, ',');
    let mut items: Vec<Vec<char>> = Vec::new();
    let mut k: usize = 0;
    assert(lines(items@) =~= entries(parts.take(0)));
    while k < ranges.len()
        invariant
            k <= ranges@.len(),
            ranges@.len() == parts.len(),
            forall|i: int|
                0 <= i < ranges@.len() ==> (#[trigger] ranges@[i]).0 <= ranges@[i].1 <= chars@.len()
                    && chars@.subrange(ranges@[i].0 as int, ranges@[i].1 as int) == parts[i],
            lines(items@) == entries(parts.take(k as int)),
        decreases ranges@.len() - k,
    {
        let (from, to) = ranges[k];
        assert(parts.take(k + 1).drop_last() =~= parts.take(k as int));
        assert(parts.take(k + 1).last() == parts[k as int]);
        if to > from {
            let piece = slice_of(chars, from, to);
            let ghost before = items@;
            items.push(piece);
            assert(lines(items@) =~= lines(before).push(piece@));
        }
        k += 1;
    }
    assert(parts.take(k as int) =~= parts);
    items
}

/// Writes `items` with commas between.
fn write_list(items: &Vec<Vec<char>>) -> (out: String)
    ensures
        out@ == joined(lines(items@), ","@),
{
    let mut strings: Vec<String> = Vec::new();
    let mut k: usize = 0;
    while k < items.len()
        invariant
            k <= items@.len(),
            texts(strings@) == lines(items@).take(k as int),
        decreases items@.len() - k,
    {
        let s = string_of(&items[k]);
        let ghost before = strings@;
        strings.push(s);
        assert(texts(strings@) =~= texts(before).push(s@));
        assert(lines(items@).take(k + 1) =~= lines(items@).take(k as int).push(items@[k as int]@));
        k += 1;
    }
    assert(lines(items@).take(k as int) =~= lines(items@));
    join(&strings, ",")
}

/// Adds `new_item` to the comma-separated list `items`. The result is sorted
/// and holds no entry twice.
pub fn add_item(items: &str, new_item: &str) -> (out: String)
    ensures
        out@ == list_with(items@, new_item@),
{
    let chars = chars_of(items);
    let mut all = list_entries(&chars);
    let ghost found = lines(all@);
    let item = chars_of(new_item);
    all.push(item);
    assert(lines(all@) =~= found.push(new_item@));
    let mut sorted: Vec<Vec<char>> = Vec::new();
    let mut k: usize = 0;
    assert(lines(sorted@) =~= sorted_set(lines(all@).take(0)));
    while k < all.len()
        invariant
            k <= all@.len(),
            lines(sorted@) == sorted_set(lines(all@).take(k as int)),
        decreases all@.len() - k,
    {
        assert(lines(all@).take(k + 1).drop_last() =~= lines(all@).take(k as int));
        assert(lines(all@).take(k + 1).last() == all@[k as int]@);
        let copy = slice_of(&all[k], 0, all[k].len());
        assert(copy@ =~= all@[k as int]@);
        insert_sorted(&mut sorted, copy);
        k += 1;
    }
    assert(lines(all@).take(k as int) =~= lines(all@));
    write_list(&sorted)
}

/// Takes `old_item` out of the comma-separated list `items`. The other
/// entries stay in their order.
pub fn remove_item(items: &str, old_item: &str) -> (out: String)
    ensures
        out@ == list_without(items@, old_item@),
{
    let chars = chars_of(items);
    let all = list_entries(&chars);
    let item = chars_of(old_item);
    let mut kept: Vec<Vec<char>> = Vec::new();
    let mut k: usize = 0;
    assert(lines(kept@) =~= without(lines(all@).take(0), old_item@));
    while k < all.len()
        invariant
            k <= all@.len(),
            item@ == old_item@,
            lines(kept@) == without(lines(all@).take(k as int), old_item@),
        decreases all@.len() - k,
    {
        assert(lines(all@).take(k + 1).drop_last() =~= lines(all@).take(k as int));
        assert(lines(all@).take(k + 1).last() == all@[k as int]@);
        if !same_chars(&all[k], &item) {
            let copy = slice_of(&all[k], 0, all[k].len());
            assert(copy@ =~= all@[k as int]@);
            let ghost before = kept@;
            kept.push(copy);
            assert(lines(kept@) =~= lines(before).push(copy@));
        }
        k += 1;
    }
    assert(lines(all@).take(k as int) =~= lines(all@));
    write_list(&kept)
}

/// What the user asks the program to do.
#[derive(Clone, Copy, Debug, PartialEq, Eq, Structural)]
pub enum Command {
    /// No sub-command was given.
    Missing,
    Connect,
    Disconnect,
    IrcMode,
    DiscordMode,
    Token,
    Autostart,
    NoAutostart,
    Query,
    Join,
    Watch,
    NoWatch,
    Watched,
    Autojoin,
    NoAutojoin,
    Autojoined,
    Status,
    Pins,
    Game,
    Upload,
    /// Send a message in one of the fixed forms: `me`, `tableflip`, `unflip`,
    /// `shrug`, `spoiler`.
    Format,
    Rehistory,
    Unknown,
}

/// The command that the sub-command `base` names.
pub open spec fn command_named(base: Seq<char>) -> Command {
    if base.len() == 0 {
        Command::Missing
    } else if base == "connect"@ {
        Command::Connect
    } else if base == "disconnect"@ {
        Command::Disconnect
    } else if base == "irc-mode"@ {
        Command::IrcMode
    } else if base == "discord-mode"@ {
        Command::DiscordMode
    } else if base == "token"@ {
        Command::Token
    } else if base == "autostart"@ {
        Command::Autostart
    } else if base == "noautostart"@ {
        Command::NoAutostart
    } else if base == "query"@ {
        Command::Query
    } else if base == "join"@ {
        Command::Join
    } else if base == "watch"@ {
        Command::Watch
    } else if base == "nowatch"@ {
        Command::NoWatch
    } else if base == "watched"@ {
        Command::Watched
    } else if base == "autojoin"@ {
        Command::Autojoin
    } else if base == "noautojoin"@ {
        Command::NoAutojoin
    } else if base == "autojoined"@ {
        Command::Autojoined
    } else if base == "status"@ {
        Command::Status
    } else if base == "pins"@ || base == "pinned"@ {
        Command::Pins
    } else if base == "game"@ {
        Command::Game
    } else if base == "upload"@ {
        Command::Upload
    } else if base == "me"@ || base == "tableflip"@ || base == "unflip"@ || base == "shrug"@ || base
        == "spoiler"@ {
        Command::Format
    } else if base == "rehistory"@ {
        Command::Rehistory
    } else {
        Command::Unknown
    }
}

/// Whether `text` is the word `word`.
fn is_word(text: &str, word: &str) -> (b: bool)
    ensures
        b == (text@ == word@),
{
    let a = text.to_owned();
    let b = word.to_owned();
    a == b
}

/// Decides which command a command line asks for.
pub fn run_command(args: &Args) -> (command: Command)
    ensures
        command == command_named(args.base@),
{
    let base = args.base;
    if base.is_empty() {
        Command::Missing
    } else if is_word(base, "connect") {
        Command::Connect
    } else if is_word(base, "disconnect") {
        Command::Disconnect
    } else if is_word(base, "irc-mode") {
        Command::IrcMode
    } else if is_word(base, "discord-mode") {
        Command::DiscordMode
    } else if is_word(base, "token") {
        Command::Token
    } else if is_word(base, "autostart") {
        Command::Autostart
    } else if is_word(base, "noautostart") {
        Command::NoAutostart
    } else if is_word(base, "query") {
        Command::Query
    } else if is_word(base, "join") {
        Command::Join
    } else if is_word(base, "watch") {
        Command::Watch
    } else if is_word(base, "nowatch") {
        Command::NoWatch
    } else if is_word(base, "watched") {
        Command::Watched
    } else if is_word(base, "autojoin") {
        Command::Autojoin
    } else if is_word(base, "noautojoin") {
        Command::NoAutojoin
    } else if is_word(base, "autojoined") {
        Command::Autojoined
    } else if is_word(base, "status") {
        Command::Status
    } else if is_word(base, "pins") || is_word(base, "pinned") {
        Command::Pins
    } else if is_word(base, "game") {
        Command::Game
    } else if is_word(base, "upload") {
        Command::Upload
    } else if is_word(base, "me") || is_word(base, "tableflip") || is_word(base, "unflip")
        || is_word(base, "shrug") || is_word(base, "spoiler") {
        Command::Format
    } else if is_word(base, "rehistory") {
        Command::Rehistory
    } else {
        Command::Unknown
    }
}

/// The message that one of the fixed forms makes of `msg`; none for a word
/// that names no form.
pub open spec fn formatted(cmd: Seq<char>, msg: Seq<char>) -> Option<Seq<char>> {
    if cmd == "me"@ {
        Some("_"@ + msg + "_"@)
    } else if cmd == "tableflip"@ {
        Some(msg + " (\u{256f}\u{b0}\u{25a1}\u{b0}\u{ff09}\u{256f}\u{fe35} \u{253b}\u{2501}\u{253b}"@)
    } else if cmd == "unflip"@ {
        Some(msg + " \u{252c}\u{2500}\u{252c} \u{30ce}( \u{309c}-\u{309c}\u{30ce})"@)
    } else if cmd == "shrug"@ {
        Some(msg + " \u{af}\\_(\u{30c4})_/\u{af}"@)
    } else if cmd == "spoiler"@ {
        Some("||"@ + msg + "||"@)
    } else {
        None
    }
}

/// Puts `msg` into the form that `cmd` names.
pub fn discord_fmt(cmd: &str, msg: &str) -> (out: Option<String>)
    ensures
        match out {
            Some(text) => formatted(cmd@, msg@) == Some(text@),
            None => formatted(cmd@, msg@) is None,
        },
{
    let mut text = String::new();
    if is_word(cmd, "me") {
        text.append("_");
        text.append(msg);
        text.append("_");
        assert(text@ =~= "_"@ + msg@ + "_"@);
    } else if is_word(cmd, "tableflip") {
        text.append(msg);
        text.append(" (\u{256f}\u{b0}\u{25a1}\u{b0}\u{ff09}\u{256f}\u{fe35} \u{253b}\u{2501}\u{253b}");
    } else if is_word(cmd, "unflip") {
        text.append(msg);
        text.append(" \u{252c}\u{2500}\u{252c} \u{30ce}( \u{309c}-\u{309c}\u{30ce})");
    } else if is_word(cmd, "shrug") {
        text.append(msg);
        text.append(" \u{af}\\_(\u{30c4})_/\u{af}");
    } else if is_word(cmd, "spoiler") {
        text.append("||");
        text.append(msg);
        text.append("||");
        assert(text@ =~= "||"@ + msg@ + "||"@);
    } else {
        return None;
    }
    Some(text)
}

/// The status that a word names, the word given in lower case.
pub open spec fn status_of(lowered: Seq<char>) -> Option<OnlineStatus> {
    if lowered == "online"@ {
        Some(OnlineStatus::Online)
    } else if lowered == "offline"@ || lowered == "invisible"@ {
        Some(OnlineStatus::Invisible)
    } else if lowered == "idle"@ {
        Some(OnlineStatus::Idle)
    } else if lowered == "dnd"@ {
        Some(OnlineStatus::DoNotDisturb)
    } else {
        None
    }
}

/// The status that `lowered` names, a word in lower case.
pub fn status_named(lowered: &str) -> (status: Option<OnlineStatus>)
    ensures
        status == status_of(lowered@),
{
    if is_word(lowered, "online") {
        Some(OnlineStatus::Online)
    } else if is_word(lowered, "offline") || is_word(lowered, "invisible") {
        Some(OnlineStatus::Invisible)
    } else if is_word(lowered, "idle") {
        Some(OnlineStatus::Idle)
    } else if is_word(lowered, "dnd") {
        Some(OnlineStatus::DoNotDisturb)
    } else {
        None
    }
}

/// The status that a `status` command asks for: the one that its first
/// argument names, whatever the case of the letters, and `online` without an
/// argument. None for a word that names no status.
pub fn status(args: &Args) -> (wanted: Option<OnlineStatus>)
    ensures
        wanted == if args.args@.len() == 0 {
            Some(OnlineStatus::Online)
        } else {
            status_of(lowercased(args.args@[0]@))
        },
{
    if args.args.len() == 0 {
        return Some(OnlineStatus::Online);
    }
    let lowered = to_lowercase(args.args[0]);
    status_named(lowered.as_str())
}

/// How the host answered the change of an option.
#[derive(Clone, Copy, Debug, PartialEq, Eq, Structural)]
pub enum OptionChanged {
    Changed,
    Unchanged,
    NotFound,
    Error,
}

/// What the user is told about the change of the option `name` to `value`,
/// `before` being what the option held.
pub open spec fn option_change(
    name: Seq<char>,
    value: Seq<char>,
    before: Option<Seq<char>>,
    change: OptionChanged,
) -> Seq<char> {
    match (change, before) {
        (OptionChanged::Changed, Some(before)) => "option "@ + name + " successfully changed from "@
            + before + " to "@ + value,
        (OptionChanged::Changed, None) | (OptionChanged::Unchanged, None) => "option "@ + name
            + " successfully set to "@ + value,
        (OptionChanged::Unchanged, Some(before)) => "option "@ + name + " already contained "@
            + before,
        (OptionChanged::NotFound, _) => "option "@ + name + " not found"@,
        (OptionChanged::Error, Some(before)) => "error when setting option "@ + name + " to "@
            + value + " (was "@ + before + ")"@,
        (OptionChanged::Error, None) => "error when setting option "@ + name + " to "@ + value,
    }
}

/// Words the answer of the host to the change of an option.
pub fn format_option_change(name: &str, value: &str, before: Option<&str>, change: OptionChanged) -> (msg:
    String)
    ensures
        msg@ == option_change(
            name@,
            value@,
            match before {
                Some(b) => Some(b@),
                None => None,
            },
            change,
        ),
{
    let mut msg = String::new();
    match (change, before) {
        (OptionChanged::Changed, Some(before)) => {
            msg.append("option ");
            msg.append(name);
            msg.append(" successfully changed from ");
            msg.append(before);
            msg.append(" to ");
            msg.append(value);
            assert(msg@ =~= "option "@ + name@ + " successfully changed from "@ + before@ + " to "@
                + value@);
        },
        (OptionChanged::Changed, None) | (OptionChanged::Unchanged, None) => {
            msg.append("option ");
            msg.append(name);
            msg.append(" successfully set to ");
            msg.append(value);
            assert(msg@ =~= "option "@ + name@ + " successfully set to "@ + value@);
        },
        (OptionChanged::Unchanged, Some(before)) => {
            msg.append("option ");
            msg.append(name);
            msg.append(" already contained ");
            msg.append(before);
            assert(msg@ =~= "option "@ + name@ + " already contained "@ + before@);
        },
        (OptionChanged::NotFound, _) => {
            msg.append("option ");
            msg.append(name);
            msg.append(" not found");
            assert(msg@ =~= "option "@ + name@ + " not found"@);
        },
        (OptionChanged::Error, Some(before)) => {
            msg.append("error when setting option ");
            msg.append(name);
            msg.append(" to ");
            msg.append(value);
            msg.append(" (was ");
            msg.append(before);
            msg.append(")");
            assert(msg@ =~= "error when setting option "@ + name@ + " to "@ + value@ + " (was "@
                + before@ + ")"@);
        },
        (OptionChanged::Error, None) => {
            msg.append("error when setting option ");
            msg.append(name);
            msg.append(" to ");
            msg.append(value);
            assert(msg@ =~= "error when setting option "@ + name@ + " to "@ + value@);
        },
    }
    msg
}

/// `s` without the double quotes at its beginning.
pub open spec fn unquote_start(s: Seq<char>) -> Seq<char>
    decreases s.len(),
{
    if s.len() > 0 && s[0] == '"' {
        unquote_start(s.drop_first())
    } else {
        s
    }
}

/// `s` without the double quotes at its end.
pub open spec fn unquote_end(s: Seq<char>) -> Seq<char>
    decreases s.len(),
{
    if s.len() > 0 && s.last() == '"' {
        unquote_end(s.drop_last())
    } else {
        s
    }
}

/// The token that a `token` command gives: what stands behind the
/// sub-command, without the double quotes around it. None without an
/// argument.
pub fn token(args: &Args) -> (value: Option<String>)
    ensures
        match value {
            Some(v) => args.args@.len() > 0 && v@ == unquote_end(unquote_start(args.rest@)),
            None => args.args@.len() == 0,
        },
{
    if args.args.len() == 0 {
        return None;
    }
    let chars = chars_of(args.rest);
    let n: usize = chars.len();
    let mut a: usize = 0;
    assert(chars@.subrange(0, n as int) =~= chars@);
    while a < n && chars[a] == '"'
        invariant
            a <= n == chars@.len(),
            unquote_start(chars@) == unquote_start(chars@.subrange(a as int, n as int)),
        decreases n - a,
    {
        assert(chars@.subrange(a as int, n as int).drop_first() =~= chars@.subrange(
            a + 1,
            n as int,
        ));
        a += 1;
    }
    let mut b: usize = n;
    while a < b && chars[b - 1] == '"'
        invariant
            a <= b <= n == chars@.len(),
            unquote_end(chars@.subrange(a as int, n as int)) == unquote_end(
                chars@.subrange(a as int, b as int),
            ),
        decreases b - a,
    {
        assert(chars@.subrange(a as int, b as int).drop_last() =~= chars@.subrange(
            a as int,
            b - 1,
        ));
        b -= 1;
    }
    let kept = slice_of(&chars, a, b);
    Some(string_of(&kept))
}

/// The path of a file to upload: `~/` at its beginning stands for the home
/// directory, or for the directory at hand where no home is known.
pub fn expand_home(file: &str, home: Option<&str>) -> (path: String)
    ensures
        path@ == if file@.len() >= 2 && file@[0] == '~' && file@[1] == '/' {
            (match home {
                Some(h) => h@,
                None => seq!['.'],
            }) + seq!['/'] + file@.skip(2)
        } else {
            file@
        },
{
    let chars = chars_of(file);
    if chars.len() >= 2 && chars[0] == '~' && chars[1] == '/' {
        let mut path = String::new();
        match home {
            Some(h) => {
                path.append(h);
            },
            None => {
                crate::text::push_char(&mut path, '.');
            },
        }
        crate::text::push_char(&mut path, '/');
        let tail = file.substring_char(2, chars.len());
        path.append(tail);
        assert(file@.subrange(2, file@.len() as int) =~= file@.skip(2));
        assert(path@ =~= (match home {
            Some(h) => h@,
            None => seq!['.'],
        }) + seq!['/'] + file@.skip(2));
        path
    } else {
        file.to_owned()
    }
}

/// What a `game` command asks for.
#[derive(Debug, PartialEq, Eq)]
pub enum Activity {
    /// No activity is shown.
    Clear,
    Playing(String),
    Listening(String),
    Watching(String),
    /// The first argument names no kind of activity.
    Unknown(String),
}

/// An `Activity` as a mathematical value.
pub enum ActivityView {
    Clear,
    Playing(Seq<char>),
    Listening(Seq<char>),
    Watching(Seq<char>),
    Unknown(Seq<char>),
}

impl View for Activity {
    type V = ActivityView;

    open spec fn view(&self) -> ActivityView {
        match self {
            Activity::Clear => ActivityView::Clear,
            Activity::Playing(s) => ActivityView::Playing(s@),
            Activity::Listening(s) => ActivityView::Listening(s@),
            Activity::Watching(s) => ActivityView::Watching(s@),
            Activity::Unknown(s) => ActivityView::Unknown(s@),
        }
    }
}

/// The activity that the arguments of a `game` command name. One argument is
/// a game that is played. With more, the first says what is done and the
/// others what it is done with: what stands in `rest` behind the first
/// argument and one more character.
pub open spec fn activity_of(args: ArgsView) -> ActivityView {
    if args.args.len() == 0 {
        ActivityView::Clear
    } else if args.args.len() == 1 {
        ActivityView::Playing(args.args[0])
    } else {
        let kind = args.args[0];
        let what = if args.rest.len() >= kind.len() + 1 {
            args.rest.skip((kind.len() + 1) as int)
        } else {
            Seq::empty()
        };
        if kind == "playing"@ || kind == "play"@ {
            ActivityView::Playing(what)
        } else if kind == "listening"@ {
            ActivityView::Listening(what)
        } else if kind == "watching"@ || kind == "watch"@ {
            ActivityView::Watching(what)
        } else {
            ActivityView::Unknown(kind)
        }
    }
}

/// Reads the activity that a `game` command asks for.
pub fn game(args: &Args) -> (activity: Activity)
    ensures
        activity@ == activity_of(args@),
{
    if args.args.len() == 0 {
        return Activity::Clear;
    }
    let kind: &str = args.args[0];
    assert(args@.args[0] == kind@);
    if args.args.len() == 1 {
        return Activity::Playing(kind.to_owned());
    }
    let rest = chars_of(args.rest);
    let skip = chars_of(kind).len();
    let what = if rest.len() > skip {
        let tail = slice_of(&rest, skip + 1, rest.len());
        assert(tail@ =~= args.rest@.skip(skip + 1));
        string_of(&tail)
    } else {
        String::new()
    };
    if is_word(kind, "playing") || is_word(kind, "play") {
        Activity::Playing(what)
    } else if is_word(kind, "listening") {
        Activity::Listening(what)
    } else if is_word(kind, "watching") || is_word(kind, "watch") {
        Activity::Watching(what)
    } else {
        Activity::Unknown(kind.to_owned())
    }
}

/// The arguments of `args` that are not empty: the first and the second of
/// them, which name a guild and a channel.
pub open spec fn named_place(args: Seq<Seq<char>>) -> Option<(Seq<char>, Option<Seq<char>>)> {
    let given = entries(args);
    if given.len() == 0 {
        None
    } else if given.len() == 1 {
        Some((given[0], None))
    } else {
        Some((given[0], Some(given[1])))
    }
}

/// The guild and the channel that the arguments of a command name.
pub fn place_args<'a>(args: &Args<'a>) -> (place: Option<(&'a str, Option<&'a str>)>)
    ensures
        match (place, named_place(args@.args)) {
            (None, None) => true,
            (Some((guild, None)), Some((g, None))) => guild@ == g,
            (Some((guild, Some(channel))), Some((g, Some(c)))) => guild@ == g && channel@ == c,
            _ => false,
        },
{
    let ghost all = args@.args;
    let mut guild: Option<&'a str> = None;
    let mut channel: Option<&'a str> = None;
    let mut k: usize = 0;
    assert(all.take(0) =~= Seq::<Seq<char>>::empty());
    while k < args.args.len()
        invariant
            k <= args.args@.len(),
            all == args@.args,
            all.len() == args.args@.len(),
            match (guild, channel) {
                (None, None) => entries(all.take(k as int)).len() == 0,
                (Some(g), None) => entries(all.take(k as int)) == seq![g@],
                (Some(g), Some(c)) => entries(all.take(k as int)).len() >= 2 && entries(
                    all.take(k as int),
                )[0] == g@ && entries(all.take(k as int))[1] == c@,
                (None, Some(_)) => false,
            },
        decreases args.args@.len() - k,
    {
        assert(all.take(k + 1).drop_last() =~= all.take(k as int));
        assert(all.take(k + 1).last() == args.args@[k as int]@);
        let word: &'a str = args.args[k];
        if !word.is_empty() {
            if guild.is_none() {
                guild = Some(word);
            } else if channel.is_none() {
                channel = Some(word);
            }
        }
        k += 1;
    }
    assert(all.take(k as int) =~= all);
    match guild {
        Some(g) => Some((g, channel)),
        None => None,
    }
}

} // verus!
