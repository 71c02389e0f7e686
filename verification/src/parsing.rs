//! Small grammars of the command line: names as command arguments, and the
//! `s/old/new/` shorthand that edits or deletes one of the user's own lines.

use crate::numbers::is_digit;
use crate::text::{chars_of, push_char, trim_range, trimmed};
use vstd::prelude::*;

verus! {

/// The replacement of spaces by underscores, character by character.
pub open spec fn underscore() -> spec_fn(char) -> char {
    |c: char|
        if c == ' ' {
            '_'
        } else {
            c
        }
}

/// `s` as it may stand as one argument of a command: trimmed, with every
/// space inside replaced by an underscore.
pub open spec fn arg_stripped(s: Seq<char>) -> Seq<char> {
    trimmed(s).map_values(underscore())
}

/// Makes a guild or channel name usable as a single command argument.
pub fn weechat_arg_strip(text: &str) -> (out: String)
    ensures
        out@ == arg_stripped(text@),
{
    let chars = chars_of(text);
    let (from, to) = trim_range(&chars, 0, chars.len());
    assert(chars@.subrange(0, chars@.len() as int) =~= chars@);
    let ghost kept = chars@.subrange(from as int, to as int);
    let mut out = String::new();
    let mut i: usize = from;
    while i < to
        invariant
            from <= i <= to <= chars@.len(),
            kept == chars@.subrange(from as int, to as int),
            out@ == kept.take(i - from).map_values(underscore()),
        decreases to - i,
    {
        let c = chars[i];
        let shown = if c == ' ' {
            '_'
        } else {
            c
        };
        push_char(&mut out, shown);
        assert(kept[i - from] == c);
        assert(kept.take(i - from + 1).map_values(underscore()) =~= kept.take(i - from).map_values(
            underscore(),
        ).push(shown));
        i += 1;
    }
    assert(kept.take(to - from) =~= kept);
    out
}

/// An edit of one of the user's own recent lines.
#[derive(Debug)]
pub enum LineEdit<'a> {
    /// Replace `old` by `new` in the line; `options` are the letters behind
    /// the closing slash, if there are any.
    Sub { line: usize, old: &'a str, new: &'a str, options: Option<&'a str> },
    /// Delete the line.
    Delete { line: usize },
}

/// A `LineEdit` as a mathematical value.
pub enum LineEditView {
    Sub { line: nat, old: Seq<char>, new: Seq<char>, options: Option<Seq<char>> },
    Delete { line: nat },
}

impl<'a> View for LineEdit<'a> {
    type V = LineEditView;

    open spec fn view(&self) -> LineEditView {
        match *self {
            LineEdit::Sub { line, old, new, options } => LineEditView::Sub {
                line: line as nat,
                old: old@,
                new: new@,
                options: match options {
                    Some(o) => Some(o@),
                    None => None,
                },
            },
            LineEdit::Delete { line } => LineEditView::Delete { line: line as nat },
        }
    }
}

/// An ASCII letter, an ASCII digit or the underscore.
pub open spec fn is_word_char(c: char) -> bool {
    let n = c as u32;
    ||| 0x30 <= n <= 0x39
    ||| 0x41 <= n <= 0x5a
    ||| 0x61 <= n <= 0x7a
    ||| n == 0x5f
}

/// How an edit begins: the line it names and the position behind `s/`. The
/// line is given by one optional digit and is 1 without it.
pub open spec fn edit_head(s: Seq<char>) -> Option<(nat, int)> {
    if s.len() >= 3 && is_digit(s[0]) && s[1] == 's' && s[2] == '/' {
        Some(((s[0] as u32 - 0x30) as nat, 3))
    } else if s.len() >= 2 && s[0] == 's' && s[1] == '/' {
        Some((1, 2))
    } else {
        None
    }
}

/// The position of the slash that closes the field starting at `from`: the
/// first slash at or behind `from` that no backslash stands directly in front
/// of. A field does not reach over a line feed.
pub open spec fn closing_slash(s: Seq<char>, from: int) -> Option<int>
    decreases s.len() - from,
{
    if from < 1 || from >= s.len() {
        None
    } else if s[from] == '/' && s[from - 1] != '\\' {
        Some(from)
    } else if s[from] == '\n' {
        None
    } else {
        closing_slash(s, from + 1)
    }
}

/// The end of the run of word characters that starts at `from`.
pub open spec fn word_end(s: Seq<char>, from: int) -> int
    decreases s.len() - from,
{
    if 0 <= from < s.len() && is_word_char(s[from]) {
        word_end(s, from + 1)
    } else {
        from
    }
}

/// The edit that `s` spells, if it spells one.
///
/// An edit is an optional digit, `s/`, the old text, a slash, the new text and
/// a slash, optionally followed by letters; it must begin at the start of `s`,
/// and what follows it is ignored. With both texts empty it deletes the line.
pub open spec fn line_edit(s: Seq<char>) -> Option<LineEditView> {
    match edit_head(s) {
        None => None,
        Some((line, body)) => match closing_slash(s, body) {
            None => None,
            Some(mid) => match closing_slash(s, mid + 1) {
                None => None,
                Some(end) => if mid == body && end == mid + 1 {
                    Some(LineEditView::Delete { line })
                } else {
                    Some(
                        LineEditView::Sub {
                            line,
                            old: s.subrange(body, mid),
                            new: s.subrange(mid + 1, end),
                            options: if word_end(s, end + 1) > end + 1 {
                                Some(s.subrange(end + 1, word_end(s, end + 1)))
                            } else {
                                None
                            },
                        },
                    )
                },
            },
        },
    }
}

fn is_word(c: char) -> (b: bool)
    ensures
        b == is_word_char(c),
{
    let n: u32 = c as u32;
    (0x30 <= n && n <= 0x39) || (0x41 <= n && n <= 0x5a) || (0x61 <= n && n <= 0x7a) || n == 0x5f
}

fn find_closing(chars: &Vec<char>, from: usize) -> (at: Option<usize>)
    requires
        1 <= from,
    ensures
        at matches Some(k) ==> closing_slash(chars@, from as int) == Some(k as int) && from <= k
            < chars@.len(),
        at is None ==> closing_slash(chars@, from as int) is None,
{
    let mut k: usize = from;
    while k < chars.len()
        invariant
            1 <= from <= k,
            closing_slash(chars@, from as int) == closing_slash(chars@, k as int),
        decreases chars@.len() - k,
    {
        if chars[k] == '/' && chars[k - 1] != '\\' {
            return Some(k);
        }
        if chars[k] == '\n' {
            return None;
        }
        k += 1;
    }
    None
}

fn find_word_end(chars: &Vec<char>, from: usize) -> (end: usize)
    requires
        from <= chars@.len(),
    ensures
        from <= end <= chars@.len(),
        end == word_end(chars@, from as int),
{
    let mut end: usize = from;
    while end < chars.len() && is_word(chars[end])
        invariant
            from <= end <= chars@.len(),
            word_end(chars@, from as int) == word_end(chars@, end as int),
        decreases chars@.len() - end,
    {
        end += 1;
    }
    end
}

/// Reads `input` as a line edit.
pub fn parse_line_edit<'a>(input: &'a str) -> (edit: Option<LineEdit<'a>>)
    ensures
        edit matches Some(e) ==> line_edit(input@) == Some(e@),
        edit is None ==> line_edit(input@) is None,
{
    let chars = chars_of(input);
    let n: usize = chars.len();
    let line: usize;
    let body: usize;
    if n >= 3 && is_ascii_digit(chars[0]) && chars[1] == 's' && chars[2] == '/' {
        line = (chars[0] as u32 - 0x30) as usize;
        body = 3;
    } else if n >= 2 && chars[0] == 's' && chars[1] == '/' {
        line = 1;
        body = 2;
    } else {
        return None;
    }
    assert(edit_head(chars@) == Some((line as nat, body as int)));
    let mid = match find_closing(&chars, body) {
        Some(mid) => mid,
        None => {
            return None;
        },
    };
    let end = match find_closing(&chars, mid + 1) {
        Some(end) => end,
        None => {
            return None;
        },
    };
    if mid == body && end == mid + 1 {
        return Some(LineEdit::Delete { line });
    }
    let word: usize = find_word_end(&chars, end + 1);
    let old = input.substring_char(body, mid);
    let new = input.substring_char(mid + 1, end);
    let options = if word > end + 1 {
        Some(input.substring_char(end + 1, word))
    } else {
        None
    };
    Some(LineEdit::Sub { line, old, new, options })
}

fn is_ascii_digit(c: char) -> (b: bool)
    ensures
        b == is_digit(c),
{
    let n: u32 = c as u32;
    0x30 <= n && n <= 0x39
}

} // verus!
