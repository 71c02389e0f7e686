//! Markdown as the host shows it: a parsed message turned into text with the
//! host's colour codes.

use crate::text::{
    chars_of, find_sub, find_sub_from, joined, line_ranges, lines_of, pieces, push_char,
    push_range, string_of,
};
use vstd::prelude::*;

verus! {

/// A piece of a parsed message.
#[derive(Debug)]
pub enum MarkdownNode {
    Bold(Vec<MarkdownNode>),
    Italic(Vec<MarkdownNode>),
    Underline(Vec<MarkdownNode>),
    Strikethrough(Vec<MarkdownNode>),
    Spoiler(Vec<MarkdownNode>),
    Text(String),
    InlineCode(String),
    /// A block of code: its language and its text.
    Code(String, String),
    BlockQuote(Vec<MarkdownNode>),
    SingleBlockQuote(Vec<MarkdownNode>),
}

/// The host's codes for the colours and attributes that rendering uses.
#[derive(Debug)]
pub struct Palette {
    pub bold: String,
    pub bold_off: String,
    pub italic: String,
    pub italic_off: String,
    pub underline: String,
    pub underline_off: String,
    pub red: String,
    pub red_off: String,
    /// The colour of code.
    pub code: String,
    pub reset: String,
}

/// A `Palette` as a mathematical value.
pub struct PaletteView {
    pub bold: Seq<char>,
    pub bold_off: Seq<char>,
    pub italic: Seq<char>,
    pub italic_off: Seq<char>,
    pub underline: Seq<char>,
    pub underline_off: Seq<char>,
    pub red: Seq<char>,
    pub red_off: Seq<char>,
    pub code: Seq<char>,
    pub reset: Seq<char>,
}

impl View for Palette {
    type V = PaletteView;

    open spec fn view(&self) -> PaletteView {
        PaletteView {
            bold: self.bold@,
            bold_off: self.bold_off@,
            italic: self.italic@,
            italic_off: self.italic_off@,
            underline: self.underline@,
            underline_off: self.underline_off@,
            red: self.red@,
            red_off: self.red_off@,
            code: self.code@,
            reset: self.reset@,
        }
    }
}

/// The bar in front of every line of a quote.
pub open spec fn quote_bar() -> char {
    '\u{258e}'
}

/// `line` behind its quote mark: what follows the first `> `, or all of it
/// where there is none.
pub open spec fn bracket_stripped(line: Seq<char>) -> Seq<char> {
    match find_sub(line, seq!['>', ' ']) {
        Some(i) => line.skip(i + 2),
        None => line,
    }
}

/// `lines` as a quote: each with the bar in front and a line feed behind.
pub open spec fn block_quote(lines: Seq<Seq<char>>) -> Seq<char>
    decreases lines.len(),
{
    if lines.len() == 0 {
        Seq::empty()
    } else {
        block_quote(lines.drop_last()) + seq![quote_bar()] + lines.last() + seq!['\n']
    }
}

/// `lines`, each between the codes `on` and `off`.
pub open spec fn coloured(lines: Seq<Seq<char>>, on: Seq<char>, off: Seq<char>) -> Seq<Seq<char>> {
    lines.map_values(|line: Seq<char>| on + line + off)
}

/// `lines`, each behind its quote mark.
pub open spec fn brackets_stripped(lines: Seq<Seq<char>>) -> Seq<Seq<char>> {
    lines.map_values(|line: Seq<char>| bracket_stripped(line))
}

/// What the host shows for `node`.
pub open spec fn rendered(node: MarkdownNode, p: PaletteView) -> Seq<char>
    decreases node,
{
    match node {
        MarkdownNode::Bold(nodes) => p.bold + rendered_all(nodes@, p) + p.bold_off,
        MarkdownNode::Italic(nodes) => p.italic + rendered_all(nodes@, p) + p.italic_off,
        MarkdownNode::Underline(nodes) => p.underline + rendered_all(nodes@, p) + p.underline_off,
        MarkdownNode::Strikethrough(nodes) => p.red + "~~"@ + rendered_all(nodes@, p) + "~~"@
            + p.red_off,
        MarkdownNode::Spoiler(nodes) => p.italic + "||"@ + rendered_all(nodes@, p) + "||"@
            + p.italic_off,
        MarkdownNode::Text(text) => text@,
        MarkdownNode::InlineCode(text) => p.code + text@ + p.reset,
        MarkdownNode::Code(language, text) => "```"@ + language@ + seq!['\n'] + joined(
            coloured(lines_of(text@), p.code, p.reset),
            seq!['\n'],
        ) + "\n```"@,
        MarkdownNode::BlockQuote(nodes) => block_quote(lines_of(rendered_all(nodes@, p))),
        MarkdownNode::SingleBlockQuote(nodes) => block_quote(
            brackets_stripped(lines_of(rendered_all(nodes@, p))),
        ),
    }
}

/// What the host shows for `nodes`, one after the other.
pub open spec fn rendered_all(nodes: Seq<MarkdownNode>, p: PaletteView) -> Seq<char>
    decreases nodes,
{
    if nodes.len() == 0 {
        Seq::empty()
    } else {
        rendered_all(nodes.drop_last(), p) + rendered(nodes.last(), p)
    }
}

/// Appends the characters of `text` to `out`.
fn push_str(out: &mut Vec<char>, text: &str)
    ensures
        final(out)@ == old(out)@ + text@,
{
    let chars = chars_of(text);
    push_range(out, &chars, 0, chars.len());
    assert(chars@.subrange(0, chars@.len() as int) =~= text@);
}

/// Renders `nodes` one after the other.
fn render_nodes(p: &Palette, nodes: &Vec<MarkdownNode>) -> (out: Vec<char>)
    ensures
        out@ == rendered_all(nodes@, p@),
    decreases nodes, 0int,
{
    let mut out: Vec<char> = Vec::new();
    let mut i: usize = 0;
    assert(nodes@.take(0) =~= Seq::<MarkdownNode>::empty());
    while i < nodes.len()
        invariant
            i <= nodes@.len(),
            out@ == rendered_all(nodes@.take(i as int), p@),
        decreases nodes@.len() - i,
    {
        assert(nodes@.take(i + 1).drop_last() =~= nodes@.take(i as int));
        assert(nodes@.take(i + 1).last() == nodes@[i as int]);
        let one = render_node(p, &nodes[i]);
        push_range(&mut out, &one, 0, one.len());
        assert(one@.subrange(0, one@.len() as int) =~= one@);
        i += 1;
    }
    assert(nodes@.take(i as int) =~= nodes@);
    out
}

/// Renders `nodes` between the codes `on` and `off`, with `mark` inside both.
fn render_between(p: &Palette, nodes: &Vec<MarkdownNode>, on: &str, mark: &str, off: &str) -> (out:
    Vec<char>)
    ensures
        out@ == on@ + mark@ + rendered_all(nodes@, p@) + mark@ + off@,
    decreases nodes, 1int,
{
    let inner = render_nodes(p, nodes);
    let mut out: Vec<char> = Vec::new();
    push_str(&mut out, on);
    push_str(&mut out, mark);
    push_range(&mut out, &inner, 0, inner.len());
    assert(inner@.subrange(0, inner@.len() as int) =~= inner@);
    push_str(&mut out, mark);
    push_str(&mut out, off);
    assert(out@ =~= on@ + mark@ + rendered_all(nodes@, p@) + mark@ + off@);
    out
}

/// Writes the lines of `text` as a quote; with `strip` set, each line behind
/// its quote mark.
fn quote_lines(text: &Vec<char>, strip: bool) -> (out: Vec<char>)
    ensures
        out@ == block_quote(
            if strip {
                brackets_stripped(lines_of(text@))
            } else {
                lines_of(text@)
            },
        ),
{
    let ranges = line_ranges(text);
    let ghost lines = lines_of(text@);
    let ghost shown = if strip {
        brackets_stripped(lines)
    } else {
        lines
    };
    let mut mark: Vec<char> = Vec::new();
    mark.push('>');
    mark.push(' ');
    assert(mark@ =~= seq!['>', ' ']);
    let mut out: Vec<char> = Vec::new();
    let mut k: usize = 0;
    assert(shown.take(0) =~= Seq::<Seq<char>>::empty());
    while k < ranges.len()
        invariant
            k <= ranges@.len(),
            mark@ == seq!['>', ' '],
            lines == lines_of(text@),
            pieces(text@, ranges@) == lines,
            shown == if strip {
                brackets_stripped(lines)
            } else {
                lines
            },
            forall|i: int|
                0 <= i < ranges@.len() ==> (#[trigger] ranges@[i]).0 <= ranges@[i].1 <= text@.len(),
            out@ == block_quote(shown.take(k as int)),
        decreases ranges@.len() - k,
    {
        let (from, to) = ranges[k];
        let ghost line = text@.subrange(from as int, to as int);
        assert(lines[k as int] == line);
        assert(shown.take(k + 1).drop_last() =~= shown.take(k as int));
        let ghost before = out@;
        out.push('\u{258e}');
        let start: usize = if strip {
            let part = crate::text::slice_of(text, from, to);
            assert(part@.skip(0) =~= line);
            match find_sub_from(&part, 0, &mark) {
                Some(i) => {
                    assert(part@.subrange(i + 2, part@.len() as int) =~= line.skip(i + 2));
                    assert(text@.subrange(from + i + 2, to as int) =~= part@.subrange(
                        i + 2,
                        part@.len() as int,
                    ));
                    from + i + 2
                },
                None => from,
            }
        } else {
            from
        };
        assert(text@.subrange(start as int, to as int) == shown[k as int]);
        push_range(&mut out, text, start, to);
        out.push('\n');
        assert(out@ =~= before + seq![quote_bar()] + shown.take(k + 1).last() + seq!['\n']);
        k += 1;
    }
    assert(shown.take(k as int) =~= shown);
    out
}

/// Writes the lines of `text`, each between the codes `on` and `off`, with
/// line feeds between them.
fn colour_lines(text: &Vec<char>, on: &str, off: &str) -> (out: Vec<char>)
    ensures
        out@ == joined(coloured(lines_of(text@), on@, off@), seq!['\n']),
{
    let ranges = line_ranges(text);
    let ghost lines = coloured(lines_of(text@), on@, off@);
    let mut out: Vec<char> = Vec::new();
    let mut k: usize = 0;
    assert(lines.take(0) =~= Seq::<Seq<char>>::empty());
    while k < ranges.len()
        invariant
            k <= ranges@.len(),
            lines == coloured(lines_of(text@), on@, off@),
            pieces(text@, ranges@) == lines_of(text@),
            forall|i: int|
                0 <= i < ranges@.len() ==> (#[trigger] ranges@[i]).0 <= ranges@[i].1 <= text@.len(),
            out@ == joined(lines.take(k as int), seq!['\n']),
        decreases ranges@.len() - k,
    {
        let (from, to) = ranges[k];
        assert(lines_of(text@)[k as int] == text@.subrange(from as int, to as int));
        assert(lines.take(k + 1).drop_last() =~= lines.take(k as int));
        let ghost before = out@;
        if k > 0 {
            out.push('\n');
        }
        push_str(&mut out, on);
        push_range(&mut out, text, from, to);
        push_str(&mut out, off);
        assert(lines.take(k + 1).last() == on@ + text@.subrange(from as int, to as int) + off@);
        if k > 0 {
            assert(out@ =~= before + seq!['\n'] + lines.take(k + 1).last());
        } else {
            assert(out@ =~= lines.take(k + 1).last());
        }
        k += 1;
    }
    assert(lines.take(k as int) =~= lines);
    out
}

/// Renders one node.
fn render_node(p: &Palette, node: &MarkdownNode) -> (out: Vec<char>)
    ensures
        out@ == rendered(*node, p@),
    decreases node, 0int,
{
    match node {
        MarkdownNode::Bold(nodes) => {
            let out = render_between(p, nodes, p.bold.as_str(), "", p.bold_off.as_str());
            proof {
                reveal_strlit("");
                assert(out@ =~= rendered(*node, p@));
            }
            out
        },
        MarkdownNode::Italic(nodes) => {
            let out = render_between(p, nodes, p.italic.as_str(), "", p.italic_off.as_str());
            proof {
                reveal_strlit("");
                assert(out@ =~= rendered(*node, p@));
            }
            out
        },
        MarkdownNode::Underline(nodes) => {
            let out = render_between(p, nodes, p.underline.as_str(), "", p.underline_off.as_str());
            proof {
                reveal_strlit("");
                assert(out@ =~= rendered(*node, p@));
            }
            out
        },
        MarkdownNode::Strikethrough(nodes) => render_between(
            p,
            nodes,
            p.red.as_str(),
            "~~",
            p.red_off.as_str(),
        ),
        MarkdownNode::Spoiler(nodes) => render_between(
            p,
            nodes,
            p.italic.as_str(),
            "||",
            p.italic_off.as_str(),
        ),
        MarkdownNode::Text(text) => chars_of(text.as_str()),
        MarkdownNode::InlineCode(text) => {
            let mut out: Vec<char> = Vec::new();
            push_str(&mut out, p.code.as_str());
            push_str(&mut out, text.as_str());
            push_str(&mut out, p.reset.as_str());
            assert(out@ =~= p@.code + text@ + p@.reset);
            out
        },
        MarkdownNode::Code(language, text) => {
            let body = chars_of(text.as_str());
            let lines = colour_lines(&body, p.code.as_str(), p.reset.as_str());
            let mut out: Vec<char> = Vec::new();
            push_str(&mut out, "```");
            push_str(&mut out, language.as_str());
            out.push('\n');
            push_range(&mut out, &lines, 0, lines.len());
            assert(lines@.subrange(0, lines@.len() as int) =~= lines@);
            push_str(&mut out, "\n```");
            assert(out@ =~= rendered(*node, p@));
            out
        },
        MarkdownNode::BlockQuote(nodes) => {
            let inner = render_nodes(p, nodes);
            quote_lines(&inner, false)
        },
        MarkdownNode::SingleBlockQuote(nodes) => {
            let inner = render_nodes(p, nodes);
            quote_lines(&inner, true)
        },
    }
}

/// What the host shows for one node of a parsed message.
pub fn discord_to_weechat_reducer(palette: &Palette, node: &MarkdownNode) -> (out: String)
    ensures
        out@ == rendered(*node, palette@),
{
    let chars = render_node(palette, node);
    string_of(&chars)
}

/// What the host shows for some nodes of a parsed message, one after the
/// other.
pub fn collect_styles(palette: &Palette, styles: &Vec<MarkdownNode>) -> (out: String)
    ensures
        out@ == rendered_all(styles@, palette@),
{
    let chars = render_nodes(palette, styles);
    string_of(&chars)
}

/// What the host shows for a parsed message.
pub fn discord_to_weechat(palette: &Palette, ast: &Vec<MarkdownNode>) -> (out: String)
    ensures
        out@ == rendered_all(ast@, palette@),
{
    collect_styles(palette, ast)
}

/// What follows the first `> ` of `line`; all of `line` where there is none.
pub fn strip_leading_bracket(line: &str) -> (rest: &str)
    ensures
        rest@ == bracket_stripped(line@),
{
    let chars = chars_of(line);
    let mut mark: Vec<char> = Vec::new();
    mark.push('>');
    mark.push(' ');
    assert(mark@ =~= seq!['>', ' ']);
    assert(chars@.skip(0) =~= chars@);
    let n: usize = chars.len();
    match find_sub_from(&chars, 0, &mark) {
        Some(i) => {
            assert(i + 2 <= n);
            assert(line@.subrange(i + 2, line@.len() as int) =~= line@.skip(i + 2));
            line.substring_char(i + 2, n)
        },
        None => line,
    }
}

/// Writes `lines` as a quote: each with a bar in front and a line feed
/// behind.
pub fn format_block_quote(lines: &Vec<String>) -> (out: String)
    ensures
        out@ == block_quote(crate::text::texts(lines@)),
{
    let ghost all = crate::text::texts(lines@);
    let mut out = String::new();
    let mut k: usize = 0;
    assert(all.take(0) =~= Seq::<Seq<char>>::empty());
    while k < lines.len()
        invariant
            k <= lines@.len(),
            all == crate::text::texts(lines@),
            out@ == block_quote(all.take(k as int)),
        decreases lines@.len() - k,
    {
        assert(all.take(k + 1).drop_last() =~= all.take(k as int));
        assert(all.take(k + 1).last() == lines@[k as int]@);
        push_char(&mut out, '\u{258e}');
        out.append(lines[k].as_str());
        push_char(&mut out, '\n');
        k += 1;
    }
    assert(all.take(k as int) =~= all);
    out
}

} // verus!
