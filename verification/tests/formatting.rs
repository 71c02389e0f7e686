use weecord::formatting::{
    collect_styles, discord_to_weechat, discord_to_weechat_reducer, format_block_quote,
    strip_leading_bracket, MarkdownNode, Palette,
};

fn palette() -> Palette {
    Palette {
        bold: "[b]".to_string(),
        bold_off: "[/b]".to_string(),
        italic: "[i]".to_string(),
        italic_off: "[/i]".to_string(),
        underline: "[u]".to_string(),
        underline_off: "[/u]".to_string(),
        red: "[r]".to_string(),
        red_off: "[/r]".to_string(),
        code: "[c]".to_string(),
        reset: "[x]".to_string(),
    }
}

fn text(s: &str) -> MarkdownNode {
    MarkdownNode::Text(s.to_string())
}

#[test]
fn styles() {
    let p = palette();
    assert_eq!(discord_to_weechat_reducer(&p, &text("plain")), "plain");
    assert_eq!(discord_to_weechat_reducer(&p, &MarkdownNode::Bold(vec![text("a")])), "[b]a[/b]");
    assert_eq!(discord_to_weechat_reducer(&p, &MarkdownNode::Italic(vec![text("a")])), "[i]a[/i]");
    assert_eq!(discord_to_weechat_reducer(&p, &MarkdownNode::Underline(vec![text("a")])), "[u]a[/u]");
    assert_eq!(
        discord_to_weechat_reducer(&p, &MarkdownNode::Strikethrough(vec![text("a")])),
        "[r]~~a~~[/r]"
    );
    assert_eq!(discord_to_weechat_reducer(&p, &MarkdownNode::Spoiler(vec![text("a")])), "[i]||a||[/i]");
    assert_eq!(discord_to_weechat_reducer(&p, &MarkdownNode::InlineCode("x".to_string())), "[c]x[x]");
    assert_eq!(discord_to_weechat_reducer(&p, &MarkdownNode::Bold(Vec::new())), "[b][/b]");
}

#[test]
fn nested_styles() {
    let p = palette();
    let tree = vec![
        text("a "),
        MarkdownNode::Bold(vec![text("b "), MarkdownNode::Italic(vec![text("c")]), text(" d")]),
        text(" e"),
    ];
    assert_eq!(discord_to_weechat(&p, &tree), "a [b]b [i]c[/i] d[/b] e");
    assert_eq!(collect_styles(&p, &tree), "a [b]b [i]c[/i] d[/b] e");
    assert_eq!(discord_to_weechat(&p, &Vec::new()), "");
}

#[test]
fn code_blocks() {
    let p = palette();
    assert_eq!(
        discord_to_weechat_reducer(&p, &MarkdownNode::Code("rust".to_string(), "a\nb".to_string())),
        "```rust\n[c]a[x]\n[c]b[x]\n```"
    );
    assert_eq!(
        discord_to_weechat_reducer(&p, &MarkdownNode::Code("".to_string(), "a\r\n\nb\n".to_string())),
        "```\n[c]a[x]\n[c][x]\n[c]b[x]\n```"
    );
    assert_eq!(
        discord_to_weechat_reducer(&p, &MarkdownNode::Code("".to_string(), "".to_string())),
        "```\n\n```"
    );
}

#[test]
fn quotes() {
    let p = palette();
    assert_eq!(
        discord_to_weechat_reducer(&p, &MarkdownNode::BlockQuote(vec![text("a\n"), text("b")])),
        "\u{258e}a\n\u{258e}b\n"
    );
    assert_eq!(
        discord_to_weechat_reducer(
            &p,
            &MarkdownNode::SingleBlockQuote(vec![text("> a > b\nc\n> "), MarkdownNode::Bold(vec![text("d")])])
        ),
        "\u{258e}a > b\n\u{258e}c\n\u{258e}[b]d[/b]\n"
    );
    assert_eq!(discord_to_weechat_reducer(&p, &MarkdownNode::BlockQuote(Vec::new())), "");
}

#[test]
fn lines_are_split_as_std_splits_them() {
    let p = palette();
    for body in ["", "a", "a\n", "a\r\n", "a\rb", "a\r", "\n", "\r\n\r\n", "a\n\nb", "a\nb\r", "\r"] {
        let expected: String = body.lines().fold(String::new(), |acc, x| format!("{}\u{258e}{}\n", acc, x));
        assert_eq!(
            discord_to_weechat_reducer(&p, &MarkdownNode::BlockQuote(vec![text(body)])),
            expected,
            "{:?}",
            body
        );
    }
}

#[test]
fn leading_brackets() {
    assert_eq!(strip_leading_bracket("> quoted"), "quoted");
    assert_eq!(strip_leading_bracket("a > b > c"), "b > c");
    assert_eq!(strip_leading_bracket(">no space"), ">no space");
    assert_eq!(strip_leading_bracket("plain"), "plain");
    assert_eq!(strip_leading_bracket("> "), "");
    assert_eq!(strip_leading_bracket(""), "");
    assert_eq!(strip_leading_bracket("\u{e9}> \u{fc}"), "\u{fc}");
}

#[test]
fn block_quotes() {
    assert_eq!(format_block_quote(&vec!["a".to_string(), "".to_string(), "b".to_string()]), "\u{258e}a\n\u{258e}\n\u{258e}b\n");
    assert_eq!(format_block_quote(&Vec::new()), "");
}
