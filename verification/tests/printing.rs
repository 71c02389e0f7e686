use weecord::message_manager::{Embed, EmbedAuthor, EmbedField, Message, MessageKind};
use weecord::printing::{
    author_display_name, clean_users, mentions_user_id, msg_tags, print_msg, render_msg, user_tag,
    KnownUser, Marks, Rendered,
};

fn marks() -> Marks {
    Marks { edited: "[8]".to_string(), bold: "[b]".to_string(), reset: "[x]".to_string() }
}

fn message(kind: MessageKind) -> Message {
    Message {
        id: 1,
        channel_id: 2,
        author_id: 3,
        author_name: "ann".to_string(),
        content: "raw".to_string(),
        timestamp: 0,
        edited: false,
        kind,
        attachments: Vec::new(),
        embeds: Vec::new(),
        mentions: Vec::new(),
    }
}

fn text_of(msg: &Message, content: &str) -> String {
    match render_msg(msg, content, "Ann", &marks()) {
        Rendered::Text { prefix, source } => {
            assert_eq!(prefix, "Ann");
            source
        },
        other => panic!("not a text: {:?}", other),
    }
}

#[test]
fn regular_message() {
    let mut msg = message(MessageKind::Regular);
    assert_eq!(text_of(&msg, "hello"), "hello");
    msg.edited = true;
    assert_eq!(text_of(&msg, "hello"), "hello[8] (edited)[x]");
}

#[test]
fn attachments_go_on_lines_of_their_own() {
    let mut msg = message(MessageKind::Regular);
    msg.attachments = vec!["http://a".to_string(), "http://b".to_string()];
    assert_eq!(text_of(&msg, "hello"), "hello\nhttp://a\nhttp://b");
    assert_eq!(text_of(&msg, ""), "http://a\nhttp://b");
}

#[test]
fn embeds() {
    let mut msg = message(MessageKind::Regular);
    msg.embeds = vec![
        Embed {
            author: Some(EmbedAuthor { name: "bot".to_string(), url: Some("http://u".to_string()) }),
            title: Some("T1\nT2".to_string()),
            description: Some("D".to_string()),
            fields: vec![
                EmbedField { name: "f".to_string(), value: "v1\nv2".to_string() },
                EmbedField { name: "g".to_string(), value: "".to_string() },
            ],
            footer: Some("F".to_string()),
        },
        Embed {
            author: Some(EmbedAuthor { name: "b2".to_string(), url: None }),
            title: None,
            description: None,
            fields: Vec::new(),
            footer: None,
        },
    ];
    let bar = "\u{258e}";
    let expected = format!(
        "hi\n{bar}[b]bot[x] (http://u)\n{bar}T1\n{bar}T2\n\n{bar}D\n\nf{bar}v1\n{bar}v2\n\ng\n{bar}F\n\n\n{bar}[b]b2[x]\n"
    );
    assert_eq!(text_of(&msg, "hi"), expected);
}

#[test]
fn empty_embed_on_empty_content() {
    let mut msg = message(MessageKind::Regular);
    msg.embeds = vec![Embed { author: None, title: None, description: None, fields: Vec::new(), footer: None }];
    assert_eq!(text_of(&msg, ""), "");
    assert_eq!(text_of(&msg, "x"), "x\n");
}

fn notice(kind: MessageKind) -> (&'static str, String) {
    match render_msg(&message(kind), "cleaned", "Ann", &marks()) {
        Rendered::Notice { prefix, body } => (prefix, body),
        other => panic!("not a notice: {:?}", other),
    }
}

#[test]
fn notices() {
    assert_eq!(notice(MessageKind::GroupRecipientAddition), ("join", "Ann joined the group.".to_string()));
    assert_eq!(notice(MessageKind::MemberJoin), ("join", "Ann joined the group.".to_string()));
    assert_eq!(notice(MessageKind::GroupRecipientRemoval), ("quit", "Ann left the group.".to_string()));
    assert_eq!(
        notice(MessageKind::GroupNameUpdate),
        ("network", "Ann changed the channel name: raw.".to_string())
    );
    assert_eq!(notice(MessageKind::GroupCallCreation), ("network", "Ann started a call.".to_string()));
    assert_eq!(notice(MessageKind::GroupIconUpdate), ("network", "Ann changed the channel icon.".to_string()));
    assert_eq!(notice(MessageKind::PinsAdd), ("network", "Ann pinned a message to this channel".to_string()));
    assert_eq!(notice(MessageKind::NitroBoost), ("network", "Ann boosted this channel with nitro".to_string()));
    assert_eq!(notice(MessageKind::NitroTier1), ("network", "This channel has achieved nitro level 1".to_string()));
    assert_eq!(notice(MessageKind::NitroTier2), ("network", "This channel has achieved nitro level 2".to_string()));
    assert_eq!(notice(MessageKind::NitroTier3), ("network", "This channel has achieved nitro level 3".to_string()));
}

#[test]
fn tags() {
    assert_eq!(msg_tags(false, true, true), vec!["notify_none"]);
    assert_eq!(msg_tags(true, true, true), vec!["notify_highlight"]);
    assert_eq!(msg_tags(true, false, true), vec!["notify_private"]);
    assert_eq!(msg_tags(true, false, false), vec!["notify_message"]);
    assert!(mentions_user_id(&vec![1, 2], 2));
    assert!(!mentions_user_id(&vec![1, 2], 3));
}

#[test]
fn names_and_lines() {
    assert_eq!(author_display_name(Some("Annie"), "ann"), "Annie");
    assert_eq!(author_display_name(None, "ann"), "ann");
    assert_eq!(print_msg("Ann", "hello"), "Ann\thello");
    assert_eq!(user_tag("ann", 7), "@ann#0007");
    assert_eq!(user_tag("ann", 42), "@ann#0042");
    assert_eq!(user_tag("ann", 123), "@ann#0123");
    assert_eq!(user_tag("ann", 1234), "@ann#1234");
    assert_eq!(user_tag("ann", 0), "@ann#0000");
    assert_eq!(user_tag("ann", 65535), format!("@ann#{:04}", 65535));
}

fn known() -> Vec<KnownUser> {
    vec![
        KnownUser { id: 1, shown: "@ann#0001".to_string() },
        KnownUser { id: 22, shown: "@b\u{f6}b#0022".to_string() },
    ]
}

#[test]
fn user_mentions_become_names() {
    let known = known();
    assert_eq!(clean_users("hi <@1>!", &known), ("hi @ann#0001!".to_string(), vec![]));
    assert_eq!(clean_users("<@!22> and <@1>", &known), ("@b\u{f6}b#0022 and @ann#0001".to_string(), vec![]));
    assert_eq!(clean_users("<@1><@1>", &known), ("@ann#0001@ann#0001".to_string(), vec![]));
    assert_eq!(clean_users("no mention", &known), ("no mention".to_string(), vec![]));
    assert_eq!(clean_users("", &known), ("".to_string(), vec![]));
}

#[test]
fn unknown_users_are_reported() {
    let known = known();
    assert_eq!(clean_users("<@5> x <@1> <@!6>", &known), ("<@5> x @ann#0001 <@!6>".to_string(), vec![5, 6]));
    assert_eq!(clean_users("<@5><@5>", &Vec::new()), ("<@5><@5>".to_string(), vec![5, 5]));
}

#[test]
fn mentions_that_are_none() {
    let known = known();
    assert_eq!(
        clean_users("<@99999999999999999999999> <@1>", &known),
        ("@invalid-user @ann#0001".to_string(), vec![])
    );
    assert_eq!(clean_users("<@abc> <@1>", &known), ("<@abc> @ann#0001".to_string(), vec![]));
    assert_eq!(clean_users("<@> <@1", &known), ("<@> <@1".to_string(), vec![]));
    assert_eq!(clean_users("<@ <@1> > <@22>", &known), ("<@ <@1> > @b\u{f6}b#0022".to_string(), vec![]));
    assert_eq!(clean_users("<@<@\u{e9}> <@1>", &known), ("<@<@\u{e9}> @ann#0001".to_string(), vec![]));
    assert_eq!(clean_users("<@+1>", &known), ("@ann#0001".to_string(), vec![]));
}
