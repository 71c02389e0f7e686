use weecord::nicklist::{
    add_member_to_nicklist, find_highest_roles, format_user_status_prefix, guild_has_crown,
    nicklist_name, rgb_to_ansi, status_color_name, status_is_online, user_online, Colour,
    NickPlace, OnlineStatus, Role,
};

fn role(id: u64, position: i64, hoist: bool, name: &str) -> Role {
    Role {
        id,
        position,
        hoist,
        administrator: false,
        name: name.to_string(),
        colour: Colour { r: 255, g: 0, b: 0 },
    }
}

fn group(name: &str, color: &str) -> NickPlace {
    NickPlace::Group { name: name.to_string(), color: color.to_string() }
}

#[test]
fn ansi_colours() {
    assert_eq!(rgb_to_ansi(Colour { r: 0, g: 0, b: 0 }), 16);
    assert_eq!(rgb_to_ansi(Colour { r: 255, g: 255, b: 255 }), 231);
    assert_eq!(rgb_to_ansi(Colour { r: 255, g: 0, b: 0 }), 196);
    assert_eq!(rgb_to_ansi(Colour { r: 0, g: 255, b: 0 }), 46);
    assert_eq!(rgb_to_ansi(Colour { r: 0, g: 0, b: 255 }), 21);
    assert_eq!(rgb_to_ansi(Colour { r: 254, g: 51, b: 102 }), 16 + 36 * 4 + 6 + 2);
}

#[test]
fn who_is_online() {
    assert!(status_is_online(OnlineStatus::Online));
    assert!(status_is_online(OnlineStatus::Idle));
    assert!(status_is_online(OnlineStatus::DoNotDisturb));
    assert!(!status_is_online(OnlineStatus::Offline));
    assert!(!status_is_online(OnlineStatus::Invisible));
    assert!(user_online(true, None));
    assert!(user_online(true, Some(OnlineStatus::Offline)));
    assert!(user_online(false, Some(OnlineStatus::Idle)));
    assert!(!user_online(false, Some(OnlineStatus::Invisible)));
    assert!(!user_online(false, None));
}

#[test]
fn status_marks() {
    assert_eq!(status_color_name(Some(OnlineStatus::DoNotDisturb)), "red");
    assert_eq!(status_color_name(Some(OnlineStatus::Idle)), "178");
    assert_eq!(status_color_name(Some(OnlineStatus::Invisible)), "weechat.color.nicklist_away");
    assert_eq!(status_color_name(Some(OnlineStatus::Offline)), "weechat.color.nicklist_away");
    assert_eq!(status_color_name(Some(OnlineStatus::Online)), "green");
    assert_eq!(status_color_name(None), "");
    assert_eq!(format_user_status_prefix("<g>", "<r>"), "<g>\u{2022}<r> ");
}

#[test]
fn crown_only_without_hoisted_admins() {
    let mut roles = vec![role(1, 1, true, "a"), role(2, 2, false, "b")];
    assert!(guild_has_crown(&roles));
    assert!(guild_has_crown(&Vec::new()));
    roles[1].administrator = true;
    assert!(guild_has_crown(&roles));
    roles[0].administrator = true;
    assert!(!guild_has_crown(&roles));
}

#[test]
fn highest_roles() {
    let roles =
        vec![role(1, 5, true, "mods"), role(2, 9, false, "vip"), role(3, 7, true, "admins"), role(4, 1, true, "x")];
    assert_eq!(find_highest_roles(&roles), Some((2, 1)));
    let plain = vec![role(1, 5, false, "a"), role(2, 9, false, "b")];
    assert_eq!(find_highest_roles(&plain), None);
    assert_eq!(find_highest_roles(&Vec::new()), None);
    let ties = vec![role(9, 5, true, "a"), role(3, 5, true, "b"), role(9, 5, true, "c")];
    assert_eq!(find_highest_roles(&ties), Some((2, 2)));
}

#[test]
fn nick_places() {
    let roles = vec![role(1, 5, true, "mods"), role(2, 9, false, "vip")];
    let none: Vec<Role> = Vec::new();
    assert_eq!(add_member_to_nicklist(false, false, true, true, &roles), NickPlace::Hidden);
    assert_eq!(add_member_to_nicklist(true, true, true, true, &roles), group("99999|Bot", "gray"));
    assert_eq!(add_member_to_nicklist(true, false, false, true, &roles), group("99999|Offline", "grey"));
    assert_eq!(add_member_to_nicklist(true, false, true, true, &roles), group("99994|mods", "196"));
    assert_eq!(add_member_to_nicklist(true, false, false, false, &roles), group("99994|mods", "196"));
    assert_eq!(add_member_to_nicklist(true, false, true, true, &none), group("99998|Online", "grey"));
    assert_eq!(add_member_to_nicklist(true, false, true, false, &none), NickPlace::Ungrouped);
    assert_eq!(add_member_to_nicklist(true, false, false, false, &none), NickPlace::Ungrouped);
}

#[test]
fn role_group_numbers() {
    for (position, text) in [
        (0i64, "99999|r"),
        (99999, "0|r"),
        (100000, "-1|r"),
        (-1, "100000|r"),
        (i64::MAX, "-9223372036854675808|r"),
        (i64::MIN, "9223372036854875807|r"),
    ] {
        let roles = vec![role(1, position, true, "r")];
        assert_eq!(add_member_to_nicklist(true, false, true, false, &roles), group(text, "196"));
        assert_eq!(text, format!("{}|r", 99999i128 - position as i128));
    }
}

#[test]
fn owner_wears_the_crown() {
    assert_eq!(nicklist_name("ann", true, true, "<gold>"), "ann <gold>\u{265b}");
    assert_eq!(nicklist_name("ann", false, true, "<gold>"), "ann");
    assert_eq!(nicklist_name("ann", true, false, "<gold>"), "ann");
}
