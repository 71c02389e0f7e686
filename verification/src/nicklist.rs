//! Where a member of a guild stands in the nick list of a channel.

use crate::numbers::{decimal, push_decimal};
use crate::text::push_char;
use vstd::prelude::*;

verus! {

/// What a user lets others see of being on line.
#[derive(Clone, Copy, Debug, PartialEq, Eq, Structural)]
pub enum OnlineStatus {
    DoNotDisturb,
    Idle,
    Invisible,
    Offline,
    Online,
}

/// A colour by its red, green and blue parts.
#[derive(Clone, Copy, Debug, PartialEq, Eq, Structural)]
pub struct Colour {
    pub r: u8,
    pub g: u8,
    pub b: u8,
}

/// A role of a guild, as far as the nick list looks at it.
#[derive(Debug)]
pub struct Role {
    pub id: u64,
    pub position: i64,
    /// Whether members with the role are listed apart from the others.
    pub hoist: bool,
    /// Whether the role makes its members administrators.
    pub administrator: bool,
    pub name: String,
    pub colour: Colour,
}

/// The nick list group of members who are off line.
pub open spec fn offline_group() -> Seq<char> {
    "99999|Offline"@
}

/// The nick list group of members who are on line and have no role.
pub open spec fn online_group() -> Seq<char> {
    "99998|Online"@
}

/// The nick list group of bots.
pub open spec fn bot_group() -> Seq<char> {
    "99999|Bot"@
}

/// The number of the terminal colour nearest to a colour: each part is cut
/// down to one of six steps, and the steps index the colour cube that begins at
/// number 16.
pub open spec fn ansi_of(colour: Colour) -> int {
    16 + 36 * (colour.r * 5 / 255) + 6 * (colour.g * 5 / 255) + colour.b * 5 / 255
}

/// The number of the terminal colour nearest to `colour`.
pub fn rgb_to_ansi(colour: Colour) -> (n: u8)
    ensures
        n == ansi_of(colour),
        16 <= n <= 231,
{
    let r: u16 = colour.r as u16 * 5 / 255;
    let g: u16 = colour.g as u16 * 5 / 255;
    let b: u16 = colour.b as u16 * 5 / 255;
    (16 + 36 * r + 6 * g + b) as u8
}

/// Whether a user with this status counts as being on line.
pub fn status_is_online(status: OnlineStatus) -> (b: bool)
    ensures
        b == (status is Online || status is Idle || status is DoNotDisturb),
{
    match status {
        OnlineStatus::Online | OnlineStatus::Idle | OnlineStatus::DoNotDisturb => true,
        OnlineStatus::Offline | OnlineStatus::Invisible => false,
    }
}

/// Whether a user counts as being on line. The user of the program always
/// does; another user does if a presence is known and says so.
pub fn user_online(is_current_user: bool, presence: Option<OnlineStatus>) -> (b: bool)
    ensures
        b == (is_current_user || (presence matches Some(status) && (status is Online
            || status is Idle || status is DoNotDisturb))),
{
    if is_current_user {
        true
    } else {
        match presence {
            Some(status) => status_is_online(status),
            None => false,
        }
    }
}

/// The name of the colour in which the status mark of a user is shown.
pub fn status_color_name(status: Option<OnlineStatus>) -> (name: &'static str)
    ensures
        name@ == match status {
            Some(OnlineStatus::DoNotDisturb) => "red"@,
            Some(OnlineStatus::Idle) => "178"@,
            Some(OnlineStatus::Invisible) | Some(OnlineStatus::Offline) =>
                "weechat.color.nicklist_away"@,
            Some(OnlineStatus::Online) => "green"@,
            None => ""@,
        },
{
    match status {
        Some(OnlineStatus::DoNotDisturb) => "red",
        Some(OnlineStatus::Idle) => "178",
        Some(OnlineStatus::Invisible) => "weechat.color.nicklist_away",
        Some(OnlineStatus::Offline) => "weechat.color.nicklist_away",
        Some(OnlineStatus::Online) => "green",
        None => "",
    }
}

/// The status mark in front of a nick: a bullet in the colour of the status.
/// `color` and `reset` are the host's codes for that colour and for the end of
/// colouring.
pub fn format_user_status_prefix(color: &str, reset: &str) -> (prefix: String)
    ensures
        prefix@ == color@ + seq!['\u{2022}'] + reset@ + seq![' '],
{
    let mut prefix = String::new();
    prefix.append(color);
    push_char(&mut prefix, '\u{2022}');
    prefix.append(reset);
    push_char(&mut prefix, ' ');
    assert(prefix@ =~= color@ + seq!['\u{2022}'] + reset@ + seq![' ']);
    prefix
}

/// Whether the owner of a guild is marked with a crown: only where no role
/// that is listed apart makes its members administrators.
pub open spec fn has_crown(roles: Seq<Role>) -> bool {
    forall|i: int| 0 <= i < roles.len() ==> !((#[trigger] roles[i]).hoist && roles[i].administrator)
}

/// Whether the owner of a guild with these roles is marked with a crown.
pub fn guild_has_crown(roles: &Vec<Role>) -> (b: bool)
    ensures
        b == has_crown(roles@),
{
    let mut i: usize = 0;
    while i < roles.len()
        invariant
            i <= roles@.len(),
            forall|k: int| 0 <= k < i ==> !((#[trigger] roles@[k]).hoist && roles@[k].administrator),
        decreases roles@.len() - i,
    {
        if roles[i].hoist && roles[i].administrator {
            return false;
        }
        i += 1;
    }
    true
}

/// Whether role `a` does not rank above role `b`: by position, and by number
/// among roles at one position.
pub open spec fn ranks_up_to(a: Role, b: Role) -> bool {
    a.position < b.position || (a.position == b.position && a.id <= b.id)
}

/// The position in `roles` of the highest-ranking role, among the hoisted ones
/// only if `hoisted` is set; the last one of several that rank the same.
pub open spec fn top_role(roles: Seq<Role>, hoisted: bool) -> Option<int>
    decreases roles.len(),
{
    if roles.len() == 0 {
        None
    } else {
        let before = top_role(roles.drop_last(), hoisted);
        if hoisted && !roles.last().hoist {
            before
        } else {
            match before {
                Some(i) if !ranks_up_to(roles[i], roles.last()) => before,
                _ => Some(roles.len() - 1),
            }
        }
    }
}

/// `top_role` points at a role that counts and that none that counts ranks
/// above; it points at none only where none counts.
pub proof fn lemma_top_role(roles: Seq<Role>, hoisted: bool)
    ensures
        match top_role(roles, hoisted) {
            Some(i) => 0 <= i < roles.len() && (hoisted ==> roles[i].hoist) && forall|k: int|
                0 <= k < roles.len() && (hoisted ==> (#[trigger] roles[k]).hoist) ==> ranks_up_to(
                    roles[k],
                    roles[i],
                ),
            None => forall|k: int| 0 <= k < roles.len() ==> hoisted && !(#[trigger] roles[k]).hoist,
        },
    decreases roles.len(),
{
    if roles.len() > 0 {
        let init = roles.drop_last();
        lemma_top_role(init, hoisted);
        assert forall|k: int| 0 <= k < init.len() implies init[k] == roles[k] by {}
        match top_role(roles, hoisted) {
            Some(i) => {
                assert forall|k: int|
                    0 <= k < roles.len() && (hoisted ==> (#[trigger] roles[k]).hoist) implies ranks_up_to(
                    roles[k],
                    roles[i],
                ) by {
                    if k < init.len() {
                        assert(init[k] == roles[k]);
                        let j = top_role(init, hoisted)->0;
                        assert(ranks_up_to(init[k], init[j]));
                    }
                }
            },
            None => {
                assert forall|k: int| 0 <= k < roles.len() implies hoisted && !(
                #[trigger] roles[k]).hoist by {
                    if k < init.len() {
                        assert(init[k] == roles[k]);
                    }
                }
            },
        }
    }
}

fn find_top(roles: &Vec<Role>, hoisted: bool) -> (at: Option<usize>)
    ensures
        match at {
            Some(i) => top_role(roles@, hoisted) == Some(i as int) && i < roles@.len(),
            None => top_role(roles@, hoisted) is None,
        },
{
    let mut at: Option<usize> = None;
    let mut k: usize = 0;
    while k < roles.len()
        invariant
            k <= roles@.len(),
            match at {
                Some(i) => top_role(roles@.take(k as int), hoisted) == Some(i as int) && i < k,
                None => top_role(roles@.take(k as int), hoisted) is None,
            },
        decreases roles@.len() - k,
    {
        assert(roles@.take(k + 1).drop_last() =~= roles@.take(k as int));
        assert(roles@.take(k + 1).last() == roles@[k as int]);
        if !hoisted || roles[k].hoist {
            let better = match at {
                Some(i) => {
                    assert(roles@.take(k + 1)[i as int] == roles@[i as int]);
                    roles[i].position < roles[k].position || (roles[i].position
                        == roles[k].position && roles[i].id <= roles[k].id)
                },
                None => true,
            };
            if better {
                at = Some(k);
            }
        }
        k += 1;
    }
    assert(roles@.take(k as int) =~= roles@);
    at
}

/// The positions in `roles` of the highest hoisted role, which gives a member
/// its group, and of the highest role, which gives it its colour. None unless
/// there is a hoisted role.
pub fn find_highest_roles(roles: &Vec<Role>) -> (res: Option<(usize, usize)>)
    ensures
        match res {
            Some((hoisted, highest)) => top_role(roles@, true) == Some(hoisted as int) && top_role(
                roles@,
                false,
            ) == Some(highest as int) && hoisted < roles@.len() && highest < roles@.len(),
            None => top_role(roles@, true) is None,
        },
{
    match find_top(roles, true) {
        Some(hoisted) => {
            proof {
                lemma_top_role(roles@, true);
                lemma_top_role(roles@, false);
            }
            match find_top(roles, false) {
                Some(highest) => Some((hoisted, highest)),
                None => None,
            }
        },
        None => None,
    }
}

/// Where a member goes in the nick list.
#[derive(Debug, PartialEq, Eq)]
pub enum NickPlace {
    /// Not at all: the member cannot read the channel.
    Hidden,
    /// Directly into the list, in no group.
    Ungrouped,
    /// Into the group `name`, which has the colour `color`.
    Group { name: String, color: String },
}

/// A `NickPlace` as a mathematical value.
pub enum NickPlaceView {
    Hidden,
    Ungrouped,
    Group { name: Seq<char>, color: Seq<char> },
}

impl View for NickPlace {
    type V = NickPlaceView;

    open spec fn view(&self) -> NickPlaceView {
        match self {
            NickPlace::Hidden => NickPlaceView::Hidden,
            NickPlace::Ungrouped => NickPlaceView::Ungrouped,
            NickPlace::Group { name, color } => NickPlaceView::Group { name: name@, color: color@ },
        }
    }
}

/// `n` in decimal, with a minus sign if it is negative.
pub open spec fn signed_decimal(n: int) -> Seq<char> {
    if n < 0 {
        seq!['-'] + decimal((-n) as nat)
    } else {
        decimal(n as nat)
    }
}

/// The name of the group of the members whose highest hoisted role is `role`:
/// a number that sorts higher roles first, a bar, and the role's name.
pub open spec fn role_group(role: Role) -> Seq<char> {
    signed_decimal(99999 - role.position) + seq!['|'] + role.name@
}

/// Where a member goes in the nick list.
///
/// A member who cannot read the channel is not listed. A bot goes with the
/// bots. With presences in use, a member who is off line goes with those who
/// are off line. Otherwise the member goes by roles, `top` being the highest
/// hoisted and the highest role if there is a hoisted one; a member without
/// such goes with those on line or off line where presences are in use, and
/// into no group where they are not.
pub open spec fn nick_place(
    can_read: bool,
    bot: bool,
    online: bool,
    use_presence: bool,
    top: Option<(Role, Role)>,
) -> NickPlaceView {
    if !can_read {
        NickPlaceView::Hidden
    } else if bot {
        NickPlaceView::Group { name: bot_group(), color: "gray"@ }
    } else if use_presence && !online {
        NickPlaceView::Group { name: offline_group(), color: "grey"@ }
    } else {
        match top {
            Some((hoisted, highest)) => NickPlaceView::Group {
                name: role_group(hoisted),
                color: decimal(ansi_of(highest.colour) as nat),
            },
            None => if use_presence {
                NickPlaceView::Group { name: online_group(), color: "grey"@ }
            } else {
                NickPlaceView::Ungrouped
            },
        }
    }
}

/// Decides where a member goes in the nick list of a channel. `online` is what
/// `user_online` says of the member and counts only where presences are in
/// use; `roles` are the member's roles.
pub fn add_member_to_nicklist(
    can_read: bool,
    bot: bool,
    online: bool,
    use_presence: bool,
    roles: &Vec<Role>,
) -> (place: NickPlace)
    ensures
        place@ == nick_place(
            can_read,
            bot,
            online,
            use_presence,
            match (top_role(roles@, true), top_role(roles@, false)) {
                (Some(hoisted), Some(highest)) => Some((roles@[hoisted], roles@[highest])),
                _ => None,
            },
        ),
{
    proof {
        lemma_top_role(roles@, true);
        lemma_top_role(roles@, false);
    }
    if !can_read {
        return NickPlace::Hidden;
    }
    if bot {
        return NickPlace::Group { name: "99999|Bot".to_owned(), color: "gray".to_owned() };
    }
    if use_presence && !online {
        return NickPlace::Group { name: "99999|Offline".to_owned(), color: "grey".to_owned() };
    }
    match find_highest_roles(roles) {
        Some((hoisted, highest)) => {
            let role = &roles[hoisted];
            let mut name = String::new();
            if role.position > 99999 {
                push_char(&mut name, '-');
                push_decimal(&mut name, (role.position - 99999) as u64);
            } else if role.position >= 0 {
                push_decimal(&mut name, (99999 - role.position) as u64);
            } else {
                push_decimal(&mut name, 99999u64 + ((-(role.position + 1)) as u64 + 1));
            }
            push_char(&mut name, '|');
            name.append(role.name.as_str());
            assert(name@ =~= role_group(*role));
            let mut color = String::new();
            push_decimal(&mut color, rgb_to_ansi(roles[highest].colour) as u64);
            assert(color@ =~= decimal(ansi_of(roles@[highest as int].colour) as nat));
            NickPlace::Group { name, color }
        },
        None => {
            if use_presence {
                NickPlace::Group { name: "99998|Online".to_owned(), color: "grey".to_owned() }
            } else {
                NickPlace::Ungrouped
            }
        },
    }
}

/// The name under which a member is listed: the display name, and for the
/// owner of a guild with a crown the crown behind it in the colour `gold`.
pub fn nicklist_name(display_name: &str, owner: bool, crown: bool, gold: &str) -> (name: String)
    ensures
        name@ == if crown && owner {
            display_name@ + seq![' '] + gold@ + seq!['\u{265b}']
        } else {
            display_name@
        },
{
    let mut name = String::new();
    name.append(display_name);
    if crown && owner {
        push_char(&mut name, ' ');
        name.append(gold);
        push_char(&mut name, '\u{265b}');
        assert(name@ =~= display_name@ + seq![' '] + gold@ + seq!['\u{265b}']);
    } else {
        assert(name@ =~= display_name@);
    }
    name
}

} // verus!
