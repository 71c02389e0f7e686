//! Who is typing where: a time-ordered collection of typing events that
//! forgets what has expired and never grows beyond a fixed size.

use crate::text::{join, join_first, joined, texts};
use vstd::prelude::*;

verus! {

/// The most entries a tracker holds.
pub const MAX_TYPING_EVENTS: usize = 50;

/// Seconds after which an entry has expired.
pub const TYPING_EXPIRY_SECS: u64 = 10;

/// One observed "user started typing" event.
#[derive(Debug, PartialEq, Eq)]
pub struct TypingEntry {
    pub channel_id: u64,
    pub guild_id: Option<u64>,
    pub user: u64,
    pub user_name: String,
    pub time: u64,
}

/// A typing event as a mathematical value.
pub struct TypingFact {
    pub channel_id: u64,
    pub guild_id: Option<u64>,
    pub user: u64,
    pub user_name: Seq<char>,
    pub time: u64,
}

impl View for TypingEntry {
    type V = TypingFact;

    open spec fn view(&self) -> TypingFact {
        TypingFact {
            channel_id: self.channel_id,
            guild_id: self.guild_id,
            user: self.user,
            user_name: self.user_name@,
            time: self.time,
        }
    }
}

impl TypingFact {
    /// Whether the event is younger than the expiry window at time `now`. An
    /// event stamped later than `now` counts as fresh.
    pub open spec fn is_fresh(self, now: u64) -> bool {
        now - self.time < TYPING_EXPIRY_SECS
    }

    /// Whether the event happened in the given conversation.
    pub open spec fn is_in(self, channel_id: u64, guild_id: Option<u64>) -> bool {
        self.channel_id == channel_id && self.guild_id == guild_id
    }
}

impl TypingEntry {
    /// A copy of this entry.
    pub fn duplicate(&self) -> (copy: TypingEntry)
        ensures
            copy@ == self@,
    {
        TypingEntry {
            channel_id: self.channel_id,
            guild_id: self.guild_id,
            user: self.user,
            user_name: self.user_name.clone(),
            time: self.time,
        }
    }

    /// Whether the entry is younger than the expiry window at time `now`.
    pub fn is_fresh(&self, now: u64) -> (b: bool)
        ensures
            b == self@.is_fresh(now),
    {
        self.time > now || now - self.time < TYPING_EXPIRY_SECS
    }
}

/// The views of `entries`, in order.
pub open spec fn facts(entries: Seq<TypingEntry>) -> Seq<TypingFact> {
    entries.map_values(|e: TypingEntry| e@)
}

/// The events of `s` that are fresh at `now`, in their order.
pub open spec fn swept(s: Seq<TypingFact>, now: u64) -> Seq<TypingFact>
    decreases s.len(),
{
    if s.len() == 0 {
        s
    } else if s.last().is_fresh(now) {
        swept(s.drop_last(), now).push(s.last())
    } else {
        swept(s.drop_last(), now)
    }
}

/// The newest `MAX_TYPING_EVENTS` events of `s`: what is left once the oldest
/// have been evicted.
pub open spec fn capped(s: Seq<TypingFact>) -> Seq<TypingFact> {
    if s.len() > MAX_TYPING_EVENTS {
        s.skip(s.len() - MAX_TYPING_EVENTS)
    } else {
        s
    }
}

/// The events held after `fact` has been recorded at time `now`: the new event
/// goes behind the others, what has expired is swept, and the oldest events
/// beyond the capacity are evicted.
pub open spec fn recorded(s: Seq<TypingFact>, fact: TypingFact, now: u64) -> Seq<TypingFact> {
    capped(swept(s.push(fact), now))
}

/// Sweeping keeps no more than there was, and only fresh events.
pub proof fn lemma_swept_fresh(s: Seq<TypingFact>, now: u64)
    ensures
        swept(s, now).len() <= s.len(),
        forall|i: int| 0 <= i < swept(s, now).len() ==> (#[trigger] swept(s, now)[i]).is_fresh(now),
    decreases s.len(),
{
    if s.len() > 0 {
        lemma_swept_fresh(s.drop_last(), now);
    }
}

/// A sequence of fresh events is left as it is by a sweep.
pub proof fn lemma_swept_all_fresh(s: Seq<TypingFact>, now: u64)
    requires
        forall|i: int| 0 <= i < s.len() ==> (#[trigger] s[i]).is_fresh(now),
    ensures
        swept(s, now) == s,
    decreases s.len(),
{
    if s.len() > 0 {
        lemma_swept_all_fresh(s.drop_last(), now);
        assert(s.drop_last().push(s.last()) =~= s);
    }
}

/// Sweeping is idempotent: after a sweep at `now`, a second sweep at `now`
/// removes nothing.
pub proof fn lemma_sweep_idempotent(s: Seq<TypingFact>, now: u64)
    ensures
        swept(swept(s, now), now) == swept(s, now),
{
    lemma_swept_fresh(s, now);
    lemma_swept_all_fresh(swept(s, now), now);
}

/// What a tracker holds after an event has been recorded at `now` is fresh at
/// `now` and within the capacity, whatever it held before.
pub proof fn lemma_recorded_fresh(s: Seq<TypingFact>, fact: TypingFact, now: u64)
    ensures
        recorded(s, fact, now).len() <= MAX_TYPING_EVENTS,
        forall|i: int|
            0 <= i < recorded(s, fact, now).len() ==> (#[trigger] recorded(s, fact, now)[i]).is_fresh(
                now,
            ),
{
    let kept = swept(s.push(fact), now);
    lemma_swept_fresh(s.push(fact), now);
    assert forall|i: int| 0 <= i < recorded(s, fact, now).len() implies (#[trigger] recorded(
        s,
        fact,
        now,
    )[i]).is_fresh(now) by {
        if kept.len() > MAX_TYPING_EVENTS {
            assert(recorded(s, fact, now)[i] == kept[i + kept.len() - MAX_TYPING_EVENTS]);
        }
    }
}

/// The tracker itself.
pub struct TypingTracker {
    entries: Vec<TypingEntry>,
}

impl View for TypingTracker {
    type V = Seq<TypingFact>;

    closed spec fn view(&self) -> Seq<TypingFact> {
        facts(self.entries@)
    }
}

impl TypingTracker {
    #[verifier::type_invariant]
    spec fn within_capacity(self) -> bool {
        self.entries@.len() <= MAX_TYPING_EVENTS
    }

    /// A tracker without entries.
    pub fn new() -> (tracker: Self)
        ensures
            tracker@ == Seq::<TypingFact>::empty(),
    {
        let tracker = TypingTracker { entries: Vec::new() };
        assert(tracker@ =~= Seq::<TypingFact>::empty());
        tracker
    }

    /// Number of entries held. Never more than `MAX_TYPING_EVENTS`.
    pub fn len(&self) -> (n: usize)
        ensures
            n == self@.len(),
            n <= MAX_TYPING_EVENTS,
    {
        proof {
            use_type_invariant(self);
        }
        self.entries.len()
    }

    /// The entry at position `i`, oldest first.
    pub fn get(&self, i: usize) -> (entry: Option<&TypingEntry>)
        ensures
            i < self@.len() ==> entry is Some && entry->0@ == self@[i as int],
            i >= self@.len() ==> entry is None,
    {
        if i < self.entries.len() {
            Some(&self.entries[i])
        } else {
            None
        }
    }

    /// Removes every entry that has expired at `now`; the others stay in their
    /// order.
    pub fn sweep(&mut self, now: u64)
        ensures
            final(self)@ == swept(old(self)@, now),
    {
        proof {
            use_type_invariant(&*self);
            lemma_swept_fresh(self@, now);
        }
        let kept = fresh_entries(&self.entries, now);
        self.entries = kept;
    }

    /// Records one event at time `now`: the entry is appended, expired entries
    /// are swept, and if the tracker is over capacity the oldest entry goes.
    pub fn record(&mut self, entry: TypingEntry, now: u64)
        ensures
            final(self)@ == recorded(old(self)@, entry@, now),
            final(self)@.len() <= MAX_TYPING_EVENTS,
    {
        proof {
            use_type_invariant(&*self);
            lemma_swept_fresh(self@, now);
        }
        let ghost before = self@;
        let mut kept = fresh_entries(&self.entries, now);
        assert(before.push(entry@).drop_last() =~= before);
        if entry.is_fresh(now) {
            let ghost prev = kept@;
            kept.push(entry);
            assert(facts(kept@) =~= facts(prev).push(entry@));
        }
        if kept.len() > MAX_TYPING_EVENTS {
            let ghost full = kept@;
            kept.remove(0);
            assert(facts(kept@) =~= facts(full).skip(1));
        }
        self.entries = kept;
    }

    /// The display names of the users typing in the given conversation, one
    /// name per user, in the order in which the users were first seen.
    pub fn query(&self, channel_id: u64, guild_id: Option<u64>) -> (names: Vec<String>)
        ensures
            texts(names@) == names_of(typists(self@, channel_id, guild_id)),
    {
        let mut users: Vec<u64> = Vec::new();
        let mut names: Vec<String> = Vec::new();
        let mut i: usize = 0;
        while i < self.entries.len()
            invariant
                i <= self.entries@.len(),
                users@ == users_of(typists(facts(self.entries@).take(i as int), channel_id, guild_id)),
                texts(names@) == names_of(
                    typists(facts(self.entries@).take(i as int), channel_id, guild_id),
                ),
            decreases self.entries@.len() - i,
        {
            let ghost all = facts(self.entries@);
            let ghost seen = typists(all.take(i as int), channel_id, guild_id);
            assert(all.take(i + 1).drop_last() =~= all.take(i as int));
            assert(all.take(i + 1).last() == self.entries@[i as int]@);
            let entry = &self.entries[i];
            let same_guild = match (entry.guild_id, guild_id) {
                (Some(a), Some(b)) => a == b,
                (None, None) => true,
                _ => false,
            };
            if entry.channel_id == channel_id && same_guild {
                let known = holds(&users, entry.user);
                proof {
                    lemma_users_of(seen, entry.user);
                }
                if !known {
                    let ghost prev_names = names@;
                    users.push(entry.user);
                    let name = entry.user_name.clone();
                    names.push(name);
                    assert(users@ =~= users_of(seen.push(entry@)));
                    assert(texts(names@) =~= texts(prev_names).push(name@));
                    assert(texts(names@) =~= names_of(seen.push(entry@)));
                }
            }
            i += 1;
        }
        assert(facts(self.entries@).take(i as int) =~= facts(self.entries@));
        names
    }
}

/// The fresh entries among `entries`, copied in their order.
fn fresh_entries(entries: &Vec<TypingEntry>, now: u64) -> (kept: Vec<TypingEntry>)
    ensures
        facts(kept@) == swept(facts(entries@), now),
{
    let mut kept: Vec<TypingEntry> = Vec::new();
    let mut i: usize = 0;
    while i < entries.len()
        invariant
            i <= entries@.len(),
            facts(kept@) == swept(facts(entries@).take(i as int), now),
        decreases entries@.len() - i,
    {
        let ghost all = facts(entries@);
        assert(all.take(i + 1).drop_last() =~= all.take(i as int));
        assert(all.take(i + 1).last() == entries@[i as int]@);
        if entries[i].is_fresh(now) {
            let copy = entries[i].duplicate();
            let ghost before = kept@;
            kept.push(copy);
            assert(facts(kept@) =~= facts(before).push(copy@));
        }
        i += 1;
    }
    assert(facts(entries@).take(i as int) =~= facts(entries@));
    kept
}

/// Whether `user` occurs in `users`.
fn holds(users: &Vec<u64>, user: u64) -> (found: bool)
    ensures
        found == users@.contains(user),
{
    let mut i: usize = 0;
    while i < users.len()
        invariant
            i <= users.len(),
            forall|k: int| 0 <= k < i ==> users@[k] != user,
        decreases users.len() - i,
    {
        if users[i] == user {
            return true;
        }
        i += 1;
    }
    false
}

/// Whether one of `events` is by `user`.
pub open spec fn has_user(events: Seq<TypingFact>, user: u64) -> bool {
    exists|i: int| 0 <= i < events.len() && (#[trigger] events[i]).user == user
}

/// The users of `events`, in order.
pub open spec fn users_of(events: Seq<TypingFact>) -> Seq<u64> {
    events.map_values(|e: TypingFact| e.user)
}

/// The display names of `events`, in order.
pub open spec fn names_of(events: Seq<TypingFact>) -> Seq<Seq<char>> {
    events.map_values(|e: TypingFact| e.user_name)
}

/// For each user with an event in the given conversation, the first such
/// event; in the order of `s`.
pub open spec fn typists(s: Seq<TypingFact>, channel_id: u64, guild_id: Option<u64>) -> Seq<
    TypingFact,
>
    decreases s.len(),
{
    if s.len() == 0 {
        Seq::empty()
    } else {
        let before = typists(s.drop_last(), channel_id, guild_id);
        if s.last().is_in(channel_id, guild_id) && !has_user(before, s.last().user) {
            before.push(s.last())
        } else {
            before
        }
    }
}

proof fn lemma_users_of(events: Seq<TypingFact>, user: u64)
    ensures
        users_of(events).contains(user) == has_user(events, user),
{
    if has_user(events, user) {
        let i = choose|i: int| 0 <= i < events.len() && (#[trigger] events[i]).user == user;
        assert(users_of(events)[i] == user);
    }
    if users_of(events).contains(user) {
        let i = choose|i: int| 0 <= i < users_of(events).len() && users_of(events)[i] == user;
        assert(events[i].user == user);
    }
}

/// One name per user. Every event among `typists` is an event of `s` in the
/// given conversation; no two of them are by the same user; and every user
/// with an event of `s` in the conversation is among them.
pub proof fn lemma_one_entry_per_user(s: Seq<TypingFact>, channel_id: u64, guild_id: Option<u64>)
    ensures
        forall|i: int|
            0 <= i < typists(s, channel_id, guild_id).len() ==> s.contains(
                #[trigger] typists(s, channel_id, guild_id)[i],
            ) && typists(s, channel_id, guild_id)[i].is_in(channel_id, guild_id),
        forall|i: int, j: int|
            0 <= i < j < typists(s, channel_id, guild_id).len() ==> (#[trigger] typists(
                s,
                channel_id,
                guild_id,
            )[i]).user != (#[trigger] typists(s, channel_id, guild_id)[j]).user,
        forall|k: int|
            0 <= k < s.len() && (#[trigger] s[k]).is_in(channel_id, guild_id) ==> has_user(
                typists(s, channel_id, guild_id),
                s[k].user,
            ),
    decreases s.len(),
{
    if s.len() > 0 {
        let init = s.drop_last();
        lemma_one_entry_per_user(init, channel_id, guild_id);
        let before = typists(init, channel_id, guild_id);
        let now = typists(s, channel_id, guild_id);
        assert forall|i: int| 0 <= i < now.len() implies s.contains(#[trigger] now[i]) && now[i].is_in(
            channel_id,
            guild_id,
        ) by {
            if i < before.len() {
                assert(init.contains(before[i]));
                let k = choose|k: int| 0 <= k < init.len() && init[k] == before[i];
                assert(s[k] == now[i]);
            } else {
                assert(s[s.len() - 1] == now[i]);
            }
        }
        assert forall|k: int| 0 <= k < s.len() && (#[trigger] s[k]).is_in(
            channel_id,
            guild_id,
        ) implies has_user(now, s[k].user) by {
            if k < init.len() {
                assert(init[k] == s[k]);
                let i = choose|i: int| 0 <= i < before.len() && (#[trigger] before[i]).user == s[k].user;
                assert(now[i].user == s[k].user);
            } else {
                if has_user(before, s.last().user) {
                    let i = choose|i: int|
                        0 <= i < before.len() && (#[trigger] before[i]).user == s.last().user;
                    assert(now[i].user == s[k].user);
                } else {
                    assert(now[now.len() - 1].user == s[k].user);
                }
            }
        }
    }
}

/// The name shown for a user is the one of the user's first event in the
/// conversation: a later event of the same user, whatever name it carries,
/// adds nothing.
pub proof fn lemma_later_event_adds_nothing(
    s: Seq<TypingFact>,
    again: TypingFact,
    channel_id: u64,
    guild_id: Option<u64>,
)
    requires
        exists|k: int|
            0 <= k < s.len() && (#[trigger] s[k]).is_in(channel_id, guild_id) && s[k].user
                == again.user,
    ensures
        typists(s.push(again), channel_id, guild_id) == typists(s, channel_id, guild_id),
{
    lemma_one_entry_per_user(s, channel_id, guild_id);
    assert(s.push(again).drop_last() =~= s);
}

/// The events held after `added` have been recorded one after the other, all
/// at time `now`.
pub open spec fn recorded_all(s: Seq<TypingFact>, added: Seq<TypingFact>, now: u64) -> Seq<
    TypingFact,
>
    decreases added.len(),
{
    if added.len() == 0 {
        s
    } else {
        recorded(recorded_all(s, added.drop_last(), now), added.last(), now)
    }
}

/// Capacity bound with oldest-first eviction. While nothing expires, recording
/// events one after the other leaves the newest `MAX_TYPING_EVENTS` of all the
/// events seen, and never more than that many.
pub proof fn lemma_capacity_keeps_newest(s: Seq<TypingFact>, added: Seq<TypingFact>, now: u64)
    requires
        s.len() <= MAX_TYPING_EVENTS,
        forall|i: int| 0 <= i < s.len() ==> (#[trigger] s[i]).is_fresh(now),
        forall|i: int| 0 <= i < added.len() ==> (#[trigger] added[i]).is_fresh(now),
    ensures
        recorded_all(s, added, now) == capped(s + added),
        recorded_all(s, added, now).len() <= MAX_TYPING_EVENTS,
    decreases added.len(),
{
    if added.len() == 0 {
        assert(s + added =~= s);
    } else {
        let init = added.drop_last();
        lemma_capacity_keeps_newest(s, init, now);
        let held = capped(s + init);
        let next = held.push(added.last());
        assert forall|i: int| 0 <= i < next.len() implies (#[trigger] next[i]).is_fresh(now) by {
            if i < held.len() {
                if (s + init).len() > MAX_TYPING_EVENTS {
                    let k = i + (s + init).len() - MAX_TYPING_EVENTS;
                    assert(held[i] == (s + init)[k]);
                    if k < s.len() {
                        assert((s + init)[k] == s[k]);
                    } else {
                        assert((s + init)[k] == added[k - s.len()]);
                    }
                } else {
                    if i < s.len() {
                        assert(held[i] == s[i]);
                    } else {
                        assert(held[i] == added[i - s.len()]);
                    }
                }
            } else {
                assert(next[i] == added[added.len() - 1]);
            }
        }
        lemma_swept_all_fresh(next, now);
        assert((s + init).push(added.last()) =~= s + added);
        assert(capped(next) =~= capped(s + added));
    }
}

/// The names that fit into a list of at most `max_names`.
pub open spec fn shown(names: Seq<Seq<char>>, max_names: usize) -> Seq<Seq<char>> {
    if names.len() > max_names {
        names.take(max_names as int)
    } else {
        names
    }
}

/// The names to show for a conversation, at most `max_names` of them, and
/// whether more users are typing than are shown.
pub fn get_users_for_typing_list(
    tracker: &TypingTracker,
    channel_id: u64,
    guild_id: Option<u64>,
    max_names: usize,
) -> (res: (Vec<String>, bool))
    ensures
        texts(res.0@) == shown(names_of(typists(tracker@, channel_id, guild_id)), max_names),
        res.1 == (typists(tracker@, channel_id, guild_id).len() > max_names),
{
    let mut names = tracker.query(channel_id, guild_id);
    let ghost all = names@;
    assert(texts(all).len() == all.len());
    if names.len() > max_names {
        names.truncate(max_names);
        assert(texts(names@) =~= texts(all).take(max_names as int));
        (names, true)
    } else {
        (names, false)
    }
}

/// The terse typing line for the shown names: the names separated by commas,
/// then dots if some are not shown, all behind a `typing: ` label. Empty when
/// there is nothing to show.
pub open spec fn terse_line(head: Seq<Seq<char>>, has_more: bool) -> Seq<char> {
    let users = if has_more {
        joined(head, ", "@) + ", ..."@
    } else {
        joined(head, ", "@)
    };
    if users.len() == 0 {
        Seq::empty()
    } else {
        "typing: "@ + users
    }
}

/// The expanded typing line for the shown names: a sentence that names one
/// user, or lists several, or says `Several people` when some are not shown.
/// Empty when no name is shown.
pub open spec fn expanded_line(head: Seq<Seq<char>>, has_more: bool) -> Seq<char> {
    if head.len() == 0 {
        Seq::empty()
    } else if has_more {
        "Several people are typing..."@
    } else if head.len() == 1 {
        head[0] + " is typing"@
    } else {
        joined(head.drop_last(), ", "@) + " and "@ + head.last() + " are typing"@
    }
}

/// The terse typing indicator of a conversation.
pub fn terse_typing_list(
    tracker: &TypingTracker,
    channel_id: u64,
    guild_id: Option<u64>,
    max_names: usize,
) -> (line: String)
    ensures
        line@ == terse_line(
            shown(names_of(typists(tracker@, channel_id, guild_id)), max_names),
            typists(tracker@, channel_id, guild_id).len() > max_names,
        ),
{
    let (head, has_more) = get_users_for_typing_list(tracker, channel_id, guild_id, max_names);
    let mut users = join(&head, ", ");
    if has_more {
        users.append(", ...");
    }
    if users.as_str().is_empty() {
        String::new()
    } else {
        let mut line = String::new();
        line.append("typing: ");
        line.append(users.as_str());
        assert(line@ =~= "typing: "@ + users@);
        line
    }
}

/// The expanded typing indicator of a conversation.
pub fn expanded_typing_list(
    tracker: &TypingTracker,
    channel_id: u64,
    guild_id: Option<u64>,
    max_names: usize,
) -> (line: String)
    ensures
        line@ == expanded_line(
            shown(names_of(typists(tracker@, channel_id, guild_id)), max_names),
            typists(tracker@, channel_id, guild_id).len() > max_names,
        ),
{
    let (head, has_more) = get_users_for_typing_list(tracker, channel_id, guild_id, max_names);
    assert(texts(head@).len() == head@.len());
    if head.len() == 0 {
        String::new()
    } else if has_more {
        let mut line = String::new();
        line.append("Several people are typing...");
        assert(line@ =~= "Several people are typing..."@);
        line
    } else if head.len() == 1 {
        let mut line = String::new();
        line.append(head[0].as_str());
        line.append(" is typing");
        assert(line@ =~= texts(head@)[0] + " is typing"@);
        line
    } else {
        let last = head.len() - 1;
        let mut line = join_first(&head, last, ", ");
        assert(texts(head@).take(last as int) =~= texts(head@).drop_last());
        line.append(" and ");
        line.append(head[last].as_str());
        line.append(" are typing");
        assert(texts(head@).last() == head@[last as int]@);
        line
    }
}

} // verus!
