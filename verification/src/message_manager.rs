//! The messages of one conversation, kept for replay.
//!
//! The display surface of the host can take one more line at its end or be
//! cleared; it cannot change a line that it shows. So a manager holds the
//! messages of its conversation in the order in which they are shown, and says
//! after every change how the surface is brought up to date: by printing the
//! new message, or by clearing the surface and printing everything again.
//!
//! The caches belong to the main thread. Whatever changes one asks for
//! evidence that the caller runs there.

use crate::sync::OnMain;
use vstd::prelude::*;

verus! {

/// What a message is, beyond text written by a user.
#[derive(Clone, Copy, Debug, PartialEq, Eq, Structural)]
pub enum MessageKind {
    Regular,
    GroupRecipientAddition,
    GroupRecipientRemoval,
    GroupCallCreation,
    GroupNameUpdate,
    GroupIconUpdate,
    PinsAdd,
    MemberJoin,
    NitroBoost,
    NitroTier1,
    NitroTier2,
    NitroTier3,
}

/// Who an embed says it is by.
#[derive(Debug)]
pub struct EmbedAuthor {
    pub name: String,
    pub url: Option<String>,
}

/// One named field of an embed.
#[derive(Debug)]
pub struct EmbedField {
    pub name: String,
    pub value: String,
}

/// Rich content attached to a message.
#[derive(Debug)]
pub struct Embed {
    pub author: Option<EmbedAuthor>,
    pub title: Option<String>,
    pub description: Option<String>,
    pub fields: Vec<EmbedField>,
    pub footer: Option<String>,
}

/// A message as the library holds it.
#[derive(Debug)]
pub struct Message {
    pub id: u64,
    pub channel_id: u64,
    pub author_id: u64,
    pub author_name: String,
    pub content: String,
    /// Seconds since the epoch at which the message was sent.
    pub timestamp: i64,
    /// Whether the message has been edited since.
    pub edited: bool,
    pub kind: MessageKind,
    /// Where each attachment can be fetched.
    pub attachments: Vec<String>,
    pub embeds: Vec<Embed>,
    /// The users that the message mentions.
    pub mentions: Vec<u64>,
}

/// How the display surface is brought up to date: clear it first if `clear`
/// is set, then print the cached messages from position `from` on.
#[derive(Clone, Copy, Debug, PartialEq, Eq, Structural)]
pub struct Redraw {
    pub clear: bool,
    pub from: usize,
}

/// What the surface shows once `redraw` has been carried out on a surface that
/// showed `surface`, with `messages` cached.
pub open spec fn surface_after(surface: Seq<Message>, messages: Seq<Message>, redraw: Redraw) -> Seq<
    Message,
> {
    if redraw.clear {
        messages.skip(redraw.from as int)
    } else {
        surface + messages.skip(redraw.from as int)
    }
}

/// Whether the lines that `redraw` prints notify the user, `notify` being
/// whether the message at hand is one to notify of. Only a line that is new
/// on the surface notifies: what is printed again after a clear does not.
pub open spec fn notifies(redraw: Redraw, notify: bool) -> bool {
    notify && !redraw.clear
}

/// Decides whether the lines that `redraw` prints notify the user.
pub fn replay_notifies(redraw: Redraw, notify: bool) -> (b: bool)
    ensures
        b == notifies(redraw, notify),
{
    notify && !redraw.clear
}

/// The position of the first message with the given id, if there is one.
pub open spec fn position_of(messages: Seq<Message>, id: u64) -> Option<int>
    decreases messages.len(),
{
    if messages.len() == 0 {
        None
    } else {
        match position_of(messages.drop_last(), id) {
            Some(i) => Some(i),
            None => if messages.last().id == id {
                Some(messages.len() - 1)
            } else {
                None
            },
        }
    }
}

/// `position_of` finds the first message with the id, and finds one whenever
/// there is one.
pub proof fn lemma_position_of(messages: Seq<Message>, id: u64)
    ensures
        position_of(messages, id) matches Some(i) ==> 0 <= i < messages.len() && messages[i].id
            == id && forall|k: int| 0 <= k < i ==> (#[trigger] messages[k]).id != id,
        position_of(messages, id) is None ==> forall|k: int|
            0 <= k < messages.len() ==> (#[trigger] messages[k]).id != id,
    decreases messages.len(),
{
    if messages.len() > 0 {
        lemma_position_of(messages.drop_last(), id);
        assert forall|k: int| 0 <= k < messages.len() - 1 implies messages.drop_last()[k]
            == messages[k] by {}
        if position_of(messages, id) is None {
            assert forall|k: int| 0 <= k < messages.len() implies (#[trigger] messages[k]).id
                != id by {
                if k < messages.len() - 1 {
                    assert(messages.drop_last()[k].id != id);
                }
            }
        } else {
            let i = position_of(messages, id)->0;
            assert forall|k: int| 0 <= k < i implies (#[trigger] messages[k]).id != id by {
                assert(messages.drop_last()[k].id != id);
            }
        }
    }
}

/// The messages after the first one with the given id has been replaced by
/// `message`; unchanged if there is none.
pub open spec fn replaced(messages: Seq<Message>, id: u64, message: Message) -> Seq<Message> {
    match position_of(messages, id) {
        Some(i) => messages.update(i, message),
        None => messages,
    }
}

/// The messages after the first one with the given id has been taken out;
/// unchanged if there is none.
pub open spec fn deleted(messages: Seq<Message>, id: u64) -> Seq<Message> {
    match position_of(messages, id) {
        Some(i) => messages.remove(i),
        None => messages,
    }
}

/// A full redraw leaves the surface showing exactly the cached messages, in
/// their order, whatever it showed before.
pub proof fn lemma_full_redraw(surface: Seq<Message>, messages: Seq<Message>)
    ensures
        surface_after(surface, messages, Redraw { clear: true, from: 0 }) == messages,
{
    assert(messages.skip(0) =~= messages);
}

/// Redraw determinism. After the message at position `at` has been replaced
/// through its id, a full redraw shows the messages with `message` at `at` and
/// every other message where it was: the same as showing that sequence from
/// nothing.
pub proof fn lemma_replace_then_redraw(
    surface: Seq<Message>,
    messages: Seq<Message>,
    at: int,
    message: Message,
)
    requires
        0 <= at < messages.len(),
        forall|k: int| 0 <= k < at ==> (#[trigger] messages[k]).id != messages[at].id,
    ensures
        replaced(messages, messages[at].id, message) == messages.update(at, message),
        surface_after(
            surface,
            replaced(messages, messages[at].id, message),
            Redraw { clear: true, from: 0 },
        ) == messages.update(at, message),
        surface_after(
            Seq::empty(),
            messages.update(at, message),
            Redraw { clear: true, from: 0 },
        ) == messages.update(at, message),
{
    lemma_position_of(messages, messages[at].id);
    lemma_full_redraw(surface, messages.update(at, message));
    lemma_full_redraw(Seq::empty(), messages.update(at, message));
}

/// The state of one conversation.
pub struct MessageManager {
    messages: Vec<Message>,
    history_loaded: bool,
    nicks_loaded: bool,
}

impl MessageManager {
    /// The cached messages, in the order in which they are shown.
    pub closed spec fn messages(&self) -> Seq<Message> {
        self.messages@
    }

    /// Whether the history of the conversation has been loaded.
    pub closed spec fn has_history(&self) -> bool {
        self.history_loaded
    }

    /// Whether the nick list of the conversation has been loaded.
    pub closed spec fn has_nicks(&self) -> bool {
        self.nicks_loaded
    }

    /// The state of a conversation that nothing has happened in yet.
    pub fn new() -> (manager: Self)
        ensures
            manager.messages() == Seq::<Message>::empty(),
            !manager.has_history(),
            !manager.has_nicks(),
    {
        MessageManager { messages: Vec::new(), history_loaded: false, nicks_loaded: false }
    }

    /// Whether the history has been loaded.
    pub fn history_loaded(&self) -> (b: bool)
        ensures
            b == self.has_history(),
    {
        self.history_loaded
    }

    /// Notes that the history has been loaded. Nothing ever takes this back.
    pub fn set_history_loaded(&mut self, _on_main: &OnMain)
        ensures
            final(self).has_history(),
            final(self).has_nicks() == old(self).has_nicks(),
            final(self).messages() == old(self).messages(),
    {
        self.history_loaded = true;
    }

    /// Whether the nick list has been loaded.
    pub fn nicks_loaded(&self) -> (b: bool)
        ensures
            b == self.has_nicks(),
    {
        self.nicks_loaded
    }

    /// Notes that the nick list has been loaded. Nothing ever takes this back.
    pub fn set_nicks_loaded(&mut self, _on_main: &OnMain)
        ensures
            final(self).has_nicks(),
            final(self).has_history() == old(self).has_history(),
            final(self).messages() == old(self).messages(),
    {
        self.nicks_loaded = true;
    }

    /// Number of cached messages.
    pub fn len(&self) -> (n: usize)
        ensures
            n == self.messages().len(),
    {
        self.messages.len()
    }

    /// The cached message at position `i`.
    pub fn get(&self, i: usize) -> (message: Option<&Message>)
        ensures
            i < self.messages().len() ==> message == Some(&self.messages()[i as int]),
            i >= self.messages().len() ==> message is None,
    {
        if i < self.messages.len() {
            Some(&self.messages[i])
        } else {
            None
        }
    }

    /// How to show the whole conversation again: clear, then print every
    /// cached message in order. None of the lines notifies.
    pub fn redraw_buffer(&self) -> (redraw: Redraw)
        ensures
            redraw == (Redraw { clear: true, from: 0 }),
            forall|surface: Seq<Message>|
                surface_after(surface, self.messages(), redraw) == self.messages(),
            forall|notify: bool| !notifies(redraw, notify),
    {
        assert(self.messages().skip(0) =~= self.messages());
        Redraw { clear: true, from: 0 }
    }

    /// Forgets every cached message; the surface is to be cleared.
    pub fn clear(&mut self, _on_main: &OnMain) -> (redraw: Redraw)
        ensures
            final(self).messages() == Seq::<Message>::empty(),
            final(self).has_history() == old(self).has_history(),
            final(self).has_nicks() == old(self).has_nicks(),
            redraw == (Redraw { clear: true, from: 0 }),
    {
        self.messages.clear();
        Redraw { clear: true, from: 0 }
    }

    /// Adds a message behind the others. Only the new message is printed.
    pub fn add_message(&mut self, _on_main: &OnMain, message: Message) -> (redraw: Redraw)
        ensures
            final(self).messages() == old(self).messages().push(message),
            final(self).has_history() == old(self).has_history(),
            final(self).has_nicks() == old(self).has_nicks(),
            redraw == (Redraw { clear: false, from: old(self).messages().len() as usize }),
            surface_after(old(self).messages(), final(self).messages(), redraw)
                == final(self).messages(),
            forall|notify: bool| notifies(redraw, notify) == notify,
    {
        let at = self.messages.len();
        self.messages.push(message);
        assert(self.messages@.skip(at as int) =~= seq![message]);
        assert(old(self).messages@ + seq![message] =~= self.messages@);
        Redraw { clear: false, from: at }
    }

    /// Puts `message` in the place of the first cached message with the given
    /// id, if there is one. Everything is shown again in either case.
    pub fn replace_message(&mut self, _on_main: &OnMain, id: u64, message: Message) -> (redraw:
        Redraw)
        ensures
            final(self).messages() == replaced(old(self).messages(), id, message),
            final(self).has_history() == old(self).has_history(),
            final(self).has_nicks() == old(self).has_nicks(),
            redraw == (Redraw { clear: true, from: 0 }),
            forall|notify: bool| !notifies(redraw, notify),
    {
        match self.find(id) {
            Some(i) => {
                self.messages.set(i, message);
            },
            None => {},
        }
        Redraw { clear: true, from: 0 }
    }

    /// Takes out the first cached message with the given id, if there is one,
    /// and returns it. Everything is shown again in either case.
    pub fn delete_message(&mut self, _on_main: &OnMain, id: u64) -> (res: (Option<Message>, Redraw))
        ensures
            final(self).messages() == deleted(old(self).messages(), id),
            final(self).has_history() == old(self).has_history(),
            final(self).has_nicks() == old(self).has_nicks(),
            match position_of(old(self).messages(), id) {
                Some(i) => res.0 == Some(old(self).messages()[i]),
                None => res.0 is None,
            },
            res.1 == (Redraw { clear: true, from: 0 }),
            forall|notify: bool| !notifies(res.1, notify),
    {
        let gone = match self.find(id) {
            Some(i) => Some(self.messages.remove(i)),
            None => None,
        };
        (gone, Redraw { clear: true, from: 0 })
    }

    /// The position of the first cached message with the given id.
    pub fn find(&self, id: u64) -> (at: Option<usize>)
        ensures
            match at {
                Some(i) => position_of(self.messages(), id) == Some(i as int) && i
                    < self.messages().len(),
                None => position_of(self.messages(), id) is None,
            },
    {
        let mut i: usize = 0;
        while i < self.messages.len()
            invariant
                i <= self.messages@.len(),
                position_of(self.messages@.take(i as int), id) is None,
            decreases self.messages@.len() - i,
        {
            assert(self.messages@.take(i + 1).drop_last() =~= self.messages@.take(i as int));
            if self.messages[i].id == id {
                proof {
                    lemma_found_in_prefix(self.messages@, id, i as int);
                }
                return Some(i);
            }
            i += 1;
        }
        assert(self.messages@.take(i as int) =~= self.messages@);
        None
    }
}

/// A message with the id, before which there is none, is where `position_of`
/// points.
proof fn lemma_found_in_prefix(messages: Seq<Message>, id: u64, i: int)
    requires
        0 <= i < messages.len(),
        messages[i].id == id,
        position_of(messages.take(i), id) is None,
    ensures
        position_of(messages, id) == Some(i),
{
    lemma_position_of(messages, id);
    lemma_position_of(messages.take(i), id);
    let found = position_of(messages, id);
    if found is Some {
        let k = found->0;
        if k < i {
            assert(messages.take(i)[k].id == id);
        }
    }
}

/// The position of the first `name` among `names`, if it is there.
pub open spec fn name_index(names: Seq<Seq<char>>, name: Seq<char>) -> Option<int>
    decreases names.len(),
{
    if names.len() == 0 {
        None
    } else {
        match name_index(names.drop_last(), name) {
            Some(i) => Some(i),
            None => if names.last() == name {
                Some(names.len() - 1)
            } else {
                None
            },
        }
    }
}

/// `name_index` points at `name`, and finds it whenever it is there.
pub proof fn lemma_name_index(names: Seq<Seq<char>>, name: Seq<char>)
    ensures
        name_index(names, name) matches Some(i) ==> 0 <= i < names.len() && names[i] == name,
        name_index(names, name) is None ==> !names.contains(name),
    decreases names.len(),
{
    if names.len() > 0 {
        lemma_name_index(names.drop_last(), name);
        if name_index(names, name) is None {
            assert forall|k: int| 0 <= k < names.len() implies names[k] != name by {
                if k < names.len() - 1 {
                    assert(names.drop_last()[k] == names[k]);
                }
            }
        } else if name_index(names.drop_last(), name) is Some {
            let i = name_index(names.drop_last(), name)->0;
            assert(names.drop_last()[i] == names[i]);
        }
    }
}

/// Creating on demand never makes a name stand for two conversations: a name
/// is added only where `name_index` does not find it.
pub proof fn lemma_names_stay_distinct(names: Seq<Seq<char>>, name: Seq<char>)
    requires
        names.no_duplicates(),
        name_index(names, name) is None,
    ensures
        names.push(name).no_duplicates(),
{
    lemma_name_index(names, name);
    let after = names.push(name);
    assert forall|i: int, j: int|
        0 <= i < after.len() && 0 <= j < after.len() && i != j implies after[i] != after[j] by {
        if i < names.len() && j < names.len() {
            assert(names[i] != names[j]);
        } else if i < names.len() {
            assert(names.contains(names[i]));
        } else {
            assert(names.contains(names[j]));
        }
    }
}

/// One conversation under its name.
pub struct Conversation {
    name: String,
    manager: MessageManager,
}

/// The conversations of the program, each under the name of its buffer.
pub struct BufferManager {
    buffers: Vec<Conversation>,
}

impl BufferManager {
    /// The names of the conversations, in the order of their creation.
    pub closed spec fn names(&self) -> Seq<Seq<char>> {
        self.buffers@.map_values(|c: Conversation| c.name@)
    }

    /// The states of the conversations, in the order of their creation.
    pub closed spec fn managers(&self) -> Seq<MessageManager> {
        self.buffers@.map_values(|c: Conversation| c.manager)
    }

    /// No conversations.
    pub fn new() -> (manager: Self)
        ensures
            manager.names() == Seq::<Seq<char>>::empty(),
            manager.managers() == Seq::<MessageManager>::empty(),
            manager.names().len() == manager.managers().len(),
    {
        let manager = BufferManager { buffers: Vec::new() };
        assert(manager.names() =~= Seq::<Seq<char>>::empty());
        assert(manager.managers() =~= Seq::<MessageManager>::empty());
        manager
    }

    /// The position of the conversation named `name`.
    fn position(&self, name: &str) -> (at: Option<usize>)
        ensures
            self.names().len() == self.managers().len(),
            self.names().len() == self.buffers@.len(),
            at matches Some(i) ==> i < self.names().len() && name_index(self.names(), name@) == Some(
                i as int,
            ),
            at is None ==> name_index(self.names(), name@) is None,
    {
        let wanted = name.to_owned();
        let mut i: usize = 0;
        while i < self.buffers.len()
            invariant
                i <= self.buffers@.len(),
                wanted@ == name@,
                name_index(self.names().take(i as int), name@) is None,
            decreases self.buffers@.len() - i,
        {
            assert(self.names().take(i + 1).drop_last() =~= self.names().take(i as int));
            assert(self.names().take(i + 1).last() == self.buffers@[i as int].name@);
            if self.buffers[i].name == wanted {
                proof {
                    lemma_name_index_prefix(self.names(), name@, i + 1);
                }
                return Some(i);
            }
            i += 1;
        }
        assert(self.names().take(i as int) =~= self.names());
        None
    }

    /// The state of the conversation named `name`, if there is one.
    pub fn get_buffer(&self, name: &str) -> (buffer: Option<&MessageManager>)
        ensures
            self.names().len() == self.managers().len(),
            match name_index(self.names(), name@) {
                Some(i) => buffer == Some(&self.managers()[i]),
                None => buffer is None,
            },
    {
        match self.position(name) {
            Some(i) => Some(&self.buffers[i].manager),
            None => None,
        }
    }

    /// The state of the conversation named `name`, for changing it. A
    /// conversation that does not exist yet is created first, with no messages
    /// and nothing loaded; the others are left alone.
    pub fn get_or_create_buffer(&mut self, _on_main: &OnMain, name: &str) -> (buffer:
        &mut MessageManager)
        ensures
            match name_index(old(self).names(), name@) {
                Some(i) => *buffer == old(self).managers()[i] && final(self).names() == old(
                    self,
                ).names() && final(self).managers() == old(self).managers().update(
                    i,
                    *final(buffer),
                ),
                None => buffer.messages() == Seq::<Message>::empty() && !buffer.has_history()
                    && !buffer.has_nicks() && final(self).names() == old(self).names().push(name@)
                    && final(self).managers() == old(self).managers().push(*final(buffer)),
            },
            old(self).names().len() == old(self).managers().len(),
            final(self).names().len() == final(self).managers().len(),
    {
        let ghost before = self.names();
        let at: usize = match self.position(name) {
            Some(i) => i,
            None => {
                let fresh = Conversation { name: name.to_owned(), manager: MessageManager::new() };
                self.buffers.push(fresh);
                proof {
                    lemma_name_index(before, name@);
                    assert(self.names() =~= before.push(name@));
                    assert(self.managers() =~= old(self).managers().push(fresh.manager));
                }
                self.buffers.len() - 1
            },
        };
        &mut self.buffers[at].manager
    }

    /// Whether a conversation is named `name`.
    pub fn has_buffer(&self, name: &str) -> (b: bool)
        ensures
            b == name_index(self.names(), name@).is_some(),
            self.names().len() == self.managers().len(),
    {
        self.position(name).is_some()
    }
}

/// What `name_index` finds in a prefix of `names`, it finds in `names`.
proof fn lemma_name_index_prefix(names: Seq<Seq<char>>, name: Seq<char>, n: int)
    requires
        0 <= n <= names.len(),
        name_index(names.take(n), name) is Some,
    ensures
        name_index(names, name) == name_index(names.take(n), name),
    decreases names.len() - n,
{
    if n < names.len() {
        assert(names.take(n + 1).drop_last() =~= names.take(n));
        lemma_name_index_prefix(names, name, n + 1);
    } else {
        assert(names.take(n) =~= names);
    }
}

} // verus!
