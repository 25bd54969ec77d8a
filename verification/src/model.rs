//! Data model of the synchronized chat cache.
//!
//! Identifiers are opaque comparable keys and timestamps are monotone
//! creation times; both are held as `u64`. Text (names, message bodies,
//! image references) is held as UTF-8 bytes and never interpreted here.
//!
//! Each executable type has a mathematical view (`UserView`, `MessageView`,
//! `ChatView`) over which every contract of the engine is stated.

use vstd::prelude::*;

verus! {

/// A chat participant, as cached per chat membership.
#[derive(Debug, PartialEq, Eq)]
pub struct User {
    /// Opaque identifier of the user.
    pub id: u64,
    /// Name shown to other users, UTF-8 bytes.
    pub display_name: Vec<u8>,
    /// Reference (URL) of the profile image, UTF-8 bytes.
    pub profile_image: Vec<u8>,
    /// Read receipt: creation time of the newest message this user has seen
    /// in the chat this membership record belongs to.
    pub last_message_seen_ts: u64,
}

/// Mathematical view of a [`User`].
#[verifier::ext_equal]
pub struct UserView {
    pub id: u64,
    pub display_name: Seq<u8>,
    pub profile_image: Seq<u8>,
    pub last_message_seen_ts: u64,
}

impl View for User {
    type V = UserView;

    open spec fn view(&self) -> UserView {
        UserView {
            id: self.id,
            display_name: self.display_name@,
            profile_image: self.profile_image@,
            last_message_seen_ts: self.last_message_seen_ts,
        }
    }
}

/// One message of a chat. Messages are immutable: the engine only appends
/// them to a window or prepends whole pages, never edits one in place.
#[derive(Debug, PartialEq, Eq)]
pub struct Message {
    /// Opaque identifier of the message.
    pub id: u64,
    /// Identifier of the chat the message belongs to.
    pub chat_id: u64,
    /// Creator of the message; `None` marks a system message.
    pub creator: Option<u64>,
    /// Body of the message, UTF-8 bytes.
    pub content: Vec<u8>,
    /// Creation time of the message.
    pub created_at: u64,
}

/// Mathematical view of a [`Message`].
#[verifier::ext_equal]
pub struct MessageView {
    pub id: u64,
    pub chat_id: u64,
    pub creator: Option<u64>,
    pub content: Seq<u8>,
    pub created_at: u64,
}

impl View for Message {
    type V = MessageView;

    open spec fn view(&self) -> MessageView {
        MessageView {
            id: self.id,
            chat_id: self.chat_id,
            creator: self.creator,
            content: self.content@,
            created_at: self.created_at,
        }
    }
}

/// A chat with the currently loaded window of its messages.
///
/// `last_message_ts` tracks the newest message of the whole chat, not just
/// of the loaded window: older pages may be missing, so the two can diverge,
/// but `last_message_ts` never falls below the newest loaded message.
#[derive(Debug, PartialEq, Eq)]
pub struct Chat {
    /// Opaque identifier of the chat, also used as its join code.
    pub id: u64,
    /// Display name of the chat, UTF-8 bytes.
    pub name: Vec<u8>,
    /// Participants, each with their per-chat read receipt.
    pub users: Vec<User>,
    /// Loaded window of messages, ascending by creation time.
    pub messages: Vec<Message>,
    /// Creation time of the newest message across the whole chat.
    pub last_message_ts: u64,
}

/// Mathematical view of a [`Chat`].
#[verifier::ext_equal]
pub struct ChatView {
    pub id: u64,
    pub name: Seq<u8>,
    pub users: Seq<UserView>,
    pub messages: Seq<MessageView>,
    pub last_message_ts: u64,
}

impl View for Chat {
    type V = ChatView;

    open spec fn view(&self) -> ChatView {
        ChatView {
            id: self.id,
            name: self.name@,
            users: views_of_users(self.users@),
            messages: views_of_messages(self.messages@),
            last_message_ts: self.last_message_ts,
        }
    }
}

/// Views of a sequence of participants, element by element.
pub open spec fn views_of_users(us: Seq<User>) -> Seq<UserView> {
    us.map_values(|u: User| u@)
}

/// Views of a sequence of messages, element by element.
pub open spec fn views_of_messages(ms: Seq<Message>) -> Seq<MessageView> {
    ms.map_values(|m: Message| m@)
}

/// Views of a sequence of chats, element by element.
pub open spec fn views_of_chats(cs: Seq<Chat>) -> Seq<ChatView> {
    cs.map_values(|c: Chat| c@)
}

/// The loaded window is sorted ascending by creation time.
pub open spec fn msgs_sorted(ms: Seq<MessageView>) -> bool {
    forall|i: int, j: int| 0 <= i <= j < ms.len() ==> ms[i].created_at <= ms[j].created_at
}

/// No message id occurs twice in the window.
pub open spec fn msg_ids_unique(ms: Seq<MessageView>) -> bool {
    forall|i: int, j: int| 0 <= i < j < ms.len() ==> ms[i].id != ms[j].id
}

/// Whether some message of the window carries the given id.
pub open spec fn has_msg(ms: Seq<MessageView>, id: u64) -> bool {
    exists|i: int| 0 <= i < ms.len() && ms[i].id == id
}

/// No participant id occurs twice.
pub open spec fn user_ids_unique(us: Seq<UserView>) -> bool {
    forall|i: int, j: int| 0 <= i < j < us.len() ==> us[i].id != us[j].id
}

/// Whether some participant carries the given id.
pub open spec fn has_user(us: Seq<UserView>, id: u64) -> bool {
    exists|i: int| 0 <= i < us.len() && us[i].id == id
}

/// Well-formedness of one cached chat: the window is sorted and free of
/// duplicate ids, every loaded message belongs to this chat, participants
/// are unique, and `last_message_ts` dominates the loaded window.
pub open spec fn chat_wf(c: ChatView) -> bool {
    &&& msgs_sorted(c.messages)
    &&& msg_ids_unique(c.messages)
    &&& (forall|i: int| 0 <= i < c.messages.len() ==> (#[trigger] c.messages[i]).chat_id == c.id)
    &&& (forall|i: int|
        0 <= i < c.messages.len() ==> (#[trigger] c.messages[i]).created_at <= c.last_message_ts)
    &&& user_ids_unique(c.users)
}

/// No chat id occurs twice in a chat list.
pub open spec fn chat_ids_unique(cs: Seq<ChatView>) -> bool {
    forall|i: int, j: int| 0 <= i < j < cs.len() ==> cs[i].id != cs[j].id
}

/// The chat list is ordered by `last_message_ts`, newest chat first.
pub open spec fn chats_sorted_desc(cs: Seq<ChatView>) -> bool {
    forall|i: int, j: int| 0 <= i <= j < cs.len() ==> cs[i].last_message_ts >= cs[j].last_message_ts
}

/// No chat of the list carries the given id.
pub open spec fn chat_absent(cs: Seq<ChatView>, id: u64) -> bool {
    forall|i: int| 0 <= i < cs.len() ==> cs[i].id != id
}

/// `k` is the first position of the list whose chat carries the given id.
pub open spec fn first_chat_at(cs: Seq<ChatView>, id: u64, k: int) -> bool {
    &&& 0 <= k < cs.len()
    &&& cs[k].id == id
    &&& (forall|i: int| 0 <= i < k ==> cs[i].id != id)
}

/// Well-formedness of a whole chat list.
pub open spec fn chats_wf(cs: Seq<ChatView>) -> bool {
    &&& chat_ids_unique(cs)
    &&& (forall|i: int| 0 <= i < cs.len() ==> chat_wf(#[trigger] cs[i]))
}

/// Clones a byte string element by element.
pub fn clone_bytes(b: &Vec<u8>) -> (r: Vec<u8>)
    ensures
        r@ == b@,
{
    let mut out: Vec<u8> = Vec::new();
    let n = b.len();
    for i in 0..n
        invariant
            n == b.len(),
            out@ == b@.subrange(0, i as int),
    {
        out.push(b[i]);
        proof {
            assert(out@ =~= b@.subrange(0, i + 1));
        }
    }
    proof {
        assert(out@ =~= b@);
    }
    out
}

} // verus!
