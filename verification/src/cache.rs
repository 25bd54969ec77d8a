//! Cache reconciler: the in-memory source of truth for chats and messages.
//!
//! The cache is mutated only by the engine, one merge per decoded server
//! event, under these rules:
//! - a chat-list response replaces the whole list (authoritative snapshot);
//! - a history page is prepended to the target chat's window, leaving
//!   `last_message_ts` alone;
//! - a new message is appended to the target chat (dropped if the chat is
//!   unknown or the message id is already in the window), `last_message_ts`
//!   becomes the message's creation time, and the chat moves to the stable
//!   position for that new time — forward past strictly older chats or
//!   backward past strictly newer ones, exactly as a stable descending
//!   re-sort would place it, never reordering ties or other chats;
//! - a join event adds the participant only if the id is not yet present;
//! - a read-receipt event overwrites the matching participant's
//!   `last_message_seen_ts` with the event's value (last write wins, even if
//!   an older timestamp arrives later);
//! - a profile event replaces the cached own profile.
//!
//! Events that reference an unknown chat or participant are dropped without
//! an error: the next full refresh reconciles the difference.

use vstd::prelude::*;

use crate::model::{
    chat_absent, chat_wf, chats_sorted_desc, chats_wf, first_chat_at, has_msg, has_user,
    views_of_chats, views_of_messages, Chat, ChatView, Message, MessageView, User, UserView,
};

verus! {

/// Locally cached state observed by the UI: the chat list and the
/// authenticated user's own profile.
pub struct Cache {
    /// All known chats, ordered newest activity first.
    pub chats: Vec<Chat>,
    /// The authenticated user's own profile, once loaded.
    pub me: Option<User>,
}

/// Mathematical view of a [`Cache`].
#[verifier::ext_equal]
pub struct CacheView {
    pub chats: Seq<ChatView>,
    pub me: Option<UserView>,
}

impl View for Cache {
    type V = CacheView;

    open spec fn view(&self) -> CacheView {
        CacheView {
            chats: views_of_chats(self.chats@),
            me: match self.me {
                Some(u) => Some(u@),
                None => None,
            },
        }
    }
}

/// First position of the chat with the given id, if any.
fn find_chat_index(chats: &Vec<Chat>, id: u64) -> (r: Option<usize>)
    ensures
        match r {
            Some(k) => first_chat_at(views_of_chats(chats@), id, k as int),
            None => chat_absent(views_of_chats(chats@), id),
        },
{
    let n = chats.len();
    for k in 0..n
        invariant
            n == chats.len(),
            forall|i: int| 0 <= i < k ==> views_of_chats(chats@)[i].id != id,
    {
        if chats[k].id == id {
            return Some(k);
        }
    }
    None
}

/// Whether the window already holds a message with the given id.
fn window_has_msg(ms: &Vec<Message>, id: u64) -> (r: bool)
    ensures
        r == has_msg(views_of_messages(ms@), id),
{
    let n = ms.len();
    for k in 0..n
        invariant
            n == ms.len(),
            forall|i: int| 0 <= i < k ==> views_of_messages(ms@)[i].id != id,
    {
        if ms[k].id == id {
            assert(views_of_messages(ms@)[k as int].id == id);
            return true;
        }
    }
    false
}

/// First position of the participant with the given id, if any.
fn find_user_index(us: &Vec<User>, id: u64) -> (r: Option<usize>)
    ensures
        match r {
            Some(k) => {
                &&& 0 <= k < us@.len()
                &&& crate::model::views_of_users(us@)[k as int].id == id
                &&& forall|i: int|
                    0 <= i < k ==> crate::model::views_of_users(us@)[i].id != id
            },
            None => !has_user(crate::model::views_of_users(us@), id),
        },
{
    let n = us.len();
    for k in 0..n
        invariant
            n == us.len(),
            forall|i: int| 0 <= i < k ==> crate::model::views_of_users(us@)[i].id != id,
    {
        if us[k].id == id {
            return Some(k);
        }
    }
    None
}

/// The target chat after a new message was appended: the message joins the
/// end of the window and `last_message_ts` becomes its creation time.
pub open spec fn with_message(c: ChatView, m: MessageView) -> ChatView {
    ChatView { messages: c.messages.push(m), last_message_ts: m.created_at, ..c }
}

/// `j` is the stable position, within the list with position `k` taken
/// out, for the chat whose activity time became `ts`: every chat it now
/// stands behind either stood before it and is at least as recent, or
/// stood behind it and is strictly more recent; the first chat past `j`
/// breaks the respective bound. This is where a stable descending re-sort
/// puts the re-keyed chat — ties are never crossed in either direction.
pub open spec fn stable_pos_ok(pre: Seq<ChatView>, k: int, ts: u64, j: int) -> bool {
    &&& 0 <= j <= pre.len() - 1
    &&& (forall|i: int| 0 <= i < j && i < k ==> (#[trigger] pre[i]).last_message_ts >= ts)
    &&& (forall|i: int| k < i <= j ==> (#[trigger] pre[i]).last_message_ts > ts)
    &&& (j < k ==> pre[j].last_message_ts < ts)
    &&& (k <= j < pre.len() - 1 ==> pre[j + 1].last_message_ts <= ts)
}

/// The chat at position `k` was replaced by `c` and moved to its stable
/// position `j` — forward past strictly older chats or backward past
/// strictly newer ones; every other chat keeps its relative order.
pub open spec fn reordered(pre: Seq<ChatView>, post: Seq<ChatView>, k: int, c: ChatView, j: int) -> bool {
    &&& 0 <= k < pre.len()
    &&& stable_pos_ok(pre, k, c.last_message_ts, j)
    &&& post == pre.remove(k).insert(j, c)
}

/// Merge relation for a new message: the first chat carrying the message's
/// chat id takes the message and moves to the stable position for its new
/// activity time.
pub open spec fn new_message_applied(
    pre: Seq<ChatView>,
    post: Seq<ChatView>,
    m: MessageView,
) -> bool {
    exists|k: int, j: int|
        first_chat_at(pre, m.chat_id, k) && !has_msg(pre[k].messages, m.id) && #[trigger] reordered(
            pre,
            post,
            k,
            with_message(pre[k], m),
            j,
        )
}

/// An event is dropped (the cache keeps its value) exactly when it targets
/// an unknown chat or repeats a message id already in the window.
pub open spec fn new_message_dropped(pre: Seq<ChatView>, m: MessageView) -> bool {
    ||| chat_absent(pre, m.chat_id)
    ||| exists|k: int| #[trigger] first_chat_at(pre, m.chat_id, k) && has_msg(pre[k].messages, m.id)
}

/// The target chat after a history page arrived: the page goes in front of
/// the window and `last_message_ts` keeps its value.
pub open spec fn prepended(c: ChatView, page: Seq<MessageView>) -> ChatView {
    ChatView { messages: page + c.messages, ..c }
}

/// The target chat after a participant joined.
pub open spec fn with_user(c: ChatView, u: UserView) -> ChatView {
    ChatView { users: c.users.push(u), ..c }
}

/// The target chat after a read receipt for the participant at position `u`:
/// only that participant's `last_message_seen_ts` changes.
pub open spec fn with_read_receipt(c: ChatView, u: int, ts: u64) -> ChatView {
    ChatView {
        users: c.users.update(u, UserView { last_message_seen_ts: ts, ..c.users[u] }),
        ..c
    }
}

/// `u` is the first position of the participant with the given id.
pub open spec fn first_user_at(us: Seq<UserView>, id: u64, u: int) -> bool {
    &&& 0 <= u < us.len()
    &&& us[u].id == id
    &&& (forall|i: int| 0 <= i < u ==> us[i].id != id)
}

/// `j` is the stable position for a chat newly added with activity time
/// `ts`: after every chat at least as recent, before every strictly older
/// one.
pub open spec fn insert_pos_ok(pre: Seq<ChatView>, ts: u64, j: int) -> bool {
    &&& 0 <= j <= pre.len()
    &&& (forall|i: int| 0 <= i < j ==> (#[trigger] pre[i]).last_message_ts >= ts)
    &&& (j < pre.len() ==> pre[j].last_message_ts < ts)
}

/// A fresh chat is placed at the stable position for its activity time.
pub open spec fn chat_inserted(pre: Seq<ChatView>, post: Seq<ChatView>, c: ChatView, j: int) -> bool {
    &&& insert_pos_ok(pre, c.last_message_ts, j)
    &&& post == pre.insert(j, c)
}

impl Cache {
    /// An empty cache, before any bootstrap response arrived.
    pub fn new() -> (r: Cache)
        ensures
            r@.chats.len() == 0,
            r@.me is None,
    {
        Cache { chats: Vec::new(), me: None }
    }

    /// Replaces the whole chat list with an authoritative snapshot.
    pub fn replace_chats(&mut self, chats: Vec<Chat>)
        ensures
            final(self)@.chats == views_of_chats(chats@),
            final(self)@.me == old(self)@.me,
    {
        self.chats = chats;
    }

    /// Applies a new message to the target chat: appends it to the window,
    /// sets `last_message_ts` to the message's creation time, and moves
    /// the chat to the stable position for that new activity time —
    /// forward past strictly older chats, or backward past strictly newer
    /// ones, as a stable descending re-sort would. Returns whether the
    /// cache changed; the event is dropped when the chat is unknown or
    /// the message id is already cached.
    pub fn apply_new_message(&mut self, m: Message) -> (applied: bool)
        ensures
            final(self)@.me == old(self)@.me,
            applied ==> new_message_applied(old(self)@.chats, final(self)@.chats, m@),
            !applied ==> final(self)@ == old(self)@ && new_message_dropped(old(self)@.chats, m@),
    {
        let ghost pre = self@.chats;
        let k = match find_chat_index(&self.chats, m.chat_id) {
            None => {
                return false;
            },
            Some(k) => k,
        };
        if window_has_msg(&self.chats[k].messages, m.id) {
            assert(has_msg(pre[k as int].messages, m.id));
            return false;
        }
        let ghost m_v = m@;
        let ts = m.created_at;
        let mut c = self.chats.remove(k);
        c.messages.push(m);
        c.last_message_ts = ts;
        assert(c@ == with_message(pre[k as int], m_v)) by {
            assert(c@.messages =~= pre[k as int].messages.push(m_v));
            assert(c@ =~= with_message(pre[k as int], m_v));
        }
        let mut j: usize = 0;
        while j < k && self.chats[j].last_message_ts >= ts
            invariant
                j <= k < pre.len(),
                self.chats@.len() == pre.len() - 1,
                views_of_chats(self.chats@) == pre.remove(k as int),
                forall|i: int| 0 <= i < j ==> (#[trigger] pre[i]).last_message_ts >= ts,
            decreases k - j,
        {
            assert(views_of_chats(self.chats@)[j as int] == pre[j as int]);
            j = j + 1;
        }
        if j == k {
            // Every chat that stood before is at least as recent, so the
            // chat sinks past the strictly more recent ones behind it.
            let n1 = self.chats.len();
            while j < n1 && self.chats[j].last_message_ts > ts
                invariant
                    k <= j <= n1 && k < pre.len(),
                    n1 == self.chats@.len() == pre.len() - 1,
                    views_of_chats(self.chats@) == pre.remove(k as int),
                    forall|i: int| 0 <= i < k ==> (#[trigger] pre[i]).last_message_ts >= ts,
                    forall|i: int| k < i <= j ==> (#[trigger] pre[i]).last_message_ts > ts,
                decreases n1 - j,
            {
                assert(views_of_chats(self.chats@)[j as int] == pre[j + 1]);
                j = j + 1;
            }
        }
        assert(stable_pos_ok(pre, k as int, ts, j as int)) by {
            if j < k {
                assert(views_of_chats(self.chats@)[j as int] == pre[j as int]);
            }
            if k <= j && j < pre.len() - 1 {
                assert(views_of_chats(self.chats@)[j as int] == pre[j + 1]);
            }
        }
        self.chats.insert(j, c);
        proof {
            let ki = k as int;
            let ji = j as int;
            let c_v = with_message(pre[ki], m_v);
            assert(views_of_chats(self.chats@) =~= pre.remove(ki).insert(ji, c_v));
            assert(reordered(pre, final(self)@.chats, ki, c_v, ji));
            assert(first_chat_at(pre, m_v.chat_id, ki));
            assert(!has_msg(pre[ki].messages, m_v.id));
        }
        true
    }

    /// Prepends a fetched history page to the target chat's window. The
    /// page is spliced in front of the existing window unchanged, and
    /// `last_message_ts` keeps its value. Dropped if the chat is unknown.
    pub fn prepend_page(&mut self, chat_id: u64, page: Vec<Message>) -> (applied: bool)
        ensures
            final(self)@.me == old(self)@.me,
            applied ==> exists|k: int|
                #[trigger] first_chat_at(old(self)@.chats, chat_id, k) && final(self)@.chats
                    == old(self)@.chats.update(
                    k,
                    prepended(old(self)@.chats[k], views_of_messages(page@)),
                ),
            !applied ==> final(self)@ == old(self)@ && chat_absent(old(self)@.chats, chat_id),
    {
        let ghost pre = self@.chats;
        let k = match find_chat_index(&self.chats, chat_id) {
            None => {
                return false;
            },
            Some(k) => k,
        };
        let mut c = self.chats.remove(k);
        let mut v = page;
        let ghost page_v = views_of_messages(v@);
        v.append(&mut c.messages);
        c.messages = v;
        assert(c@ == prepended(pre[k as int], page_v)) by {
            assert(c@.messages =~= page_v + pre[k as int].messages);
            assert(c@ =~= prepended(pre[k as int], page_v));
        }
        self.chats.insert(k, c);
        proof {
            let ki = k as int;
            assert(views_of_chats(self.chats@) =~= pre.update(ki, prepended(pre[ki], page_v)));
        }
        true
    }

    /// Adds a participant to the target chat unless a participant with the
    /// same id is already present (an idempotent join). Dropped if the chat
    /// is unknown.
    pub fn apply_user_joined(&mut self, chat_id: u64, user: User) -> (applied: bool)
        ensures
            final(self)@.me == old(self)@.me,
            applied ==> exists|k: int|
                #[trigger] first_chat_at(old(self)@.chats, chat_id, k) && !has_user(
                    old(self)@.chats[k].users,
                    user@.id,
                ) && final(self)@.chats == old(self)@.chats.update(
                    k,
                    with_user(old(self)@.chats[k], user@),
                ),
            !applied ==> final(self)@ == old(self)@ && (chat_absent(old(self)@.chats, chat_id)
                || exists|k: int|
                #[trigger] first_chat_at(old(self)@.chats, chat_id, k) && has_user(
                    old(self)@.chats[k].users,
                    user@.id,
                )),
    {
        let ghost pre = self@.chats;
        let k = match find_chat_index(&self.chats, chat_id) {
            None => {
                return false;
            },
            Some(k) => k,
        };
        match find_user_index(&self.chats[k].users, user.id) {
            Some(_) => {
                assert(has_user(pre[k as int].users, user@.id));
                return false;
            },
            None => {},
        }
        let mut c = self.chats.remove(k);
        let ghost u_v = user@;
        c.users.push(user);
        assert(c@ == with_user(pre[k as int], u_v)) by {
            assert(c@.users =~= pre[k as int].users.push(u_v));
            assert(c@ =~= with_user(pre[k as int], u_v));
        }
        self.chats.insert(k, c);
        proof {
            let ki = k as int;
            assert(views_of_chats(self.chats@) =~= pre.update(ki, with_user(pre[ki], u_v)));
        }
        true
    }

    /// Applies a read receipt: the matching participant of the matching
    /// chat gets exactly the event's timestamp as `last_message_seen_ts`
    /// (last write wins; an out-of-order older receipt overwrites a newer
    /// one). Nothing else changes. Dropped if chat or participant is
    /// unknown.
    pub fn apply_chat_read(&mut self, chat_id: u64, user_id: u64, ts: u64) -> (applied: bool)
        ensures
            final(self)@.me == old(self)@.me,
            applied ==> exists|k: int, u: int|
                #![trigger first_chat_at(old(self)@.chats, chat_id, k),
                    first_user_at(old(self)@.chats[k].users, user_id, u)]
                first_chat_at(old(self)@.chats, chat_id, k) && first_user_at(
                    old(self)@.chats[k].users,
                    user_id,
                    u,
                ) && final(self)@.chats == old(self)@.chats.update(
                    k,
                    with_read_receipt(old(self)@.chats[k], u, ts),
                ),
            !applied ==> final(self)@ == old(self)@ && (chat_absent(old(self)@.chats, chat_id)
                || exists|k: int|
                #[trigger] first_chat_at(old(self)@.chats, chat_id, k) && !has_user(
                    old(self)@.chats[k].users,
                    user_id,
                )),
    {
        let ghost pre = self@.chats;
        let k = match find_chat_index(&self.chats, chat_id) {
            None => {
                return false;
            },
            Some(k) => k,
        };
        let u = match find_user_index(&self.chats[k].users, user_id) {
            None => {
                return false;
            },
            Some(u) => u,
        };
        let mut c = self.chats.remove(k);
        let mut member = c.users.remove(u);
        member.last_message_seen_ts = ts;
        c.users.insert(u, member);
        assert(c@ == with_read_receipt(pre[k as int], u as int, ts)) by {
            assert(c@.users =~= pre[k as int].users.update(
                u as int,
                UserView { last_message_seen_ts: ts, ..pre[k as int].users[u as int] },
            ));
            assert(c@ =~= with_read_receipt(pre[k as int], u as int, ts));
        }
        self.chats.insert(k, c);
        proof {
            let ki = k as int;
            let ui = u as int;
            assert(views_of_chats(self.chats@) =~= pre.update(
                ki,
                with_read_receipt(pre[ki], ui, ts),
            ));
            assert(first_user_at(pre[ki].users, user_id, ui));
        }
        true
    }

    /// Inserts a newly created chat at the stable position for its activity
    /// time. Dropped if a chat with the same id is already cached.
    pub fn insert_chat(&mut self, chat: Chat) -> (applied: bool)
        ensures
            final(self)@.me == old(self)@.me,
            applied ==> exists|j: int|
                #[trigger] chat_inserted(old(self)@.chats, final(self)@.chats, chat@, j),
            !applied ==> final(self)@ == old(self)@ && !chat_absent(old(self)@.chats, chat@.id),
    {
        let ghost pre = self@.chats;
        match find_chat_index(&self.chats, chat.id) {
            Some(_) => {
                return false;
            },
            None => {},
        }
        let ts = chat.last_message_ts;
        let n = self.chats.len();
        let mut j: usize = 0;
        while j < n && self.chats[j].last_message_ts >= ts
            invariant
                j <= n == pre.len(),
                views_of_chats(self.chats@) == pre,
                forall|i: int| 0 <= i < j ==> (#[trigger] pre[i]).last_message_ts >= ts,
            decreases n - j,
        {
            assert(views_of_chats(self.chats@)[j as int] == pre[j as int]);
            j = j + 1;
        }
        assert(insert_pos_ok(pre, ts, j as int)) by {
            if j < n {
                assert(views_of_chats(self.chats@)[j as int] == pre[j as int]);
            }
        }
        let ghost c_v = chat@;
        self.chats.insert(j, chat);
        proof {
            let ji = j as int;
            assert(views_of_chats(self.chats@) =~= pre.insert(ji, c_v));
            assert(chat_inserted(pre, final(self)@.chats, c_v, ji));
        }
        true
    }

    /// Replaces the cached own profile. Chat participant records are not
    /// touched.
    pub fn set_profile(&mut self, user: User)
        ensures
            final(self)@.me == Some(user@),
            final(self)@.chats == old(self)@.chats,
    {
        self.me = Some(user);
    }
}

/// Every chat's activity time is at most `bound`.
pub open spec fn chats_ts_bounded(cs: Seq<ChatView>, bound: u64) -> bool {
    forall|i: int| 0 <= i < cs.len() ==> (#[trigger] cs[i]).last_message_ts <= bound
}

/// One new-message merge keeps every chat well formed — in particular
/// every window stays sorted by creation time and free of duplicate ids —
/// provided the message is no older than any cached activity. A dropped
/// event (unknown chat or duplicate id) changes nothing.
pub proof fn lemma_new_message_preserves_wf(
    pre: Seq<ChatView>,
    post: Seq<ChatView>,
    m: MessageView,
    bound: u64,
)
    requires
        chats_wf(pre),
        chats_ts_bounded(pre, bound),
        bound <= m.created_at,
        new_message_applied(pre, post, m) || post == pre,
    ensures
        chats_wf(post),
        chats_ts_bounded(post, m.created_at),
{
    if post == pre {
        assert(chats_ts_bounded(post, m.created_at)) by {
            assert(forall|i: int|
                0 <= i < post.len() ==> (#[trigger] post[i]).last_message_ts <= bound
                    <= m.created_at);
        }
    } else {
        let (k, j) = choose|k: int, j: int|
            first_chat_at(pre, m.chat_id, k) && !has_msg(pre[k].messages, m.id)
                && #[trigger] reordered(pre, post, k, with_message(pre[k], m), j);
        let c = with_message(pre[k], m);
        let n = pre.len() as int;
        let others = pre.remove(k);
        assert(post.len() == n);
        assert(forall|x: int|
            0 <= x < n - 1 ==> others[x] == (if x < k {
                pre[x]
            } else {
                pre[x + 1]
            }));
        assert(forall|x: int|
            0 <= x < n ==> post[x] == (if x < j {
                others[x]
            } else if x == j {
                c
            } else {
                others[x - 1]
            }));
        assert(chat_wf(c)) by {
            assert(chat_wf(pre[k]));
            assert(forall|i: int|
                0 <= i < pre[k].messages.len() ==> (#[trigger] pre[k].messages[i]).created_at
                    <= m.created_at);
            assert(forall|i: int|
                0 <= i < c.messages.len() ==> (#[trigger] c.messages[i]).created_at
                    <= c.last_message_ts);
        }
        assert(chats_wf(post));
        assert(chats_ts_bounded(post, m.created_at));
    }
}

/// One new-message merge keeps the chat list ordered newest-first: the
/// target chat lands at the stable position for its new activity time —
/// the placement a stable descending re-sort gives it — whether the
/// message makes the chat more recent (it rises) or less recent (it
/// sinks). A dropped event changes nothing.
pub proof fn lemma_new_message_keeps_list_sorted(
    pre: Seq<ChatView>,
    post: Seq<ChatView>,
    m: MessageView,
)
    requires
        chats_sorted_desc(pre),
        new_message_applied(pre, post, m) || post == pre,
    ensures
        chats_sorted_desc(post),
{
    if post != pre {
        let (k, j) = choose|k: int, j: int|
            first_chat_at(pre, m.chat_id, k) && !has_msg(pre[k].messages, m.id)
                && #[trigger] reordered(pre, post, k, with_message(pre[k], m), j);
        let c = with_message(pre[k], m);
        let ts = c.last_message_ts;
        let n = pre.len() as int;
        let others = pre.remove(k);
        assert(forall|x: int|
            0 <= x < n - 1 ==> others[x] == (if x < k {
                pre[x]
            } else {
                pre[x + 1]
            }));
        assert(forall|x: int|
            0 <= x < n ==> post[x] == (if x < j {
                others[x]
            } else if x == j {
                c
            } else {
                others[x - 1]
            }));
        assert(forall|x: int, y: int|
            0 <= x <= y < n - 1 ==> (#[trigger] others[x]).last_message_ts
                >= (#[trigger] others[y]).last_message_ts);
        assert forall|x: int| 0 <= x < j implies others[x].last_message_ts >= ts by {
            if x >= k {
                assert(others[x] == pre[x + 1]);
                assert(pre[x + 1].last_message_ts > ts);
            }
        }
        assert forall|x: int| j <= x < n - 1 implies others[x].last_message_ts <= ts by {
            if j < k {
                assert(others[j] == pre[j]);
                assert(others[x].last_message_ts <= others[j].last_message_ts);
            } else {
                assert(others[j] == pre[j + 1]);
                assert(pre[j + 1].last_message_ts <= ts);
                assert(others[x].last_message_ts <= others[j].last_message_ts);
            }
        }
        assert forall|x: int, y: int| 0 <= x <= y < n implies post[x].last_message_ts
            >= post[y].last_message_ts by {
            if x == j && y > j {
                assert(others[y - 1].last_message_ts <= ts);
            }
            if y == j && x < j {
                assert(others[x].last_message_ts >= ts);
            }
            if x < j && y > j {
                assert(others[x].last_message_ts >= others[y - 1].last_message_ts);
            }
        }
    }
}

/// Any run of new-message events leaves the whole cache well formed — so
/// every chat's window ends non-decreasing by creation time with no message
/// duplicated or lost to reordering — provided the events arrive in
/// non-decreasing creation order starting no older than the cached
/// activity. Each step either merges the event or drops it unchanged.
pub proof fn lemma_new_message_run_ordered(states: Seq<Seq<ChatView>>, evs: Seq<MessageView>)
    requires
        states.len() == evs.len() + 1,
        chats_wf(states[0]),
        evs.len() > 0 ==> chats_ts_bounded(states[0], evs[0].created_at),
        forall|i: int, x: int|
            #![trigger evs[i], evs[x]]
            0 <= i < x < evs.len() ==> evs[i].created_at <= evs[x].created_at,
        forall|i: int|
            0 <= i < evs.len() ==> new_message_applied(states[i], states[i + 1], #[trigger] evs[i])
                || states[i + 1] == states[i],
    ensures
        chats_wf(states.last()),
    decreases evs.len(),
{
    if evs.len() == 0 {
        assert(states.last() == states[0]);
    } else {
        lemma_new_message_preserves_wf(states[0], states[1], evs[0], evs[0].created_at);
        let states2 = states.skip(1);
        let evs2 = evs.skip(1);
        assert(states2.len() == evs2.len() + 1);
        assert(states2[0] == states[1]);
        if evs2.len() > 0 {
            assert(evs2[0] == evs[1]);
            assert(evs[0].created_at <= evs[1].created_at);
            assert(chats_ts_bounded(states2[0], evs2[0].created_at)) by {
                assert(forall|i: int|
                    0 <= i < states2[0].len() ==> (#[trigger] states2[0][i]).last_message_ts
                        <= evs[0].created_at <= evs2[0].created_at);
            }
        }
        assert(forall|i: int, x: int|
            #![trigger evs2[i], evs2[x]]
            0 <= i < x < evs2.len() ==> evs2[i].created_at <= evs2[x].created_at);
        assert(forall|i: int|
            0 <= i < evs2.len() ==> new_message_applied(
                states2[i],
                states2[i + 1],
                #[trigger] evs2[i],
            ) || states2[i + 1] == states2[i]) by {
            assert(forall|i: int|
                0 <= i < evs2.len() ==> states2[i] == states[i + 1] && states2[i + 1] == states[i
                    + 2] && evs2[i] == evs[i + 1]);
        }
        lemma_new_message_run_ordered(states2, evs2);
        assert(states2.last() == states.last());
    }
}

/// An idempotent join keeps the cache well formed: the participant is
/// appended only when its id is absent, so participant ids stay unique
/// and the window is untouched.
pub proof fn lemma_user_joined_preserves_wf(
    pre: Seq<ChatView>,
    post: Seq<ChatView>,
    chat_id: u64,
    u: UserView,
    k: int,
)
    requires
        chats_wf(pre),
        first_chat_at(pre, chat_id, k),
        !has_user(pre[k].users, u.id),
        post == pre.update(k, with_user(pre[k], u)),
    ensures
        chats_wf(post),
{
    let c = with_user(pre[k], u);
    assert(chat_wf(c)) by {
        assert(chat_wf(pre[k]));
        assert(forall|i: int|
            0 <= i < pre[k].users.len() ==> (#[trigger] pre[k].users[i]).id != u.id);
        assert(forall|i: int|
            0 <= i < c.users.len() ==> c.users[i] == (if i < pre[k].users.len() {
                pre[k].users[i]
            } else {
                u
            }));
    }
    assert(chats_wf(post));
}

/// A read receipt keeps the cache well formed: only one participant's
/// `last_message_seen_ts` changes, which no invariant constrains.
pub proof fn lemma_chat_read_preserves_wf(
    pre: Seq<ChatView>,
    post: Seq<ChatView>,
    chat_id: u64,
    k: int,
    u: int,
    ts: u64,
)
    requires
        chats_wf(pre),
        first_chat_at(pre, chat_id, k),
        0 <= u < pre[k].users.len(),
        post == pre.update(k, with_read_receipt(pre[k], u, ts)),
    ensures
        chats_wf(post),
{
    let c = with_read_receipt(pre[k], u, ts);
    assert(chat_wf(c)) by {
        assert(chat_wf(pre[k]));
        assert(forall|i: int|
            0 <= i < c.users.len() ==> (#[trigger] c.users[i]).id == pre[k].users[i].id);
    }
    assert(chats_wf(post));
}

/// Inserting a fresh, well-formed chat keeps the cache well formed.
pub proof fn lemma_insert_chat_preserves_wf(
    pre: Seq<ChatView>,
    post: Seq<ChatView>,
    c: ChatView,
    j: int,
)
    requires
        chats_wf(pre),
        chat_wf(c),
        chat_absent(pre, c.id),
        chat_inserted(pre, post, c, j),
    ensures
        chats_wf(post),
{
    assert(forall|x: int|
        0 <= x < post.len() ==> post[x] == (if x < j {
            pre[x]
        } else if x == j {
            c
        } else {
            pre[x - 1]
        }));
    assert(chats_wf(post));
}

/// Inserting a fresh chat at its stable position keeps the list ordered
/// newest-first.
pub proof fn lemma_insert_chat_sorted(
    pre: Seq<ChatView>,
    post: Seq<ChatView>,
    c: ChatView,
    j: int,
)
    requires
        chats_sorted_desc(pre),
        chat_inserted(pre, post, c, j),
    ensures
        chats_sorted_desc(post),
{
    let n = pre.len() as int;
    assert(forall|x: int|
        0 <= x < post.len() ==> post[x] == (if x < j {
            pre[x]
        } else if x == j {
            c
        } else {
            pre[x - 1]
        }));
    assert forall|x: int, y: int| 0 <= x <= y < post.len() implies post[x].last_message_ts
        >= post[y].last_message_ts by {
        if x == j && j < y {
            assert(pre[j].last_message_ts < c.last_message_ts);
            assert(pre[y - 1].last_message_ts <= pre[j].last_message_ts);
        }
    }
}

/// Prepending a history page is lossless and order preserving: the page
/// lands in front, every previously loaded message keeps its position after
/// the page, `last_message_ts` keeps its value, and no other chat changes.
pub proof fn lemma_prepend_lossless(
    pre: Seq<ChatView>,
    post: Seq<ChatView>,
    chat_id: u64,
    page: Seq<MessageView>,
    k: int,
)
    requires
        first_chat_at(pre, chat_id, k),
        post == pre.update(k, prepended(pre[k], page)),
    ensures
        post.len() == pre.len(),
        post[k].messages.len() == page.len() + pre[k].messages.len(),
        post[k].messages.subrange(0, page.len() as int) == page,
        post[k].messages.subrange(page.len() as int, post[k].messages.len() as int)
            == pre[k].messages,
        post[k].last_message_ts == pre[k].last_message_ts,
        forall|i: int| 0 <= i < pre.len() && i != k ==> post[i] == pre[i],
{
    assert(post[k].messages.subrange(0, page.len() as int) =~= page);
    assert(post[k].messages.subrange(page.len() as int, post[k].messages.len() as int)
        =~= pre[k].messages);
}

/// A history-page merge keeps the cache well formed when the page itself is
/// sorted, free of duplicates, belongs to the target chat, and is entirely
/// older than the loaded window.
pub proof fn lemma_prepend_preserves_wf(
    pre: Seq<ChatView>,
    post: Seq<ChatView>,
    chat_id: u64,
    page: Seq<MessageView>,
    k: int,
)
    requires
        chats_wf(pre),
        first_chat_at(pre, chat_id, k),
        post == pre.update(k, prepended(pre[k], page)),
        crate::model::msgs_sorted(page),
        crate::model::msg_ids_unique(page),
        forall|i: int| 0 <= i < page.len() ==> (#[trigger] page[i]).chat_id == chat_id,
        forall|i: int, x: int|
            0 <= i < page.len() && 0 <= x < pre[k].messages.len() ==> (#[trigger] page[i]).created_at
                <= (#[trigger] pre[k].messages[x]).created_at,
        forall|i: int|
            0 <= i < page.len() ==> (#[trigger] page[i]).created_at <= pre[k].last_message_ts,
        forall|i: int, x: int|
            0 <= i < page.len() && 0 <= x < pre[k].messages.len() ==> (#[trigger] page[i]).id != (
            #[trigger] pre[k].messages[x]).id,
    ensures
        chats_wf(post),
{
    let c = prepended(pre[k], page);
    assert(chat_wf(c)) by {
        assert(chat_wf(pre[k]));
        assert(forall|i: int|
            0 <= i < c.messages.len() ==> c.messages[i] == (if i < page.len() {
                page[i]
            } else {
                pre[k].messages[i - page.len()]
            }));
    }
    assert(chats_wf(post));
}

} // verus!
